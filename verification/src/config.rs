//! User settings, and where they are kept.
//!
//! Every field has a default, so a missing or partial file is fine. Quantities that only the
//! signal processing reads (loudness ratios, the pace of the voice) are not part of these types;
//! durations are whole milliseconds.

use vstd::prelude::*;

use crate::paths;
use crate::paths::join_path;
use crate::text::{concat, same_text};

verus! {

#[derive(Debug, Clone)]
pub struct Config {
    pub stt: SttConfig,
    pub audio: AudioConfig,
    pub hotkeys: HotkeyConfig,
    pub typing: TypingConfig,
    pub tts: TtsConfig,
    pub overlay: OverlayConfig,
}

#[derive(Debug, Clone)]
pub struct SttConfig {
    /// Whisper model name (tiny.en, base.en, small.en, medium.en, large-v3-turbo, ...).
    pub model: String,
    /// Explicit path to a ggml model file; overrides `model`.
    pub model_path: Option<String>,
    /// A second model for finished phrases; the first then only does the live words.
    pub final_model: Option<String>,
    /// Download the model on first start if it is missing.
    pub auto_download: bool,
    /// Spoken language ("en", "de", ... or "auto"). English-only `.en` models ignore it.
    pub language: String,
    /// Inference threads; 0 picks a sensible number for this machine.
    pub threads: usize,
    /// Show a live, provisional transcript in the overlay while you speak.
    pub live_preview: bool,
    /// Feed the tail of what was already dictated back to Whisper.
    pub use_context: bool,
    /// Extra vocabulary hint (names, jargon) given to Whisper as a prompt.
    pub vocabulary: String,
    /// Size Whisper's audio window to the phrase.
    pub fast_encoder: bool,
}

#[derive(Debug, Clone)]
pub struct AudioConfig {
    /// Microphone to use, as printed by `ravenvoice devices`. Unset = system default.
    pub device: Option<String>,
    /// How long a pause (ms) ends a phrase and sends it for transcription.
    pub silence_ms: u32,
    /// Phrases shorter than this (ms of speech) are treated as noise.
    pub min_speech_ms: u32,
    /// A phrase is cut and transcribed after this long (ms) even without a pause.
    pub max_phrase_ms: u64,
    /// While you speak, transcribe the phrase so far this often (ms).
    pub stream_interval_ms: u32,
}

#[derive(Debug, Clone)]
pub struct HotkeyConfig {
    /// Read keyboards directly (needs the `input` group) for global shortcuts.
    pub enabled: bool,
    /// Press once to start dictating, again to stop.
    pub toggle: String,
    /// Hold to dictate, release to stop. Empty disables it.
    pub push_to_talk: String,
    /// Read the last dictated text aloud.
    pub speak_last: String,
    /// Silence any speech in progress.
    pub stop_speaking: String,
}

#[derive(Debug, Clone)]
pub struct TypingConfig {
    /// Type recognised text into the focused app.
    pub enabled: bool,
    /// Type words while you are still speaking, correcting them when the phrase ends.
    pub realtime: bool,
    /// Delay between synthetic key presses. Raise it if an app drops letters.
    pub key_delay_ms: u64,
    /// Understand "new line", "new paragraph", "scratch that", "stop listening", ...
    pub voice_commands: bool,
    /// Characters with no key on a US layout: "skip" them, or type them with GTK's
    /// "ctrl-shift-u" unicode entry.
    pub unicode_fallback: String,
}

#[derive(Debug, Clone)]
pub struct TtsConfig {
    /// "auto" (piper if installed with a voice, else espeak-ng), "piper" or "espeak-ng".
    pub engine: String,
    /// espeak-ng voice, e.g. "en-us", "en-gb", "de".
    pub espeak_voice: String,
    /// Speaking rate in words per minute (espeak-ng).
    pub rate_wpm: u32,
    /// Piper executable; unset searches PATH for `piper-tts` and `piper`.
    pub piper_bin: Option<String>,
    /// Piper `.onnx` voice; its `.onnx.json` must sit next to it.
    pub piper_model: Option<String>,
    /// Read every dictated phrase back aloud (useful without sight of the screen).
    pub echo_dictation: bool,
}

#[derive(Debug, Clone)]
pub struct OverlayConfig {
    /// "top" or "bottom" of the screen.
    pub position: String,
    /// Distance from the screen edge in pixels.
    pub margin: i32,
    /// Base font size in points; raise it for low vision.
    pub font_size: u32,
    /// Start with the full bar; false starts shrunk to the microphone button.
    pub visible: bool,
}

// ---------------------------------------------------------------------------
// Defaults
// ---------------------------------------------------------------------------

impl SttConfig {
    pub open spec fn is_default(self) -> bool {
        &&& self.model@ == "base.en"@
        &&& self.model_path is None
        &&& self.final_model is None
        &&& self.auto_download
        &&& self.language@ == "en"@
        &&& self.threads == 0
        &&& self.live_preview
        &&& self.use_context
        &&& self.vocabulary@ == Seq::<char>::empty()
        &&& self.fast_encoder
    }
}

impl Default for SttConfig {
    fn default() -> (r: Self)
        ensures
            r.is_default(),
    {
        SttConfig {
            model: "base.en".to_owned(),
            model_path: None,
            final_model: None,
            auto_download: true,
            language: "en".to_owned(),
            threads: 0,
            live_preview: true,
            use_context: true,
            vocabulary: String::new(),
            fast_encoder: true,
        }
    }
}

impl AudioConfig {
    pub open spec fn is_default(self) -> bool {
        &&& self.device is None
        &&& self.silence_ms == 800
        &&& self.min_speech_ms == 300
        &&& self.max_phrase_ms == 20_000
        &&& self.stream_interval_ms == 600
    }
}

impl Default for AudioConfig {
    fn default() -> (r: Self)
        ensures
            r.is_default(),
    {
        AudioConfig {
            device: None,
            silence_ms: 800,
            min_speech_ms: 300,
            max_phrase_ms: 20_000,
            stream_interval_ms: 600,
        }
    }
}

impl HotkeyConfig {
    pub open spec fn is_default(self) -> bool {
        &&& self.enabled
        &&& self.toggle@ == "Ctrl+Alt+D"@
        &&& self.push_to_talk@ == Seq::<char>::empty()
        &&& self.speak_last@ == "Ctrl+Alt+R"@
        &&& self.stop_speaking@ == "Ctrl+Alt+X"@
    }
}

impl Default for HotkeyConfig {
    fn default() -> (r: Self)
        ensures
            r.is_default(),
    {
        HotkeyConfig {
            enabled: true,
            toggle: "Ctrl+Alt+D".to_owned(),
            push_to_talk: String::new(),
            speak_last: "Ctrl+Alt+R".to_owned(),
            stop_speaking: "Ctrl+Alt+X".to_owned(),
        }
    }
}

impl TypingConfig {
    pub open spec fn is_default(self) -> bool {
        &&& self.enabled
        &&& self.realtime
        &&& self.key_delay_ms == 4
        &&& self.voice_commands
        &&& self.unicode_fallback@ == "skip"@
    }
}

impl Default for TypingConfig {
    fn default() -> (r: Self)
        ensures
            r.is_default(),
    {
        TypingConfig {
            enabled: true,
            realtime: true,
            key_delay_ms: 4,
            voice_commands: true,
            unicode_fallback: "skip".to_owned(),
        }
    }
}

impl TtsConfig {
    pub open spec fn is_default(self) -> bool {
        &&& self.engine@ == "auto"@
        &&& self.espeak_voice@ == "en-us"@
        &&& self.rate_wpm == 175
        &&& self.piper_bin is None
        &&& self.piper_model is None
        &&& !self.echo_dictation
    }
}

impl Default for TtsConfig {
    fn default() -> (r: Self)
        ensures
            r.is_default(),
    {
        TtsConfig {
            engine: "auto".to_owned(),
            espeak_voice: "en-us".to_owned(),
            rate_wpm: 175,
            piper_bin: None,
            piper_model: None,
            echo_dictation: false,
        }
    }
}

impl OverlayConfig {
    pub open spec fn is_default(self) -> bool {
        &&& self.position@ == "bottom"@
        &&& self.margin == 48
        &&& self.font_size == 13
        &&& self.visible
    }
}

impl Default for OverlayConfig {
    fn default() -> (r: Self)
        ensures
            r.is_default(),
    {
        OverlayConfig { position: "bottom".to_owned(), margin: 48, font_size: 13, visible: true }
    }
}

impl Default for Config {
    fn default() -> (r: Self)
        ensures
            r.stt.is_default(),
            r.audio.is_default(),
            r.hotkeys.is_default(),
            r.typing.is_default(),
            r.tts.is_default(),
            r.overlay.is_default(),
    {
        Config {
            stt: SttConfig::default(),
            audio: AudioConfig::default(),
            hotkeys: HotkeyConfig::default(),
            typing: TypingConfig::default(),
            tts: TtsConfig::default(),
            overlay: OverlayConfig::default(),
        }
    }
}

impl Config {
    pub open spec fn types_live(self) -> bool {
        self.typing.enabled && self.typing.realtime
    }

    /// Whether words are typed while they are still being spoken.
    pub fn typing_live(&self) -> (r: bool)
        ensures
            r == self.types_live(),
    {
        self.typing.enabled && self.typing.realtime
    }
}

// ---------------------------------------------------------------------------
// Accuracy
// ---------------------------------------------------------------------------

/// One model for everything, or a second, better one for finished phrases.
#[derive(Debug, Clone, Copy, PartialEq, Eq, Structural)]
pub enum Accuracy {
    Fast,
    Accurate,
}

impl Accuracy {
    pub open spec fn mode_of(stt: SttConfig) -> Accuracy {
        if stt.final_model is Some {
            Accuracy::Accurate
        } else {
            Accuracy::Fast
        }
    }

    /// The mode that the settings amount to.
    pub fn of(stt: &SttConfig) -> (r: Accuracy)
        ensures
            r == Accuracy::mode_of(*stt),
    {
        if stt.final_model.is_some() {
            Accuracy::Accurate
        } else {
            Accuracy::Fast
        }
    }

    /// The mode that a word on the command line names.
    pub fn parse(word: &str) -> (r: Option<Accuracy>)
        ensures
            r == (if word@ == "fast"@ {
                Some(Accuracy::Fast)
            } else if word@ == "accurate"@ {
                Some(Accuracy::Accurate)
            } else {
                None
            }),
    {
        if same_text(word, "fast") {
            Some(Accuracy::Fast)
        } else if same_text(word, "accurate") {
            Some(Accuracy::Accurate)
        } else {
            None
        }
    }

    /// The settings differ in nothing but the models, which are those of one of the two modes.
    pub open spec fn switched(a: SttConfig, b: SttConfig) -> bool {
        &&& b.model@ == "base.en"@
        &&& b.final_model matches Some(m) ==> m@ == "small.en-q5_1"@
        &&& b.model_path == a.model_path
        &&& b.auto_download == a.auto_download
        &&& b.language == a.language
        &&& b.threads == a.threads
        &&& b.live_preview == a.live_preview
        &&& b.use_context == a.use_context
        &&& b.vocabulary == a.vocabulary
        &&& b.fast_encoder == a.fast_encoder
    }

    /// Switches the settings to this mode: "base.en" for the words as they are spoken and, in
    /// accurate mode, "small.en-q5_1" for finished phrases.
    pub fn apply(self, stt: &mut SttConfig)
        ensures
            Accuracy::mode_of(*final(stt)) == self,
            Accuracy::switched(*old(stt), *final(stt)),
    {
        stt.model = "base.en".to_owned();
        stt.final_model = match self {
            Accuracy::Fast => None,
            Accuracy::Accurate => Some("small.en-q5_1".to_owned()),
        };
    }
}

// ---------------------------------------------------------------------------
// Files
// ---------------------------------------------------------------------------

/// Our own directory below the user's, or below the current one where there is none.
pub open spec fn own_dir(base: Option<Seq<char>>) -> Seq<char> {
    match base {
        Some(b) => paths::below(b, "ravenvoice"@),
        None => paths::below("."@, "ravenvoice"@),
    }
}

pub open spec fn data_path(data_home: Option<Seq<char>>) -> Seq<char> {
    own_dir(data_home)
}

/// The directory of the settings, given the user's configuration directory.
pub fn config_dir(config_home: Option<&str>) -> (r: String)
    ensures
        r@ == own_dir(paths::text_of(config_home)),
{
    match config_home {
        Some(b) => join_path(b, "ravenvoice"),
        None => join_path(".", "ravenvoice"),
    }
}

/// The directory of what is downloaded, given the user's data directory.
pub fn data_dir(data_home: Option<&str>) -> (r: String)
    ensures
        r@ == data_path(paths::text_of(data_home)),
{
    match data_home {
        Some(b) => join_path(b, "ravenvoice"),
        None => join_path(".", "ravenvoice"),
    }
}

/// The file of the settings.
pub fn config_path(config_home: Option<&str>) -> (r: String)
    ensures
        r@ == paths::below(own_dir(paths::text_of(config_home)), "config.toml"@),
{
    join_path(&config_dir(config_home), "config.toml")
}

/// The settings file: the settings themselves below a line that says what they are.
pub fn file_text(body: &str) -> (r: String)
    ensures
        r@ == "# RavenVoice settings. See README.md for every option.\n\n"@ + body@,
{
    concat("# RavenVoice settings. See README.md for every option.\n\n", body)
}

// ---------------------------------------------------------------------------
// Laws
// ---------------------------------------------------------------------------

/// Without any settings dictation types into the focused app as it goes, with commands, in English,
/// on the system's microphone, and a pause of 0.8 s ends a phrase.
pub proof fn law_dictation_works_without_settings(c: Config)
    requires
        c.stt.is_default(),
        c.audio.is_default(),
        c.hotkeys.is_default(),
        c.typing.is_default(),
        c.tts.is_default(),
        c.overlay.is_default(),
    ensures
        c.types_live() && c.typing.voice_commands && c.typing.key_delay_ms == 4,
        c.typing.unicode_fallback@ == "skip"@,
        c.stt.model@ == "base.en"@ && c.stt.language@ == "en"@ && c.stt.vocabulary@.len() == 0,
        c.stt.model_path is None && c.stt.final_model is None && c.stt.threads == 0,
        c.stt.auto_download && c.stt.live_preview && c.stt.use_context && c.stt.fast_encoder,
        c.audio.device is None && c.audio.silence_ms == 800 && c.audio.min_speech_ms == 300,
        c.audio.max_phrase_ms == 20_000 && c.audio.stream_interval_ms == 600,
        c.hotkeys.enabled && c.hotkeys.toggle@ == "Ctrl+Alt+D"@,
        c.hotkeys.push_to_talk@.len() == 0 && c.hotkeys.speak_last@ == "Ctrl+Alt+R"@,
        c.hotkeys.stop_speaking@ == "Ctrl+Alt+X"@,
        c.tts.engine@ == "auto"@ && c.tts.espeak_voice@ == "en-us"@ && c.tts.rate_wpm == 175,
        c.tts.piper_bin is None && c.tts.piper_model is None && !c.tts.echo_dictation,
        c.overlay.position@ == "bottom"@ && c.overlay.margin == 48 && c.overlay.font_size == 13,
        c.overlay.visible,
{
}

/// Words are typed live exactly where typing and live typing are both on.
pub proof fn law_live_typing_needs_typing(c: Config)
    ensures
        c.types_live() ==> c.typing.enabled && c.typing.realtime,
        c.typing.enabled && c.typing.realtime ==> c.types_live(),
{
}

/// Switching the accuracy changes the models and no other setting: one model for everything, or a
/// second one for finished phrases.
pub proof fn law_accuracy_is_a_second_model(a: SttConfig, b: SttConfig)
    ensures
        Accuracy::mode_of(a) is Accurate <==> a.final_model is Some,
        Accuracy::mode_of(a) is Fast <==> a.final_model is None,
        Accuracy::switched(a, b) ==> b.model@ == "base.en"@ && (b.final_model is None
            || b.final_model->0@ == "small.en-q5_1"@),
        Accuracy::switched(a, b) ==> b.model_path == a.model_path && b.auto_download
            == a.auto_download && b.language == a.language && b.threads == a.threads
            && b.live_preview == a.live_preview && b.use_context == a.use_context && b.vocabulary
            == a.vocabulary && b.fast_encoder == a.fast_encoder,
{
}

/// What is kept lies in a directory of our own below the user's, or below the current one where
/// the user's is not known.
pub proof fn law_files_lie_in_our_own_directory(home: Seq<char>)
    requires
        home.len() > 0,
        home.last() != '/',
    ensures
        own_dir(Some(home)) == home + "/ravenvoice"@,
        data_path(Some(home)) == home + "/ravenvoice"@,
        own_dir(None) == "./ravenvoice"@,
        data_path(None) == "./ravenvoice"@,
{
    reveal_strlit("/ravenvoice");
    reveal_strlit("ravenvoice");
    reveal_strlit("./ravenvoice");
    reveal_strlit(".");
    assert(home.push('/') + "ravenvoice"@ =~= home + "/ravenvoice"@);
    assert("."@.push('/') + "ravenvoice"@ =~= "./ravenvoice"@);
}

/// The two words for how accurate to be mean what they say, and there are no others.
pub proof fn law_accuracy_has_two_words(word: &str, r: Option<Accuracy>)
    requires
        call_ensures(Accuracy::parse, (word,), r),
    ensures
        r == Some(Accuracy::Fast) <==> word@ == "fast"@,
        r == Some(Accuracy::Accurate) <==> word@ == "accurate"@,
        r is None <==> word@ != "fast"@ && word@ != "accurate"@,
{
    reveal_strlit("fast");
    reveal_strlit("accurate");
    assert("fast"@.len() != "accurate"@.len());
}

} // verus!
