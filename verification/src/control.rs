//! The control of dictation: it owns the microphone, handles commands, and reacts to microphones
//! being plugged in or pulled out.
//!
//! Every decision is a step from a state and an event to a state and a list of effects. Effects
//! are carried out in order. `Open` and `Resume` have an outcome, which is handed back
//! (`opened`, `resumed`) and whose own effects come before the rest of the list; likewise the
//! phrases that come of `TakeQueued` and `CloseEar`.

use vstd::prelude::*;

use crate::audio;
use crate::audio::{copy_mics, same_mics, MicInfo};
use crate::config::{Accuracy, Config};
use crate::engine;
use crate::engine::{SttJob, UiEvent};
use crate::text::{concat, same_text};
use crate::vad::VadEvent;

verus! {

// ---------------------------------------------------------------------------
// Effects
// ---------------------------------------------------------------------------

#[derive(Debug)]
pub enum Effect {
    /// Tell the overlay.
    Ui(UiEvent),
    /// Forget what was typed so far.
    ResetTyping,
    /// Start phrase detection afresh.
    FreshEar,
    /// Throw away audio that is waiting.
    Discard,
    /// Take what the microphone already delivered.
    TakeQueued,
    /// Close the phrase being heard.
    CloseEar,
    /// Pause the microphone.
    Pause,
    /// Close the microphone.
    Close,
    /// Close the microphone and open the one asked for, or the system default.
    Open(Option<String>),
    /// Let the microphone run.
    Resume,
    /// Write the settings.
    Save,
    /// Let others know whether dictation is on.
    SetListening(bool),
    /// Stop reading aloud.
    Silence,
    /// Read a text aloud.
    Speak(String),
    /// Switch the models.
    Models(Accuracy),
}

/// An effect with its texts as sequences of characters.
pub enum Act {
    Ui(engine::Signal),
    ResetTyping,
    FreshEar,
    Discard,
    TakeQueued,
    CloseEar,
    Pause,
    Close,
    Open(Option<Seq<char>>),
    Resume,
    Save,
    SetListening(bool),
    Silence,
    Speak(Seq<char>),
    Models(Accuracy),
}

impl View for Effect {
    type V = Act;

    open spec fn view(&self) -> Act {
        match self {
            Effect::Ui(e) => Act::Ui(e@),
            Effect::ResetTyping => Act::ResetTyping,
            Effect::FreshEar => Act::FreshEar,
            Effect::Discard => Act::Discard,
            Effect::TakeQueued => Act::TakeQueued,
            Effect::CloseEar => Act::CloseEar,
            Effect::Pause => Act::Pause,
            Effect::Close => Act::Close,
            Effect::Open(r) => Act::Open(engine::chosen(*r)),
            Effect::Resume => Act::Resume,
            Effect::Save => Act::Save,
            Effect::SetListening(on) => Act::SetListening(*on),
            Effect::Silence => Act::Silence,
            Effect::Speak(t) => Act::Speak(t@),
            Effect::Models(a) => Act::Models(*a),
        }
    }
}

pub open spec fn acts(effects: Seq<Effect>) -> Seq<Act> {
    effects.map_values(|e: Effect| e@)
}

// ---------------------------------------------------------------------------
// The state
// ---------------------------------------------------------------------------

/// A microphone that is open: its concrete id (the default resolved to a real one) and its name.
#[derive(Debug)]
pub struct OpenMic {
    pub id: String,
    pub name: String,
}

/// Why a microphone is opened.
#[derive(Debug, Clone, Copy, PartialEq, Eq, Structural)]
pub enum Purpose {
    /// To dictate.
    Listen,
    /// So that the first dictation starts quickly: opening a microphone takes long.
    Warm,
}

pub struct Control {
    cfg: Config,
    /// The open microphone. It stays open (paused) between dictations, because opening one takes
    /// seconds while resuming does not.
    stream: Option<OpenMic>,
    /// What `stream` was opened for: a configured id, or `None` for "system default".
    request: Option<String>,
    /// What the microphone now being opened is opened for.
    opening: Option<String>,
    purpose: Purpose,
    listening: bool,
    /// Listening, but no audio has arrived yet (the microphone is waking up).
    awaiting_audio: bool,
    push_to_talk: bool,
    phrase_id: u64,
    mics: Vec<MicInfo>,
}

/// The state, as contracts speak of it.
pub struct Desk {
    /// The microphone that the settings choose.
    pub device: Option<Seq<char>>,
    /// Whether phrases are transcribed while they are being spoken.
    pub previews: bool,
    /// The open microphone.
    pub stream: Option<Mike>,
    pub request: Option<Seq<char>>,
    pub opening: Option<Seq<char>>,
    pub purpose: Purpose,
    pub listening: bool,
    pub awaiting: bool,
    pub push_to_talk: bool,
    pub phrase_id: u64,
    pub mics: Seq<audio::Mic>,
}

/// An open microphone with its texts as sequences of characters.
pub struct Mike {
    pub id: Seq<char>,
    pub name: Seq<char>,
}

impl View for OpenMic {
    type V = Mike;

    open spec fn view(&self) -> Mike {
        Mike { id: self.id@, name: self.name@ }
    }
}

pub open spec fn open_stream(s: Option<OpenMic>) -> Option<Mike> {
    match s {
        Some(m) => Some(m@),
        None => None,
    }
}

impl Config {
    pub open spec fn previews(self) -> bool {
        self.stt.live_preview || self.types_live()
    }
}

impl View for Control {
    type V = Desk;

    closed spec fn view(&self) -> Desk {
        Desk {
            device: engine::chosen(self.cfg.audio.device),
            previews: self.cfg.previews(),
            stream: open_stream(self.stream),
            request: engine::chosen(self.request),
            opening: engine::chosen(self.opening),
            purpose: self.purpose,
            listening: self.listening,
            awaiting: self.awaiting_audio,
            push_to_talk: self.push_to_talk,
            phrase_id: self.phrase_id,
            mics: audio::mics(self.mics@),
        }
    }
}

// ---------------------------------------------------------------------------
// What the events lead to
// ---------------------------------------------------------------------------

/// Dictation ends. What was spoken up to here is taken and its phrase closed, so that the last
/// words are not lost.
pub open spec fn stopped(d: Desk) -> (Desk, Seq<Act>) {
    let hear = if d.listening {
        let pause = if d.stream is Some {
            seq![Act::Pause]
        } else {
            Seq::empty()
        };
        pause.push(Act::TakeQueued).push(Act::CloseEar)
    } else {
        Seq::empty()
    };
    (
        Desk { listening: false, awaiting: false, push_to_talk: false, ..d },
        hear.push(Act::SetListening(false)).push(Act::Ui(engine::Signal::Listening(false))).push(
            Act::Ui(engine::Signal::Hearing(false)),
        ).push(Act::Ui(engine::Signal::Level(0))),
    )
}

/// A microphone is wanted: the open one, if it is sound and was opened for the same, or a new one.
pub open spec fn ensured(
    d: Desk,
    request: Option<Seq<char>>,
    purpose: Purpose,
    failed: bool,
) -> (Desk, Seq<Act>) {
    if d.stream is Some && !failed && d.request == request {
        (Desk { purpose, ..d }, seq![Act::Resume])
    } else {
        (Desk { stream: None, opening: request, purpose, ..d }, seq![Act::Open(request)])
    }
}

/// Dictation is to begin, unless it is on.
pub open spec fn started(d: Desk, request: Option<Seq<char>>, failed: bool) -> (Desk, Seq<Act>) {
    if d.listening {
        (d, Seq::empty())
    } else {
        let e = ensured(d, request, Purpose::Listen, failed);
        (e.0, seq![Act::ResetTyping, Act::FreshEar, Act::Discard] + e.1)
    }
}

/// The microphone could not be had.
pub open spec fn refused(d: Desk, why: Seq<char>) -> (Desk, Seq<Act>) {
    match d.purpose {
        Purpose::Listen => (
            Desk { push_to_talk: false, ..d },
            seq![Act::Ui(engine::Signal::Error("Could not open the microphone: "@ + why))],
        ),
        Purpose::Warm => (d, seq![Act::Discard]),
    }
}

/// A microphone was opened, or was not.
pub open spec fn opening_done(d: Desk, result: Result<Mike, Seq<char>>) -> (
    Desk,
    Seq<Act>,
) {
    match result {
        Ok(m) => (Desk { stream: Some(m), request: d.opening, ..d }, seq![Act::Resume]),
        Err(why) => refused(d, why),
    }
}

/// The microphone runs, or does not.
pub open spec fn resuming_done(d: Desk, result: Result<(), Seq<char>>) -> (Desk, Seq<Act>) {
    match result {
        Ok(_) => match d.purpose {
            Purpose::Listen => (
                Desk { listening: true, awaiting: true, ..d },
                seq![Act::SetListening(true), Act::Ui(engine::Signal::Listening(true))],
            ),
            Purpose::Warm => (d, seq![Act::Pause, Act::Discard]),
        },
        Err(why) => refused(d, why),
    }
}

/// Another microphone is taken, and dictation carries on if it was on.
pub open spec fn switched(d: Desk, request: Option<Seq<char>>) -> (Desk, Seq<Act>) {
    if d.listening {
        let s = stopped(d);
        let r = started(
            Desk { stream: None, push_to_talk: d.push_to_talk, ..s.0 },
            request,
            false,
        );
        (r.0, s.1.push(Act::Close) + r.1)
    } else {
        let r = ensured(Desk { stream: None, ..d }, request, Purpose::Warm, false);
        (r.0, seq![Act::Close] + r.1)
    }
}

pub open spec fn mics_signal(d: Desk) -> Act {
    Act::Ui(engine::Signal::Mics { list: d.mics, selected: d.device })
}

/// A command. `failed` says that the open microphone has gone; `last_text` is what was last
/// dictated.
pub open spec fn commanded(d: Desk, order: engine::Order, failed: bool, last_text: Seq<char>) -> (
    Desk,
    Seq<Act>,
) {
    match order {
        engine::Order::Toggle => if d.listening {
            stopped(d)
        } else {
            started(d, d.device, failed)
        },
        engine::Order::Start => started(d, d.device, failed),
        engine::Order::Stop => stopped(d),
        engine::Order::PushToTalkDown => if d.listening {
            (d, Seq::empty())
        } else {
            started(Desk { push_to_talk: true, ..d }, d.device, failed)
        },
        engine::Order::PushToTalkUp => if d.push_to_talk {
            stopped(d)
        } else {
            (d, Seq::empty())
        },
        engine::Order::SelectDevice(id) => {
            let s = switched(Desk { device: id, ..d }, id);
            (s.0, (seq![Act::Save] + s.1).push(mics_signal(s.0)))
        },
        engine::Order::SetAccuracy(a) => (d, seq![Act::Save, Act::Models(a)]),
        engine::Order::Speak(t) => (d, seq![Act::Silence, Act::Speak(t)]),
        engine::Order::SpeakLast => (
            d,
            seq![
                Act::Silence,
                Act::Speak(
                    if last_text.len() == 0 {
                        "Nothing has been dictated yet."@
                    } else {
                        last_text
                    },
                ),
            ],
        ),
        engine::Order::StopSpeaking => (d, seq![Act::Silence]),
    }
}

/// A look at the open microphone, which may have vanished (usually unplugged).
pub open spec fn checked(d: Desk, failed: bool) -> (Desk, Seq<Act>) {
    if d.stream is None || !failed {
        (d, Seq::empty())
    } else {
        let gone = Desk { stream: None, ..d };
        if d.listening {
            let s = switched(gone, None);
            let notice = d.stream->0.name
                + " disconnected — switching to the system default microphone"@;
            (s.0, seq![Act::Close, Act::Ui(engine::Signal::Notice(notice))] + s.1)
        } else {
            (gone, seq![Act::Close])
        }
    }
}

pub open spec fn has_mic(list: Seq<audio::Mic>, id: Seq<char>) -> bool {
    exists|i: int| 0 <= i < list.len() && (#[trigger] list[i]).id == id
}

/// What is said of the microphones that were not there before.
pub open spec fn announcements(list: Seq<audio::Mic>, known: Seq<audio::Mic>) -> Seq<Act>
    decreases list.len(),
{
    if list.len() == 0 {
        Seq::empty()
    } else {
        let before = announcements(list.drop_last(), known);
        if has_mic(known, list.last().id) {
            before
        } else {
            before.push(
                Act::Ui(
                    engine::Signal::Notice(
                        "Microphone connected: "@ + list.last().display_text(),
                    ),
                ),
            )
        }
    }
}

/// The id of the first default microphone from the `i`th on.
pub open spec fn default_mic(list: Seq<audio::Mic>, i: nat) -> Option<Seq<char>>
    decreases list.len() - i,
{
    if i >= list.len() {
        None
    } else if list[i as int].is_default {
        Some(list[i as int].id)
    } else {
        default_mic(list, i + 1)
    }
}

/// A look at the microphones that there are. The chosen one is taken when it comes back after
/// being unplugged; otherwise the system default is followed.
pub open spec fn refreshed(d: Desk, list: Seq<audio::Mic>, announce: bool) -> (Desk, Seq<Act>) {
    if list == d.mics {
        (d, Seq::empty())
    } else {
        let said = if announce {
            announcements(list, d.mics)
        } else {
            Seq::empty()
        };
        let d1 = Desk { mics: list, ..d };
        let said = said.push(mics_signal(d1));
        let present = d.device is Some && has_mic(list, d.device->0);
        if present && d.request != d.device {
            let s = switched(d1, d.device);
            (s.0, said + s.1)
        } else if !present && d.stream is Some && Some(d.stream->0.id) != default_mic(list, 0) {
            let s = switched(d1, None);
            (s.0, said + s.1)
        } else {
            (d1, said)
        }
    }
}

// ---------------------------------------------------------------------------
// Code
// ---------------------------------------------------------------------------

fn copy_choice(s: &Option<String>) -> (r: Option<String>)
    ensures
        engine::chosen(r) == engine::chosen(*s),
{
    match s {
        Some(s) => Some(s.clone()),
        None => None,
    }
}

fn same_choice(a: &Option<String>, b: &Option<String>) -> (r: bool)
    ensures
        r == (engine::chosen(*a) == engine::chosen(*b)),
{
    match (a, b) {
        (Some(a), Some(b)) => same_text(a, b),
        (None, None) => true,
        _ => false,
    }
}

fn lists_mic(list: &[MicInfo], id: &str) -> (r: bool)
    ensures
        r == has_mic(audio::mics(list@), id@),
{
    let ghost ms = audio::mics(list@);
    let mut i: usize = 0;
    while i < list.len()
        invariant
            i <= list.len(),
            ms == audio::mics(list@),
            forall|j: int| 0 <= j < i ==> (#[trigger] ms[j]).id != id@,
        decreases list.len() - i,
    {
        if same_text(&list[i].id, id) {
            assert(ms[i as int].id == id@);
            return true;
        }
        i += 1;
    }
    false
}

fn find_default(list: &[MicInfo]) -> (r: Option<String>)
    ensures
        engine::chosen(r) == default_mic(audio::mics(list@), 0),
{
    let ghost ms = audio::mics(list@);
    let mut i: usize = 0;
    while i < list.len()
        invariant
            i <= list.len(),
            ms == audio::mics(list@),
            default_mic(ms, 0) == default_mic(ms, i as nat),
        decreases list.len() - i,
    {
        if list[i].is_default {
            return Some(list[i].id.clone());
        }
        i += 1;
    }
    None
}

fn announce_new(list: &[MicInfo], known: &[MicInfo], out: &mut Vec<Effect>)
    ensures
        acts(final(out)@) == acts(old(out)@) + announcements(
            audio::mics(list@),
            audio::mics(known@),
        ),
{
    let ghost before = acts(out@);
    let ghost ms = audio::mics(list@);
    let ghost ks = audio::mics(known@);
    let mut i: usize = 0;
    assert(before + announcements(ms.take(0), ks) =~= before);
    while i < list.len()
        invariant
            i <= list.len(),
            ms == audio::mics(list@),
            ks == audio::mics(known@),
            acts(out@) == before + announcements(ms.take(i as int), ks),
        decreases list.len() - i,
    {
        let ghost now = acts(out@);
        assert(ms.take(i + 1).drop_last() =~= ms.take(i as int));
        assert(ms.take(i + 1).last() == list@[i as int]@);
        if !lists_mic(known, &list[i].id) {
            out.push(
                Effect::Ui(UiEvent::Notice(concat("Microphone connected: ", &list[i].display()))),
            );
            assert(acts(out@) =~= now.push(out@.last()@));
        }
        assert(acts(out@) =~= before + announcements(ms.take(i + 1), ks));
        i += 1;
    }
    assert(ms.take(i as int) =~= ms);
}

/// What to do with audio that has arrived.
#[derive(Debug, Clone, Copy, PartialEq, Eq, Structural)]
pub struct Sounded {
    /// It is the first since dictation began: say that the microphone is live.
    pub live: bool,
    /// Pass it to phrase detection.
    pub feed: bool,
    /// Show its level.
    pub level: bool,
}

impl Control {
    pub closed spec fn config(self) -> Config {
        self.cfg
    }

    /// The settings are the same but for the chosen microphone and the models.
    pub open spec fn keeps_settings(a: Config, b: Config) -> bool {
        &&& b.typing == a.typing
        &&& b.tts == a.tts
        &&& b.hotkeys == a.hotkeys
        &&& b.overlay == a.overlay
        &&& b.audio.silence_ms == a.audio.silence_ms
        &&& b.audio.min_speech_ms == a.audio.min_speech_ms
        &&& b.audio.max_phrase_ms == a.audio.max_phrase_ms
        &&& b.audio.stream_interval_ms == a.audio.stream_interval_ms
    }

    pub fn new(cfg: Config) -> (r: Self)
        ensures
            r.config() == cfg,
            r@ == (Desk {
                device: engine::chosen(cfg.audio.device),
                previews: cfg.previews(),
                stream: None,
                request: None,
                opening: None,
                purpose: Purpose::Warm,
                listening: false,
                awaiting: false,
                push_to_talk: false,
                phrase_id: 0,
                mics: Seq::empty(),
            }),
    {
        let r = Control {
            cfg,
            stream: None,
            request: None,
            opening: None,
            purpose: Purpose::Warm,
            listening: false,
            awaiting_audio: false,
            push_to_talk: false,
            phrase_id: 0,
            mics: Vec::new(),
        };
        assert(r@.mics =~= Seq::empty());
        r
    }

    /// The settings as they now are.
    pub fn settings(&self) -> (r: &Config)
        ensures
            *r == self.config(),
    {
        &self.cfg
    }

    /// The number of the last phrase that was heard.
    pub fn phrase_id(&self) -> (r: u64)
        ensures
            r == self@.phrase_id,
    {
        self.phrase_id
    }

    fn do_stop(&mut self, out: &mut Vec<Effect>)
        ensures
            final(self).config() == old(self).config(),
            final(self)@ == stopped(old(self)@).0,
            acts(final(out)@) == acts(old(out)@) + stopped(old(self)@).1,
    {
        let ghost before = acts(out@);
        let ghost d = self@;
        if self.listening {
            if self.stream.is_some() {
                out.push(Effect::Pause);
            }
            out.push(Effect::TakeQueued);
            out.push(Effect::CloseEar);
        }
        self.listening = false;
        self.awaiting_audio = false;
        self.push_to_talk = false;
        out.push(Effect::SetListening(false));
        out.push(Effect::Ui(UiEvent::Listening(false)));
        out.push(Effect::Ui(UiEvent::Hearing(false)));
        out.push(Effect::Ui(UiEvent::Level(0)));
        assert(acts(out@) =~= before + stopped(d).1);
    }

    fn ensure_stream(
        &mut self,
        request: Option<String>,
        purpose: Purpose,
        failed: bool,
        out: &mut Vec<Effect>,
    )
        ensures
            final(self).config() == old(self).config(),
            final(self)@ == ensured(old(self)@, engine::chosen(request), purpose, failed).0,
            acts(final(out)@) == acts(old(out)@) + ensured(
                old(self)@,
                engine::chosen(request),
                purpose,
                failed,
            ).1,
    {
        let ghost before = acts(out@);
        let ghost e = ensured(self@, engine::chosen(request), purpose, failed);
        self.purpose = purpose;
        if self.stream.is_some() && !failed && same_choice(&self.request, &request) {
            out.push(Effect::Resume);
        } else {
            self.stream = None;
            self.opening = copy_choice(&request);
            out.push(Effect::Open(request));
        }
        assert(acts(out@) =~= before + e.1);
    }

    fn do_start(&mut self, request: Option<String>, failed: bool, out: &mut Vec<Effect>)
        ensures
            final(self).config() == old(self).config(),
            final(self)@ == started(old(self)@, engine::chosen(request), failed).0,
            acts(final(out)@) == acts(old(out)@) + started(
                old(self)@,
                engine::chosen(request),
                failed,
            ).1,
    {
        let ghost before = acts(out@);
        let ghost s = started(self@, engine::chosen(request), failed);
        if !self.listening {
            out.push(Effect::ResetTyping);
            out.push(Effect::FreshEar);
            out.push(Effect::Discard);
            assert(acts(out@) =~= before + seq![Act::ResetTyping, Act::FreshEar, Act::Discard]);
            self.ensure_stream(request, Purpose::Listen, failed, out);
        }
        assert(acts(out@) =~= before + s.1);
    }

    fn switch_mic(&mut self, request: Option<String>, out: &mut Vec<Effect>)
        ensures
            final(self).config() == old(self).config(),
            final(self)@ == switched(old(self)@, engine::chosen(request)).0,
            acts(final(out)@) == acts(old(out)@) + switched(old(self)@, engine::chosen(request)).1,
    {
        let ghost before = acts(out@);
        let ghost d = self@;
        let ghost s = switched(self@, engine::chosen(request));
        if self.listening {
            let held = self.push_to_talk;
            self.do_stop(out);
            self.stream = None;
            self.push_to_talk = held;
            let ghost stop = acts(out@);
            out.push(Effect::Close);
            assert(acts(out@) =~= stop.push(Act::Close));
            assert(acts(out@) =~= before + stopped(d).1.push(Act::Close));
            self.do_start(request, false, out);
        } else {
            self.stream = None;
            out.push(Effect::Close);
            assert(acts(out@) =~= before + seq![Act::Close]);
            self.ensure_stream(request, Purpose::Warm, false, out);
        }
        assert(acts(out@) =~= before + s.1);
    }

    fn send_mics(&self, out: &mut Vec<Effect>)
        ensures
            acts(final(out)@) == acts(old(out)@).push(mics_signal(self@)),
    {
        let ghost before = acts(out@);
        out.push(
            Effect::Ui(
                UiEvent::Mics {
                    list: copy_mics(&self.mics),
                    selected: copy_choice(&self.cfg.audio.device),
                },
            ),
        );
        assert(acts(out@) =~= before.push(mics_signal(self@)));
    }

    /// Makes a microphone ready in the background, so that the first dictation starts quickly.
    pub fn prewarm(&mut self, failed: bool) -> (r: Vec<Effect>)
        ensures
            final(self).config() == old(self).config(),
            final(self)@ == ensured(old(self)@, old(self)@.device, Purpose::Warm, failed).0,
            acts(r@) == ensured(old(self)@, old(self)@.device, Purpose::Warm, failed).1,
    {
        let mut out: Vec<Effect> = Vec::new();
        let device = copy_choice(&self.cfg.audio.device);
        let ghost before = acts(out@);
        let ghost e = ensured(self@, self@.device, Purpose::Warm, failed);
        self.ensure_stream(device, Purpose::Warm, failed, &mut out);
        assert(before + e.1 =~= e.1);
        out
    }

    /// Carries out a command.
    pub fn command(&mut self, cmd: engine::Cmd, failed: bool, last_text: &str) -> (r: Vec<Effect>)
        ensures
            final(self)@ == commanded(old(self)@, cmd@, failed, last_text@).0,
            acts(r@) == commanded(old(self)@, cmd@, failed, last_text@).1,
            Control::keeps_settings(old(self).config(), final(self).config()),
            match cmd {
                engine::Cmd::SelectDevice(id) => {
                    &&& final(self).config().audio.device == id
                    &&& final(self).config().stt == old(self).config().stt
                },
                engine::Cmd::SetAccuracy(a) => {
                    &&& final(self).config().audio == old(self).config().audio
                    &&& Accuracy::mode_of(final(self).config().stt) == a
                    &&& Accuracy::switched(old(self).config().stt, final(self).config().stt)
                },
                _ => final(self).config() == old(self).config(),
            },
    {
        let mut out: Vec<Effect> = Vec::new();
        let ghost c = commanded(self@, cmd@, failed, last_text@);
        let ghost d = self@;
        let ghost none = acts(out@);
        assert(none =~= Seq::empty());
        let device = copy_choice(&self.cfg.audio.device);
        match cmd {
            engine::Cmd::Toggle => if self.listening {
                self.do_stop(&mut out);
            } else {
                self.do_start(device, failed, &mut out);
            },
            engine::Cmd::Start => self.do_start(device, failed, &mut out),
            engine::Cmd::Stop => self.do_stop(&mut out),
            engine::Cmd::PushToTalkDown => if !self.listening {
                self.push_to_talk = true;
                self.do_start(device, failed, &mut out);
            },
            engine::Cmd::PushToTalkUp => if self.push_to_talk {
                self.do_stop(&mut out);
            },
            engine::Cmd::SelectDevice(id) => {
                let request = copy_choice(&id);
                self.cfg.audio.device = id;
                out.push(Effect::Save);
                assert(acts(out@) =~= seq![Act::Save]);
                let ghost s = switched(Desk { device: engine::chosen(id), ..d }, engine::chosen(id));
                self.switch_mic(request, &mut out);
                assert(acts(out@) == seq![Act::Save] + s.1);
                self.send_mics(&mut out);
            },
            engine::Cmd::SetAccuracy(a) => {
                a.apply(&mut self.cfg.stt);
                out.push(Effect::Save);
                out.push(Effect::Models(a));
            },
            engine::Cmd::Speak(text) => {
                out.push(Effect::Silence);
                out.push(Effect::Speak(text));
            },
            engine::Cmd::SpeakLast => {
                out.push(Effect::Silence);
                out.push(
                    Effect::Speak(
                        if last_text.is_empty() {
                            "Nothing has been dictated yet.".to_owned()
                        } else {
                            last_text.to_owned()
                        },
                    ),
                );
            },
            engine::Cmd::StopSpeaking => out.push(Effect::Silence),
        }
        assert(none + c.1 =~= c.1);
        assert(acts(out@) =~= c.1);
        out
    }

    /// Takes the outcome of `Effect::Open`.
    pub fn opened(&mut self, result: Result<OpenMic, String>) -> (r: Vec<Effect>)
        ensures
            final(self).config() == old(self).config(),
            ({
                let o = opening_done(
                    old(self)@,
                    match result {
                        Ok(m) => Ok(m@),
                        Err(e) => Err(e@),
                    },
                );
                &&& final(self)@ == o.0
                &&& acts(r@) == o.1
            }),
    {
        let mut out: Vec<Effect> = Vec::new();
        let ghost d = self@;
        match result {
            Ok(m) => {
                let ghost o = opening_done(d, Ok(m@));
                self.stream = Some(m);
                self.request = copy_choice(&self.opening);
                out.push(Effect::Resume);
                assert(acts(out@) =~= o.1);
            },
            Err(why) => {
                let ghost o = refused(d, why@);
                self.refuse(&why, &mut out);
                assert(acts(out@) =~= o.1);
            },
        }
        out
    }

    fn refuse(&mut self, why: &str, out: &mut Vec<Effect>)
        ensures
            final(self).config() == old(self).config(),
            final(self)@ == refused(old(self)@, why@).0,
            acts(final(out)@) == acts(old(out)@) + refused(old(self)@, why@).1,
    {
        let ghost before = acts(out@);
        let ghost r = refused(self@, why@);
        match self.purpose {
            Purpose::Listen => {
                self.push_to_talk = false;
                out.push(
                    Effect::Ui(UiEvent::Error(concat("Could not open the microphone: ", why))),
                );
            },
            Purpose::Warm => out.push(Effect::Discard),
        }
        assert(acts(out@) =~= before + r.1);
    }

    /// Takes the outcome of `Effect::Resume`.
    pub fn resumed(&mut self, result: Result<(), String>) -> (r: Vec<Effect>)
        ensures
            final(self).config() == old(self).config(),
            ({
                let o = resuming_done(
                    old(self)@,
                    match result {
                        Ok(_) => Ok(()),
                        Err(e) => Err(e@),
                    },
                );
                &&& final(self)@ == o.0
                &&& acts(r@) == o.1
            }),
    {
        let mut out: Vec<Effect> = Vec::new();
        let ghost d = self@;
        match result {
            Ok(_) => {
                let ghost o = resuming_done(d, Ok(()));
                match self.purpose {
                    Purpose::Listen => {
                        self.listening = true;
                        self.awaiting_audio = true;
                        out.push(Effect::SetListening(true));
                        out.push(Effect::Ui(UiEvent::Listening(true)));
                    },
                    Purpose::Warm => {
                        out.push(Effect::Pause);
                        out.push(Effect::Discard);
                    },
                }
                assert(acts(out@) =~= o.1);
            },
            Err(why) => {
                let ghost o = refused(d, why@);
                self.refuse(&why, &mut out);
                assert(acts(out@) =~= o.1);
            },
        }
        out
    }

    /// Looks whether the microphone vanished mid-stream.
    pub fn check_stream(&mut self, failed: bool) -> (r: Vec<Effect>)
        ensures
            final(self).config() == old(self).config(),
            final(self)@ == checked(old(self)@, failed).0,
            acts(r@) == checked(old(self)@, failed).1,
    {
        let mut out: Vec<Effect> = Vec::new();
        let ghost d = self@;
        let ghost c = checked(d, failed);
        if failed {
            if let Some(lost) = self.stream.take() {
                out.push(Effect::Close);
                if self.listening {
                    out.push(
                        Effect::Ui(
                            UiEvent::Notice(
                                concat(
                                    &lost.name,
                                    " disconnected — switching to the system default microphone",
                                ),
                            ),
                        ),
                    );
                    assert(acts(out@) =~= c.1.take(2));
                    self.switch_mic(None, &mut out);
                    assert(acts(out@) =~= c.1);
                }
            }
        }
        assert(acts(out@) =~= c.1);
        out
    }

    /// Takes the list of microphones that there now are.
    pub fn refresh_mics(&mut self, list: Vec<MicInfo>, announce: bool) -> (r: Vec<Effect>)
        ensures
            final(self).config() == old(self).config(),
            final(self)@ == refreshed(old(self)@, audio::mics(list@), announce).0,
            acts(r@) == refreshed(old(self)@, audio::mics(list@), announce).1,
    {
        let mut out: Vec<Effect> = Vec::new();
        let ghost d = self@;
        let ghost ms = audio::mics(list@);
        let ghost c = refreshed(d, ms, announce);
        let ghost none = acts(out@);
        assert(none =~= Seq::empty());
        if same_mics(&list, &self.mics) {
            return out;
        }
        if announce {
            announce_new(&list, &self.mics, &mut out);
            assert(none + announcements(ms, d.mics) =~= announcements(ms, d.mics));
        }
        let present = match &self.cfg.audio.device {
            Some(p) => lists_mic(&list, p),
            None => false,
        };
        let default_id = find_default(&list);
        let current = match &self.stream {
            Some(m) => Some(m.id.clone()),
            None => None,
        };
        self.mics = list;
        self.send_mics(&mut out);
        let ghost said = acts(out@);
        if present && !same_choice(&self.request, &self.cfg.audio.device) {
            let device = copy_choice(&self.cfg.audio.device);
            self.switch_mic(device, &mut out);
        } else if !present && current.is_some() && !same_choice(&current, &default_id) {
            self.switch_mic(None, &mut out);
        } else {
            assert(said =~= c.1);
        }
        out
    }

    /// Audio has arrived. It is not transcribed while we speak ourselves, which would be heard
    /// through the microphone. The level is shown every 50 ms.
    pub fn audio(&mut self, speaking: bool, ms_since_level: u64) -> (r: Sounded)
        ensures
            final(self).config() == old(self).config(),
            final(self)@ == (Desk { awaiting: old(self)@.awaiting && !old(self)@.listening, ..old(
                self,
            )@ }),
            r.live == (old(self)@.listening && old(self)@.awaiting),
            r.feed == (old(self)@.listening && !speaking),
            r.level == (old(self)@.listening && !speaking && ms_since_level >= 50),
    {
        if !self.listening {
            return Sounded { live: false, feed: false, level: false };
        }
        let live = self.awaiting_audio;
        self.awaiting_audio = false;
        Sounded { live, feed: !speaking, level: !speaking && ms_since_level >= 50 }
    }

    /// Phrase detection has something to say. Returns what the overlay is told and the work for
    /// the transcriber, to be handed on in this order.
    pub fn heard<S>(&mut self, event: VadEvent<S>) -> (r: (Vec<UiEvent>, Option<SttJob<S>>))
        requires
            event is SpeechStarted ==> old(self)@.phrase_id < u64::MAX,
        ensures
            final(self).config() == old(self).config(),
            match event {
                VadEvent::SpeechStarted => {
                    &&& final(self)@ == (Desk {
                        phrase_id: (old(self)@.phrase_id + 1) as u64,
                        ..old(self)@
                    })
                    &&& signals(r.0@) == seq![engine::Signal::Hearing(true)]
                    &&& r.1 is None
                },
                VadEvent::Partial(clip) => {
                    &&& final(self)@ == old(self)@
                    &&& signals(r.0@) == Seq::<engine::Signal>::empty()
                    &&& r.1 == if old(self)@.previews {
                        Some(SttJob::Partial(old(self)@.phrase_id, clip))
                    } else {
                        None
                    }
                },
                VadEvent::Phrase(clip) => {
                    &&& final(self)@ == old(self)@
                    &&& signals(r.0@) == seq![
                        engine::Signal::Hearing(false),
                        engine::Signal::Transcribing(true),
                    ]
                    &&& r.1 == Some(SttJob::Final(old(self)@.phrase_id, clip))
                },
            },
    {
        let mut said: Vec<UiEvent> = Vec::new();
        match event {
            VadEvent::SpeechStarted => {
                self.phrase_id += 1;
                said.push(UiEvent::Hearing(true));
                assert(signals(said@) =~= seq![engine::Signal::Hearing(true)]);
                (said, None)
            },
            VadEvent::Partial(clip) => {
                assert(signals(said@) =~= Seq::empty());
                if self.cfg.stt.live_preview || self.cfg.typing_live() {
                    (said, Some(SttJob::Partial(self.phrase_id, clip)))
                } else {
                    (said, None)
                }
            },
            VadEvent::Phrase(clip) => {
                said.push(UiEvent::Hearing(false));
                said.push(UiEvent::Transcribing(true));
                assert(signals(said@) =~= seq![
                    engine::Signal::Hearing(false),
                    engine::Signal::Transcribing(true),
                ]);
                (said, Some(SttJob::Final(self.phrase_id, clip)))
            },
        }
    }
}

pub open spec fn signals(events: Seq<UiEvent>) -> Seq<engine::Signal> {
    events.map_values(|e: UiEvent| e@)
}

// ---------------------------------------------------------------------------
// Laws
// ---------------------------------------------------------------------------

/// There is a microphone whenever dictation is on, and audio is only waited for then.
pub open spec fn sound(d: Desk) -> bool {
    &&& d.listening ==> d.stream is Some
    &&& d.awaiting ==> d.listening
}

/// Nothing that happens breaks that there is a microphone whenever dictation is on; `resumed` is
/// only told of an open one.
pub proof fn law_listening_needs_a_microphone(
    d: Desk,
    order: engine::Order,
    failed: bool,
    last_text: Seq<char>,
    list: Seq<audio::Mic>,
    announce: bool,
    open: Result<Mike, Seq<char>>,
    resume: Result<(), Seq<char>>,
)
    requires
        sound(d),
    ensures
        sound(commanded(d, order, failed, last_text).0),
        sound(checked(d, failed).0),
        sound(refreshed(d, list, announce).0),
        sound(opening_done(d, open).0),
        d.stream is Some ==> sound(resuming_done(d, resume).0),
{
}

/// Toggling turns dictation off when it is on, and on, once the microphone runs, when it is off.
pub proof fn law_toggle_toggles(d: Desk, failed: bool, last_text: Seq<char>)
    ensures
        ({
            let t = commanded(d, engine::Order::Toggle, failed, last_text).0;
            if d.listening {
                !t.listening
            } else {
                forall|m: Mike|
                    #![trigger opening_done(t, Ok(m))]
                    resuming_done(opening_done(t, Ok(m)).0, Ok(())).0.listening
                        && resuming_done(t, Ok(())).0.listening
            }
        }),
{
}

/// Holding the push-to-talk key dictates, and releasing it stops.
pub proof fn law_push_to_talk_holds(d: Desk, failed: bool, m: Mike, text: Seq<char>)
    requires
        !d.listening,
    ensures
        ({
            let down = commanded(d, engine::Order::PushToTalkDown, failed, text).0;
            let opened = if down.stream is Some {
                down
            } else {
                opening_done(down, Ok(m)).0
            };
            let on = resuming_done(opened, Ok(())).0;
            &&& on.listening
            &&& on.push_to_talk
            &&& !commanded(on, engine::Order::PushToTalkUp, failed, text).0.listening
        }),
{
}

/// Pressing and releasing the push-to-talk key leaves dictation alone that was turned on otherwise.
pub proof fn law_push_to_talk_leaves_dictation_alone(d: Desk, failed: bool, text: Seq<char>)
    requires
        d.listening,
        !d.push_to_talk,
    ensures
        ({
            let down = commanded(d, engine::Order::PushToTalkDown, failed, text);
            let up = commanded(down.0, engine::Order::PushToTalkUp, failed, text);
            &&& down == (d, Seq::<Act>::empty())
            &&& up == (d, Seq::<Act>::empty())
        }),
{
}

/// Whatever was delivered before dictation stops is taken, and its phrase closed, before anyone
/// is told that it stopped.
pub proof fn law_stopping_takes_the_last_words(d: Desk, i: int)
    requires
        d.listening,
        0 <= i < stopped(d).1.len(),
        stopped(d).1[i] == Act::SetListening(false) || stopped(d).1[i] == Act::Ui(
            engine::Signal::Listening(false),
        ),
    ensures
        exists|j: int|
            0 <= j && j + 1 < i && #[trigger] stopped(d).1[j] == Act::TakeQueued && stopped(
                d,
            ).1[j + 1] == Act::CloseEar,
{
    let j = if d.stream is Some {
        1int
    } else {
        0
    };
    assert(stopped(d).1[j] == Act::TakeQueued);
    assert(stopped(d).1[j + 1] == Act::CloseEar);
}

/// The dictation that `d` had carries on with another microphone.
pub open spec fn carries_on(
    d: Desk,
    after: (Desk, Seq<Act>),
    request: Option<Seq<char>>,
    m: Mike,
) -> bool {
    let opened = opening_done(after.0, Ok(m));
    let on = resuming_done(opened.0, Ok(()));
    &&& after.1.last() == Act::Open(request)
    &&& opened.1 == seq![Act::Resume]
    &&& on.0.listening
    &&& on.0.push_to_talk == d.push_to_talk
    &&& on.0.request == request
    &&& on.0.stream == Some(m)
    &&& on.0.phrase_id == d.phrase_id
}

/// A microphone unplugged in the middle of dictation is replaced by the system default, and
/// dictation carries on.
pub proof fn law_unplugged_microphones_are_replaced(d: Desk, m: Mike)
    requires
        d.listening,
        d.stream is Some,
    ensures
        carries_on(d, checked(d, true), None, m),
{
}

/// The chosen microphone, when it comes back, is taken again, and dictation carries on.
pub proof fn law_the_chosen_microphone_is_taken_back(
    d: Desk,
    list: Seq<audio::Mic>,
    announce: bool,
    m: Mike,
)
    requires
        d.listening,
        list != d.mics,
        d.device is Some,
        has_mic(list, d.device->0),
        d.request != d.device,
    ensures
        carries_on(d, refreshed(d, list, announce), d.device, m),
{
}

/// While no microphone is chosen, or the chosen one is missing, dictation follows the system
/// default to another microphone.
pub proof fn law_the_system_default_is_followed(
    d: Desk,
    list: Seq<audio::Mic>,
    announce: bool,
    m: Mike,
)
    requires
        d.listening,
        d.stream is Some,
        list != d.mics,
        d.device matches Some(id) ==> !has_mic(list, id),
        Some(d.stream->0.id) != default_mic(list, 0),
    ensures
        carries_on(d, refreshed(d, list, announce), None, m),
{
}

/// Every microphone that was not there before is announced, and no other.
pub proof fn law_new_microphones_are_announced(
    list: Seq<audio::Mic>,
    known: Seq<audio::Mic>,
    text: Seq<char>,
)
    ensures
        announcements(list, known).contains(Act::Ui(engine::Signal::Notice(text))) <==> exists|
            i: int,
        |
            0 <= i < list.len() && !has_mic(known, (#[trigger] list[i]).id) && text
                == "Microphone connected: "@ + list[i].display_text(),
    decreases list.len(),
{
    if list.len() > 0 {
        let rest = list.drop_last();
        let before = announcements(rest, known);
        let now = announcements(list, known);
        let act = Act::Ui(engine::Signal::Notice(text));
        law_new_microphones_are_announced(rest, known, text);
        if now.contains(act) {
            let k = now.index_of(act);
            if k < before.len() {
                assert(before[k] == act);
                let i = choose|i: int|
                    0 <= i < rest.len() && !has_mic(known, (#[trigger] rest[i]).id) && text
                        == "Microphone connected: "@ + rest[i].display_text();
                assert(list[i] == rest[i]);
            } else {
                assert(list[list.len() - 1] == list.last());
            }
        }
        if exists|i: int|
            0 <= i < list.len() && !has_mic(known, (#[trigger] list[i]).id) && text
                == "Microphone connected: "@ + list[i].display_text() {
            let i = choose|i: int|
                0 <= i < list.len() && !has_mic(known, (#[trigger] list[i]).id) && text
                    == "Microphone connected: "@ + list[i].display_text();
            if i < rest.len() {
                assert(rest[i] == list[i]);
                let k = before.index_of(act);
                assert(now[k] == act);
            } else {
                assert(now[now.len() - 1] == act);
            }
        }
    }
}

/// However dictation is turned on, it runs on the microphone that the settings choose: the open one
/// if it was opened for that and is sound, and otherwise one opened for it. What was typed, heard
/// or waiting before is forgotten first.
pub proof fn law_dictation_starts_on_the_chosen_microphone(
    d: Desk,
    order: engine::Order,
    failed: bool,
    text: Seq<char>,
    m: Mike,
)
    requires
        !d.listening,
        order is Toggle || order is Start || order is PushToTalkDown,
    ensures
        ({
            let c = commanded(d, order, failed, text);
            let warm = d.stream is Some && !failed && d.request == d.device;
            let ready = if warm {
                c.0
            } else {
                opening_done(c.0, Ok(m)).0
            };
            let on = resuming_done(ready, Ok(()));
            &&& c.1.len() == 4
            &&& c.1[0] is ResetTyping && c.1[1] is FreshEar && c.1[2] is Discard
            &&& warm ==> c.1[3] is Resume
            &&& !warm ==> c.1[3] == Act::Open(d.device)
            &&& !warm ==> opening_done(c.0, Ok(m)).1 == seq![Act::Resume]
            &&& on.1 == seq![Act::SetListening(true), Act::Ui(engine::Signal::Listening(true))]
            &&& on.0.listening && on.0.awaiting
            &&& on.0.request == d.device && on.0.device == d.device
            &&& on.0.stream == (if warm {
                d.stream
            } else {
                Some(m)
            })
            &&& on.0.push_to_talk == (order is PushToTalkDown || d.push_to_talk)
            &&& on.0.mics == d.mics && on.0.phrase_id == d.phrase_id && on.0.previews == d.previews
            &&& !c.0.listening
        }),
{
}

/// Dictation that is on is not started again.
pub proof fn law_dictation_starts_once(d: Desk, failed: bool, text: Seq<char>)
    requires
        d.listening,
    ensures
        commanded(d, engine::Order::Start, failed, text) == (d, Seq::<Act>::empty()),
        commanded(d, engine::Order::PushToTalkDown, failed, text) == (d, Seq::<Act>::empty()),
{
}

/// However dictation is turned off, the microphone is paused, the last words are taken, and the
/// overlay shows silence; the microphone stays open for the next time.
pub proof fn law_stopping_is_complete(d: Desk, order: engine::Order, failed: bool, text: Seq<char>)
    requires
        order is Stop || (order is Toggle && d.listening) || (order is PushToTalkUp
            && d.push_to_talk),
    ensures
        ({
            let c = commanded(d, order, failed, text);
            let told = seq![
                Act::SetListening(false),
                Act::Ui(engine::Signal::Listening(false)),
                Act::Ui(engine::Signal::Hearing(false)),
                Act::Ui(engine::Signal::Level(0)),
            ];
            &&& c.0 == (Desk { listening: false, awaiting: false, push_to_talk: false, ..d })
            &&& d.listening && d.stream is Some ==> c.1 == seq![
                Act::Pause,
                Act::TakeQueued,
                Act::CloseEar,
            ] + told
            &&& d.listening && d.stream is None ==> c.1 == seq![Act::TakeQueued, Act::CloseEar]
                + told
            &&& !d.listening ==> c.1 == told
        }),
{
    let told = seq![
        Act::SetListening(false),
        Act::Ui(engine::Signal::Listening(false)),
        Act::Ui(engine::Signal::Hearing(false)),
        Act::Ui(engine::Signal::Level(0)),
    ];
    if d.listening && d.stream is Some {
        assert(stopped(d).1 =~= seq![Act::Pause, Act::TakeQueued, Act::CloseEar] + told);
    } else if d.listening {
        assert(stopped(d).1 =~= seq![Act::TakeQueued, Act::CloseEar] + told);
    } else {
        assert(stopped(d).1 =~= told);
    }
}

/// Letting go of the push-to-talk key does nothing where it did not start dictation.
pub proof fn law_releasing_stops_only_push_to_talk(d: Desk, failed: bool, text: Seq<char>)
    requires
        !d.push_to_talk,
    ensures
        commanded(d, engine::Order::PushToTalkUp, failed, text) == (d, Seq::<Act>::empty()),
{
}

/// Where a microphone cannot be had, dictation does not start and the reason is shown; while only
/// warming up, nothing is said.
pub proof fn law_a_missing_microphone_is_reported(d: Desk, why: Seq<char>)
    ensures
        ({
            let said = seq![
                Act::Ui(engine::Signal::Error("Could not open the microphone: "@ + why)),
            ];
            let off = Desk { push_to_talk: false, ..d };
            &&& d.purpose is Listen ==> opening_done(d, Err(why)) == (off, said)
            &&& d.purpose is Listen ==> resuming_done(d, Err(why)) == (off, said)
            &&& d.purpose is Warm ==> opening_done(d, Err(why)) == (d, seq![Act::Discard])
            &&& d.purpose is Warm ==> resuming_done(d, Err(why)) == (d, seq![Act::Discard])
        }),
{
}

/// A microphone that was opened is kept as what it was opened for; one that is only warmed up is
/// paused at once, and dictation stays off.
pub proof fn law_warm_microphones_are_paused(d: Desk, m: Mike)
    ensures
        opening_done(d, Ok(m)).0 == (Desk { stream: Some(m), request: d.opening, ..d }),
        opening_done(d, Ok(m)).1 == seq![Act::Resume],
        d.purpose is Warm ==> resuming_done(d, Ok(())) == (d, seq![Act::Pause, Act::Discard]),
        d.purpose is Listen ==> resuming_done(d, Ok(())).0 == (Desk {
            listening: true,
            awaiting: true,
            ..d
        }),
{
}

/// A microphone is only opened anew where the open one has gone or was opened for another choice.
pub proof fn law_a_sound_microphone_is_used_again(
    d: Desk,
    request: Option<Seq<char>>,
    purpose: Purpose,
    failed: bool,
)
    ensures
        ({
            let e = ensured(d, request, purpose, failed);
            &&& d.stream is Some && !failed && d.request == request ==> e == (
                Desk { purpose, ..d },
                seq![Act::Resume],
            )
            &&& d.stream is None || failed || d.request != request ==> e == (
                Desk { stream: None, opening: request, purpose, ..d },
                seq![Act::Open(request)],
            )
        }),
{
}

/// Choosing a microphone saves the choice, closes the present one, opens the chosen one, and shows
/// it as selected; dictation that was on carries on with it.
pub proof fn law_choosing_a_microphone_takes_it(
    d: Desk,
    id: Option<Seq<char>>,
    failed: bool,
    text: Seq<char>,
    m: Mike,
)
    ensures
        ({
            let c = commanded(d, engine::Order::SelectDevice(id), failed, text);
            let n = c.1.len() as int;
            let opened = opening_done(c.0, Ok(m));
            let on = resuming_done(opened.0, Ok(()));
            &&& n >= 4
            &&& c.1[0] is Save
            &&& c.1[n - 2] == Act::Open(id)
            &&& c.1[n - 1] == Act::Ui(engine::Signal::Mics { list: d.mics, selected: id })
            &&& c.0.device == id && on.0.device == id && on.0.request == id
            &&& on.0.stream == Some(m)
            &&& on.0.listening == d.listening
            &&& d.listening ==> on.0.push_to_talk == d.push_to_talk
            &&& !d.listening ==> n == 4 && c.1[1] is Close
            &&& d.listening ==> c.1[n - 6] is Close && c.1[n - 5] is ResetTyping && c.1[n - 4]
                is FreshEar
                && c.1[n - 3] is Discard
            &&& c.0.mics == d.mics && c.0.phrase_id == d.phrase_id
        }),
{
}

/// The other commands leave dictation as it is: a change of the models is saved and made, a text is
/// read aloud in place of what is being read, the last dictated one where none is given, and
/// reading is stopped.
pub proof fn law_other_commands_leave_dictation_alone(
    d: Desk,
    a: Accuracy,
    t: Seq<char>,
    failed: bool,
    last: Seq<char>,
)
    ensures
        commanded(d, engine::Order::SetAccuracy(a), failed, last) == (
            d,
            seq![Act::Save, Act::Models(a)],
        ),
        commanded(d, engine::Order::Speak(t), failed, last) == (
            d,
            seq![Act::Silence, Act::Speak(t)],
        ),
        last.len() > 0 ==> commanded(d, engine::Order::SpeakLast, failed, last) == (
            d,
            seq![Act::Silence, Act::Speak(last)],
        ),
        last.len() == 0 ==> commanded(d, engine::Order::SpeakLast, failed, last) == (
            d,
            seq![Act::Silence, Act::Speak("Nothing has been dictated yet."@)],
        ),
        commanded(d, engine::Order::StopSpeaking, failed, last) == (d, seq![Act::Silence]),
{
}

/// A microphone that is there is left alone; one that has gone is closed, and in the middle of
/// dictation its name is shown.
pub proof fn law_lost_microphones_are_closed(d: Desk, failed: bool)
    ensures
        d.stream is None || !failed ==> checked(d, failed) == (d, Seq::<Act>::empty()),
        d.stream is Some && failed && !d.listening ==> checked(d, failed) == (
            Desk { stream: None, ..d },
            seq![Act::Close],
        ),
        d.stream is Some && failed && d.listening ==> {
            let c = checked(d, failed);
            &&& c.1.len() > 2
            &&& c.1[0] is Close
            &&& c.1[1] == Act::Ui(
                engine::Signal::Notice(
                    d.stream->0.name
                        + " disconnected — switching to the system default microphone"@,
                ),
            )
            &&& c.0.device == d.device && c.0.mics == d.mics
        },
{
}

/// The list of microphones is shown when it has changed, after any announcements; the microphone
/// is only changed for the chosen one that came back, or for another system default.
pub proof fn law_the_list_of_microphones_is_shown(
    d: Desk,
    list: Seq<audio::Mic>,
    announce: bool,
)
    ensures
        list == d.mics ==> refreshed(d, list, announce) == (d, Seq::<Act>::empty()),
        list != d.mics ==> {
            let r = refreshed(d, list, announce);
            let said = if announce {
                announcements(list, d.mics).len() as int
            } else {
                0
            };
            let present = d.device is Some && has_mic(list, d.device->0);
            let back = present && d.request != d.device;
            let moved = !present && d.stream is Some && Some(d.stream->0.id) != default_mic(
                list,
                0,
            );
            let target = if back {
                d.device
            } else {
                None
            };
            &&& r.1.len() > said
            &&& r.1[said] == Act::Ui(engine::Signal::Mics { list, selected: d.device })
            &&& announce ==> r.1.take(said) == announcements(list, d.mics)
            &&& r.0.mics == list && r.0.device == d.device
            &&& !back && !moved ==> r == (Desk { mics: list, ..d }, r.1) && r.1.len() == said + 1
            &&& (back || moved) && !d.listening ==> r.1.len() == said + 3 && r.1[said + 1] is Close
                && r.1[said + 2] == Act::Open(target) && r.0.purpose is Warm && r.0.opening
                == target
                && r.0.stream is None
        },
{
    if list != d.mics {
        let r = refreshed(d, list, announce);
        let news = announcements(list, d.mics);
        if announce {
            assert(r.1.take(news.len() as int) =~= news);
        }
    }
}

/// The system default is the first microphone that is marked as such.
pub proof fn law_the_first_default_counts(list: Seq<audio::Mic>, i: nat, k: int)
    requires
        i <= k < list.len(),
        list[k].is_default,
        forall|j: int| i <= j < k ==> !(#[trigger] list[j]).is_default,
    ensures
        default_mic(list, i) == Some(list[k].id),
    decreases k - i,
{
    if i < k {
        assert(!list[i as int].is_default);
        law_the_first_default_counts(list, i + 1, k);
    }
}

/// Without a microphone that is marked as the default there is none.
pub proof fn law_no_default_without_a_mark(list: Seq<audio::Mic>, i: nat)
    requires
        forall|j: int| i <= j < list.len() ==> !(#[trigger] list[j]).is_default,
    ensures
        default_mic(list, i) is None,
    decreases list.len() - i,
{
    if i < list.len() {
        assert(!list[i as int].is_default);
        law_no_default_without_a_mark(list, i + 1);
    }
}

/// New microphones are announced in the order of the list, each once.
pub proof fn law_announcements_are_in_order(
    list: Seq<audio::Mic>,
    m: audio::Mic,
    known: Seq<audio::Mic>,
)
    ensures
        announcements(Seq::empty(), known).len() == 0,
        has_mic(known, m.id) ==> announcements(list.push(m), known) == announcements(list, known),
        !has_mic(known, m.id) ==> announcements(list.push(m), known) == announcements(
            list,
            known,
        ).push(Act::Ui(engine::Signal::Notice("Microphone connected: "@ + m.display_text()))),
{
    assert(list.push(m).drop_last() =~= list);
}

/// What is to be done is what is said: effects keep their order, and each its text or its choice.
pub proof fn law_effects_keep_what_they_say(
    effects: Seq<Effect>,
    i: int,
    t: String,
    device: Option<String>,
    on: bool,
    a: Accuracy,
    e: UiEvent,
)
    ensures
        acts(effects).len() == effects.len(),
        0 <= i < effects.len() ==> acts(effects)[i] == effects[i]@,
        Effect::Ui(e)@ == Act::Ui(e@),
        Effect::Speak(t)@ == Act::Speak(t@),
        Effect::SetListening(on)@ == Act::SetListening(on),
        Effect::Models(a)@ == Act::Models(a),
        device is None ==> Effect::Open(device)@ == Act::Open(None),
        device is Some ==> Effect::Open(device)@ == Act::Open(Some(device->0@)),
        Effect::ResetTyping@ is ResetTyping && Effect::FreshEar@ is FreshEar,
        Effect::Discard@ is Discard && Effect::TakeQueued@ is TakeQueued,
        Effect::CloseEar@ is CloseEar && Effect::Pause@ is Pause && Effect::Close@ is Close,
        Effect::Resume@ is Resume && Effect::Save@ is Save && Effect::Silence@ is Silence,
{
}

/// A command that changes a setting leaves the others as they are.
pub proof fn law_other_settings_are_kept(a: Config, b: Config)
    requires
        Control::keeps_settings(a, b),
    ensures
        a.typing == b.typing && a.tts == b.tts && a.hotkeys == b.hotkeys && a.overlay == b.overlay,
        a.audio.silence_ms == b.audio.silence_ms && a.audio.min_speech_ms == b.audio.min_speech_ms,
        a.audio.max_phrase_ms == b.audio.max_phrase_ms,
        a.audio.stream_interval_ms == b.audio.stream_interval_ms,
{
}

/// A microphone is on the list exactly when one with its id is.
pub proof fn law_microphones_are_told_by_their_id(list: Seq<audio::Mic>, id: Seq<char>, i: int)
    ensures
        0 <= i < list.len() && list[i].id == id ==> has_mic(list, id),
        has_mic(list, id) ==> exists|k: int| 0 <= k < list.len() && (#[trigger] list[k]).id == id,
{
}

/// Words are transcribed while they are spoken where they are shown or typed live.
pub proof fn law_previews_are_shown_or_typed(c: Config)
    ensures
        c.previews() <==> c.stt.live_preview || c.types_live(),
{
}

} // verus!
