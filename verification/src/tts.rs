//! Text-to-speech.
//!
//! Speech is synthesised by another program: Piper (natural neural voices) when one is installed
//! with a voice, espeak-ng otherwise. Here is decided which one, how it is called, and how its
//! audio is read.

use vstd::prelude::*;

use crate::audio;
use crate::config::TtsConfig;
use crate::paths;
use crate::paths::{file_stem, join_path};
use crate::text;
use crate::text::{
    concat, concat3, from_chars, numeral_chars, same_text, split_chars, to_chars, trimmed,
};

verus! {

// ---------------------------------------------------------------------------
// Which engine
// ---------------------------------------------------------------------------

/// Where a program may lie, in the order of the search path.
pub open spec fn places(path: Seq<char>, name: Seq<char>) -> Seq<Seq<char>> {
    text::split_at(path, ':').map_values(|dir: Seq<char>| paths::below(dir, name))
}

pub open spec fn string_views(v: Seq<String>) -> Seq<Seq<char>> {
    v.map_values(|s: String| s@)
}

/// The files to look for, given `PATH`; the first that exists is the program.
pub fn search_path(path: &str, name: &str) -> (r: Vec<String>)
    ensures
        string_views(r@) == places(path@, name@),
{
    let dirs = split_chars(&to_chars(path), ':');
    let ghost all = places(path@, name@);
    let mut out: Vec<String> = Vec::new();
    let mut i: usize = 0;
    assert(all.len() == text::texts(dirs@).len());
    while i < dirs.len()
        invariant
            i <= dirs.len(),
            all == places(path@, name@),
            all.len() == dirs@.len(),
            text::texts(dirs@) == text::split_at(path@, ':'),
            string_views(out@) =~= all.take(i as int),
        decreases dirs.len() - i,
    {
        let ghost before = out@;
        assert(text::texts(dirs@)[i as int] == dirs@[i as int]@);
        out.push(join_path(&from_chars(&dirs[i]), name));
        assert(string_views(out@) =~= string_views(before).push(all[i as int]));
        i += 1;
    }
    assert(all.take(i as int) =~= all);
    out
}

/// What the settings and what is installed come to.
#[derive(Debug)]
pub enum Choice {
    /// Piper, with this voice.
    Piper { bin: String, model: String },
    /// espeak-ng, if it is there.
    Espeak,
    /// Piper is asked for but not all there.
    Incomplete,
}

/// Whether Piper is looked for.
pub open spec fn wants_piper(cfg: TtsConfig) -> bool {
    cfg.engine@ == "auto"@ || cfg.engine@ == "piper"@
}

/// The Piper executable: the configured one, or else the first of those found.
pub fn piper_program(cfg: &TtsConfig, piper_tts: Option<String>, piper: Option<String>) -> (r:
    Option<String>)
    ensures
        r == match cfg.piper_bin {
            Some(b) => Some(b),
            None => match piper_tts {
                Some(b) => Some(b),
                None => piper,
            },
        },
{
    match &cfg.piper_bin {
        Some(b) => Some(b.clone()),
        None => match piper_tts {
            Some(b) => Some(b),
            None => piper,
        },
    }
}

/// Which engine to use, given the Piper executable and whether its voice exists.
pub fn pick_engine(cfg: &TtsConfig, bin: Option<String>, model_exists: bool) -> (r: Choice)
    ensures
        match r {
            Choice::Piper { bin: b, model } => {
                &&& wants_piper(*cfg)
                &&& bin == Some(b)
                &&& cfg.piper_model == Some(model)
                &&& model_exists
            },
            Choice::Incomplete => {
                &&& cfg.engine@ == "piper"@
                &&& !(bin is Some && cfg.piper_model is Some && model_exists)
            },
            Choice::Espeak => {
                &&& cfg.engine@ != "piper"@
                &&& !(wants_piper(*cfg) && bin is Some && cfg.piper_model is Some && model_exists)
            },
        },
{
    let must = same_text(&cfg.engine, "piper");
    if same_text(&cfg.engine, "auto") || must {
        if let Some(b) = bin {
            if let Some(model) = &cfg.piper_model {
                if model_exists {
                    return Choice::Piper { bin: b, model: model.clone() };
                }
            }
        }
    }
    if must {
        Choice::Incomplete
    } else {
        Choice::Espeak
    }
}

#[derive(Debug)]
pub enum Backend {
    Piper { bin: String, model: String, rate: u32 },
    Espeak { bin: String },
}

/// Why nothing can be read aloud where Piper is not all there.
pub open spec fn incomplete_text() -> Seq<char> {
    "Piper needs both the piper binary and tts.piper_model (an .onnx voice) configured"@
}

/// Why nothing can be read aloud where there is no engine.
pub open spec fn no_engine_text() -> Seq<char> {
    "no text-to-speech engine found; install espeak-ng (`imlazy setup` does it for you)"@
}

/// The engine that a choice comes to. `rate` is the sample rate of the Piper voice, `espeak` the
/// espeak-ng executable; each only counts where it is needed.
pub fn resolve(choice: Choice, rate: Result<u32, String>, espeak: Option<String>) -> (r: Result<
    Backend,
    String,
>)
    ensures
        match choice {
            Choice::Piper { bin, model } => match rate {
                Ok(rate) => r == Ok::<Backend, String>(Backend::Piper { bin, model, rate }),
                Err(e) => r == Err::<Backend, String>(e),
            },
            Choice::Incomplete => r matches Err(e) && e@ == incomplete_text(),
            Choice::Espeak => match espeak {
                Some(bin) => r == Ok::<Backend, String>(Backend::Espeak { bin }),
                None => r matches Err(e) && e@ == no_engine_text(),
            },
        },
{
    match choice {
        Choice::Piper { bin, model } => match rate {
            Ok(rate) => Ok(Backend::Piper { bin, model, rate }),
            Err(e) => Err(e),
        },
        Choice::Incomplete => Err(
            "Piper needs both the piper binary and tts.piper_model (an .onnx voice) configured".to_owned(),
        ),
        Choice::Espeak => match espeak {
            Some(bin) => Ok(Backend::Espeak { bin }),
            None => Err(
                "no text-to-speech engine found; install espeak-ng (`imlazy setup` does it for you)".to_owned(),
            ),
        },
    }
}

/// What is said of the engine, given the name of the Piper voice.
pub open spec fn engine_text(
    resolved: Result<Backend, String>,
    cfg: TtsConfig,
    stem: Seq<char>,
) -> Seq<char> {
    match resolved {
        Ok(Backend::Piper { .. }) => "Piper ("@ + stem + ")"@,
        Ok(Backend::Espeak { .. }) => "espeak-ng ("@ + cfg.espeak_voice@ + ")"@,
        Err(e) => "unavailable: "@ + e@,
    }
}

/// Names the engine, given the name of its voice where it is Piper's.
pub fn name_engine(resolved: &Result<Backend, String>, cfg: &TtsConfig, stem: &str) -> (r: String)
    ensures
        r@ == engine_text(*resolved, *cfg, stem@),
{
    match resolved {
        Ok(Backend::Piper { .. }) => concat3("Piper (", stem, ")"),
        Ok(Backend::Espeak { .. }) => concat3("espeak-ng (", &cfg.espeak_voice, ")"),
        Err(e) => concat("unavailable: ", e),
    }
}

/// Names the engine.
pub fn engine_name(resolved: &Result<Backend, String>, cfg: &TtsConfig) -> (r: String)
    ensures
        r@ == engine_text(
            *resolved,
            *cfg,
            match *resolved {
                Ok(Backend::Piper { model, .. }) => paths::stem_of(model@),
                _ => Seq::empty(),
            },
        ),
{
    let stem = match resolved {
        Ok(Backend::Piper { model, .. }) => file_stem(model),
        _ => String::new(),
    };
    name_engine(resolved, cfg, &stem)
}

// ---------------------------------------------------------------------------
// The voice's description
// ---------------------------------------------------------------------------

/// The file that describes a Piper voice.
pub fn voice_file(model: &str) -> (r: String)
    ensures
        r@ == model@ + ".json"@,
{
    concat(model, ".json")
}

/// A whole number inside an object inside the object that a JSON text holds, where there is one,
/// or what is wrong with the text.
pub uninterp spec fn json_number(text: Seq<char>, outer: Seq<char>, inner: Seq<char>) -> Result<
    Option<u64>,
    Seq<char>,
>;

/// `serde_json::from_str` into a `serde_json::Value`, indexed by the two keys, and
/// `serde_json::Value::as_u64`: the number at that place, if the text is JSON and there is an
/// unsigned whole number there. What it is is only named.
#[verifier::external_body]
pub(crate) fn number_at(text: &str, outer: &str, inner: &str) -> (r: Result<Option<u64>, String>)
    ensures
        match r {
            Ok(n) => json_number(text@, outer@, inner@) == Ok::<Option<u64>, Seq<char>>(n),
            Err(e) => json_number(text@, outer@, inner@) == Err::<Option<u64>, Seq<char>>(e@),
        },
{
    match serde_json::from_str::<serde_json::Value>(text) {
        Ok(v) => Ok(v[outer][inner].as_u64()),
        Err(e) => Err(e.to_string()),
    }
}

/// The sample rate, given the number that the description holds.
pub fn voice_rate(number: Result<Option<u64>, String>, file: &str) -> (r: Result<u32, String>)
    ensures
        match number {
            Ok(Some(n)) => r == Ok::<u32, String>(n as u32),
            Ok(None) => r matches Err(e) && e@ == file@ + " has no audio.sample_rate"@,
            Err(e) => r == Err::<u32, String>(e),
        },
{
    match number {
        Ok(Some(n)) => Ok(
            #[verifier::truncate]
            (n as u32),
        ),
        Ok(None) => Err(concat(file, " has no audio.sample_rate")),
        Err(e) => Err(e),
    }
}

/// The sample rate of a Piper voice, from the text of its description.
pub fn piper_sample_rate(json: &str, file: &str) -> (r: Result<u32, String>)
    ensures
        match json_number(json@, "audio"@, "sample_rate"@) {
            Ok(Some(n)) => r == Ok::<u32, String>(n as u32),
            Ok(None) => r matches Err(e) && e@ == file@ + " has no audio.sample_rate"@,
            Err(why) => r matches Err(e) && e@ == why,
        },
{
    voice_rate(number_at(json, "audio", "sample_rate"), file)
}

// ---------------------------------------------------------------------------
// Calling the engine
// ---------------------------------------------------------------------------

/// What the engine is given to read, if there is anything.
pub fn to_speak(text: &str) -> (r: Option<String>)
    ensures
        r is None <==> text::trim(text@).len() == 0,
        r matches Some(t) ==> t@ == text::trim(text@).push('\n'),
{
    let mut t = trimmed(&to_chars(text));
    if t.len() == 0 {
        return None;
    }
    t.push('\n');
    Some(from_chars(&t))
}

/// The arguments of the engine; `length_scale` is the pace of a Piper voice as a number in text.
pub open spec fn argument_list(
    backend: Backend,
    cfg: TtsConfig,
    length_scale: Seq<char>,
) -> Seq<Seq<char>> {
    match backend {
        Backend::Piper { model, .. } => seq![
            "--model"@,
            model@,
            "--output_raw"@,
            "--length_scale"@,
            length_scale,
        ],
        Backend::Espeak { .. } => seq![
            "--stdout"@,
            "--stdin"@,
            "-v"@,
            cfg.espeak_voice@,
            "-s"@,
            text::decimal(audio::clamped(cfg.rate_wpm as int, 80, 450) as nat),
        ],
    }
}

pub fn arguments(backend: &Backend, cfg: &TtsConfig, length_scale: &str) -> (r: Vec<String>)
    ensures
        string_views(r@) == argument_list(*backend, *cfg, length_scale@),
{
    let mut out: Vec<String> = Vec::new();
    match backend {
        Backend::Piper { model, .. } => {
            out.push("--model".to_owned());
            out.push(model.clone());
            out.push("--output_raw".to_owned());
            out.push("--length_scale".to_owned());
            out.push(length_scale.to_owned());
        },
        Backend::Espeak { .. } => {
            let wpm: u32 = if cfg.rate_wpm < 80 {
                80
            } else if cfg.rate_wpm > 450 {
                450
            } else {
                cfg.rate_wpm
            };
            out.push("--stdout".to_owned());
            out.push("--stdin".to_owned());
            out.push("-v".to_owned());
            out.push(cfg.espeak_voice.clone());
            out.push("-s".to_owned());
            out.push(from_chars(&numeral_chars(wpm as u64, 10)));
        },
    }
    assert(string_views(out@) =~= argument_list(*backend, *cfg, length_scale@));
    out
}

/// What the engine complained of, if it did: the last line that it wrote.
pub open spec fn last_line(stderr: Seq<char>) -> Option<Seq<char>> {
    let t = text::trim(stderr);
    if t.len() == 0 {
        None
    } else {
        Some(text::split_at(t, '\n').last())
    }
}

/// What went wrong, with the engine's own complaint (a missing voice, library and so on) before it.
pub open spec fn explanation(why: Seq<char>, stderr: Seq<char>) -> Seq<char> {
    match last_line(stderr) {
        Some(l) => l + ": "@ + why,
        None => why,
    }
}

pub fn explain(why: &str, stderr: &str) -> (r: String)
    ensures
        r@ == explanation(why@, stderr@),
{
    let t = trimmed(&to_chars(stderr));
    if t.len() == 0 {
        return why.to_owned();
    }
    let lines = split_chars(&t, '\n');
    assert(text::texts(lines@).last() == lines@[lines@.len() - 1]@);
    let last = from_chars(&lines[lines.len() - 1]);
    concat3(&last, ": ", why)
}

/// What the overlay is told when reading aloud failed.
pub fn failure(why: &str, stderr: &str) -> (r: String)
    ensures
        r@ == "Speech failed: "@ + explanation(why@, stderr@),
{
    concat("Speech failed: ", &explain(why, stderr))
}

// ---------------------------------------------------------------------------
// WAV headers
// ---------------------------------------------------------------------------

/// A number of two bytes, the low one first.
pub open spec fn le16(b: Seq<u8>, at: int) -> int {
    b[at] + 256 * b[at + 1]
}

/// A number of four bytes, the low one first.
pub open spec fn le32(b: Seq<u8>, at: int) -> int {
    le16(b, at) + 65536 * le16(b, at + 2)
}

pub open spec fn is_tag(b: Seq<u8>, at: int, tag: Seq<u8>) -> bool {
    b.subrange(at, at + 4) == tag
}

pub open spec fn tag_riff() -> Seq<u8> {
    seq![0x52u8, 0x49, 0x46, 0x46]
}

pub open spec fn tag_wave() -> Seq<u8> {
    seq![0x57u8, 0x41, 0x56, 0x45]
}

pub open spec fn tag_fmt() -> Seq<u8> {
    seq![0x66u8, 0x6d, 0x74, 0x20]
}

pub open spec fn tag_data() -> Seq<u8> {
    seq![0x64u8, 0x61, 0x74, 0x61]
}

#[derive(Debug, Clone, Copy, PartialEq, Eq, Structural)]
pub struct WavFormat {
    pub rate: u32,
    pub channels: u16,
}

/// What the beginning of a stream of audio turns out to be.
#[derive(Debug, Clone, Copy, PartialEq, Eq, Structural)]
pub enum WavHeader {
    /// Not enough has arrived to tell.
    More,
    /// The samples begin at the given byte.
    Samples { format: WavFormat, at: usize },
    /// The stream is not WAV.
    NotWav,
    /// The samples come before their format.
    NoFormat,
    /// The format is shorter than a format is.
    ShortFormat,
    /// The samples are not of 16 bits.
    Bits(u16),
}

/// The chunks from byte `at` on, given the format seen before.
pub open spec fn chunks(b: Seq<u8>, at: nat, format: Option<WavFormat>) -> WavHeader
    decreases b.len() - at,
{
    if b.len() < at + 8 {
        WavHeader::More
    } else {
        let len = le32(b, at as int + 4);
        let body = at as int + 8;
        if is_tag(b, at as int, tag_data()) {
            match format {
                Some(f) => WavHeader::Samples { format: f, at: body as usize },
                None => WavHeader::NoFormat,
            }
        } else if len < 0 || b.len() < body + len {
            WavHeader::More
        } else if is_tag(b, at as int, tag_fmt()) {
            if len < 16 {
                WavHeader::ShortFormat
            } else if le16(b, body + 14) != 16 {
                WavHeader::Bits(le16(b, body + 14) as u16)
            } else {
                let f = WavFormat {
                    rate: le32(b, body + 4) as u32,
                    channels: le16(b, body + 2) as u16,
                };
                chunks(b, (body + len) as nat, Some(f))
            }
        } else {
            chunks(b, (body + len) as nat, format)
        }
    }
}

/// A (possibly streaming) WAV header.
pub open spec fn header(b: Seq<u8>) -> WavHeader {
    if b.len() < 12 {
        WavHeader::More
    } else if !is_tag(b, 0, tag_riff()) || !is_tag(b, 8, tag_wave()) {
        WavHeader::NotWav
    } else {
        chunks(b, 12, None)
    }
}

fn has_tag(b: &[u8], at: usize, w: u8, x: u8, y: u8, z: u8) -> (r: bool)
    requires
        at + 4 <= b@.len(),
    ensures
        r == is_tag(b@, at as int, seq![w, x, y, z]),
{
    let r = b[at] == w && b[at + 1] == x && b[at + 2] == y && b[at + 3] == z;
    proof {
        let sub = b@.subrange(at as int, at + 4);
        assert(sub[0] == b@[at as int] && sub[1] == b@[at + 1] && sub[2] == b@[at + 2] && sub[3]
            == b@[at + 3]);
        let tag = seq![w, x, y, z];
        if r {
            assert(sub =~= tag);
        } else if sub == tag {
            assert(tag[0] == w && tag[1] == x && tag[2] == y && tag[3] == z);
        }
    }
    r
}

fn read16(b: &[u8], at: usize) -> (r: u16)
    requires
        at + 2 <= b@.len(),
    ensures
        r == le16(b@, at as int),
{
    b[at] as u16 + 256 * (b[at + 1] as u16)
}

fn read32(b: &[u8], at: usize) -> (r: u32)
    requires
        at + 4 <= b@.len(),
    ensures
        r == le32(b@, at as int),
{
    assert(at + 4 <= b.len());
    read16(b, at) as u32 + 65536 * (read16(b, at + 2) as u32)
}

/// Reads the header of a WAV stream from what has arrived of it.
pub fn read_wav_header(b: &[u8]) -> (r: WavHeader)
    ensures
        r == header(b@),
{
    if b.len() < 12 {
        return WavHeader::More;
    }
    if !has_tag(b, 0, 0x52, 0x49, 0x46, 0x46) || !has_tag(b, 8, 0x57, 0x41, 0x56, 0x45) {
        return WavHeader::NotWav;
    }
    let mut at: usize = 12;
    let mut format: Option<WavFormat> = None;
    while b.len() - at >= 8
        invariant
            12 <= at <= b.len(),
            header(b@) == chunks(b@, at as nat, format),
        decreases b.len() - at,
    {
        let body: usize = at + 8;
        let len: u32 = read32(b, at + 4);
        if has_tag(b, at, 0x64, 0x61, 0x74, 0x61) {
            return match format {
                Some(f) => WavHeader::Samples { format: f, at: body },
                None => WavHeader::NoFormat,
            };
        }
        if ((b.len() - body) as u64) < len as u64 {
            return WavHeader::More;
        }
        if has_tag(b, at, 0x66, 0x6d, 0x74, 0x20) {
            if len < 16 {
                return WavHeader::ShortFormat;
            }
            let bits = read16(b, body + 14);
            if bits != 16 {
                return WavHeader::Bits(bits);
            }
            format = Some(WavFormat { rate: read32(b, body + 4), channels: read16(b, body + 2) });
        }
        at = body + len as usize;
    }
    WavHeader::More
}

/// What is said of a stream that cannot be played, where there is anything to be said.
pub fn wav_error(h: WavHeader) -> (r: Option<String>)
    ensures
        match h {
            WavHeader::NotWav => r matches Some(e) && e@ == "speech engine output is not WAV"@,
            WavHeader::NoFormat => r matches Some(e) && e@ == "WAV data before format"@,
            WavHeader::Bits(n) => r matches Some(e) && e@ == "expected 16-bit speech audio, got "@
                + text::decimal(n as nat) + "-bit"@,
            _ => r is None,
        },
{
    match h {
        WavHeader::NotWav => Some("speech engine output is not WAV".to_owned()),
        WavHeader::NoFormat => Some("WAV data before format".to_owned()),
        WavHeader::Bits(n) => Some(
            concat3(
                "expected 16-bit speech audio, got ",
                &from_chars(&numeral_chars(n as u64, 10)),
                "-bit",
            ),
        ),
        _ => None,
    }
}

// ---------------------------------------------------------------------------
// Samples
// ---------------------------------------------------------------------------

/// A signed number of two bytes, the low one first.
pub open spec fn sample(b: Seq<u8>, at: int) -> i16 {
    if le16(b, at) < 32768 {
        le16(b, at) as i16
    } else {
        (le16(b, at) - 65536) as i16
    }
}

/// How many bytes make up the whole frames of `n` bytes; a frame has a sample for each channel.
pub open spec fn whole_bytes(n: nat, channels: nat) -> nat {
    (n / (2 * channels) * (2 * channels)) as nat
}

/// The samples of the whole frames.
pub open spec fn samples(b: Seq<u8>, channels: nat) -> Seq<i16> {
    Seq::new((whole_bytes(b.len(), channels) / 2) as nat, |i: int| sample(b, 2 * i))
}

/// The bytes of a frame that has not arrived whole.
pub open spec fn leftover(b: Seq<u8>, channels: nat) -> Seq<u8> {
    b.skip(whole_bytes(b.len(), channels) as int)
}

proof fn lemma_whole(n: nat, channels: nat)
    requires
        channels > 0,
    ensures
        whole_bytes(n, channels) <= n,
        n - whole_bytes(n, channels) == n % (2 * channels),
        whole_bytes(n, channels) == 2 * (whole_bytes(n, channels) / 2),
        n % (2 * channels) < 2 * channels,
{
    let f = 2 * channels;
    assert(n == (n / f) * f + n % f && n % f < f) by (nonlinear_arith)
        requires
            f > 0,
    ;
    let q = n / f;
    assert(q * f == 2 * (q * channels)) by (nonlinear_arith)
        requires
            f == 2 * channels,
    ;
}

/// Takes the samples of the whole frames out of what has arrived, and leaves the rest.
pub fn take_samples(pending: &mut Vec<u8>, channels: u16) -> (r: Vec<i16>)
    requires
        channels > 0,
    ensures
        r@ == samples(old(pending)@, channels as nat),
        final(pending)@ == leftover(old(pending)@, channels as nat),
{
    let ghost was = pending@;
    let frame: usize = 2 * (channels as usize);
    proof {
        lemma_whole(was.len(), channels as nat);
    }
    let whole: usize = pending.len() - pending.len() % frame;
    let mut out: Vec<i16> = Vec::new();
    let mut i: usize = 0;
    while i < whole
        invariant
            i <= whole <= was.len(),
            pending@ == was,
            whole == 2 * (whole as int / 2),
            i == 2 * out@.len(),
            out@ == Seq::new(out@.len(), |j: int| sample(was, 2 * j)),
        decreases whole - i,
    {
        let n = read16(pending, i);
        let s: i16 = if n < 32768 {
            n as i16
        } else {
            (n as i32 - 65536) as i16
        };
        out.push(s);
        assert(out@ =~= Seq::new(out@.len(), |j: int| sample(was, 2 * j)));
        i += 2;
    }
    let mut rest: Vec<u8> = Vec::new();
    while i < pending.len()
        invariant
            whole <= i <= pending.len(),
            pending@ == was,
            rest@ =~= was.subrange(whole as int, i as int),
        decreases pending.len() - i,
    {
        rest.push(pending[i]);
        i += 1;
    }
    *pending = rest;
    assert(pending@ =~= leftover(was, channels as nat));
    assert(out@ =~= samples(was, channels as nat));
    out
}

// ---------------------------------------------------------------------------
// Laws
// ---------------------------------------------------------------------------

proof fn lemma_chunks_settled(b: Seq<u8>, more: Seq<u8>, at: nat, format: Option<WavFormat>)
    requires
        chunks(b, at, format) != WavHeader::More,
    ensures
        chunks(b + more, at, format) == chunks(b, at, format),
    decreases b.len() - at,
{
    let c = b + more;
    let len = le32(b, at as int + 4);
    let body = at as int + 8;
    assert(c.subrange(at as int, at as int + 4) =~= b.subrange(at as int, at as int + 4));
    if is_tag(b, at as int, tag_data()) {
    } else if is_tag(b, at as int, tag_fmt()) {
        if len >= 16 && le16(b, body + 14) == 16 {
            let f = WavFormat {
                rate: le32(b, body + 4) as u32,
                channels: le16(b, body + 2) as u16,
            };
            lemma_chunks_settled(b, more, (body + len) as nat, Some(f));
        }
    } else {
        lemma_chunks_settled(b, more, (body + len) as nat, format);
    }
}

/// What a stream turns out to be does not change as more of it arrives.
pub proof fn law_a_header_is_settled_once_read(b: Seq<u8>, more: Seq<u8>)
    requires
        header(b) != WavHeader::More,
    ensures
        header(b + more) == header(b),
{
    let c = b + more;
    assert(c.subrange(0, 4) =~= b.subrange(0, 4));
    assert(c.subrange(8, 12) =~= b.subrange(8, 12));
    if is_tag(b, 0, tag_riff()) && is_tag(b, 8, tag_wave()) {
        lemma_chunks_settled(b, more, 12, None);
    }
}

/// Audio read in pieces gives the samples that it gives when read at once: the part of a frame
/// that one piece ends with is made whole by the next.
pub proof fn law_samples_are_read_seamlessly(a: Seq<u8>, b: Seq<u8>, channels: nat)
    requires
        channels > 0,
    ensures
        samples(a + b, channels) == samples(a, channels) + samples(
            leftover(a, channels) + b,
            channels,
        ),
        leftover(a + b, channels) == leftover(leftover(a, channels) + b, channels),
{
    let f = 2 * channels;
    let wa = whole_bytes(a.len(), channels);
    let rest = leftover(a, channels) + b;
    let all = a + b;
    lemma_whole(a.len(), channels);
    lemma_whole(all.len(), channels);
    lemma_whole(rest.len(), channels);
    let q = a.len() / f;
    let n = all.len();
    let m = rest.len();
    assert(n == wa + m);
    assert((q * f + m) / f == q + m / f) by {
        vstd::arithmetic::div_mod::lemma_hoist_over_denominator(m as int, q as int, f as nat);
    }
    let wr = whole_bytes(m, channels);
    assert((q + m / f) * f == q * f + (m / f) * f) by (nonlinear_arith);
    assert(whole_bytes(n, channels) == wa + wr);
    let sa = samples(a, channels);
    let sr = samples(rest, channels);
    let s = samples(all, channels);
    assert(s.len() == sa.len() + sr.len());
    assert forall|i: int| 0 <= i < s.len() implies s[i] == #[trigger] (sa + sr)[i] by {
        if i < sa.len() {
            assert(all[2 * i] == a[2 * i] && all[2 * i + 1] == a[2 * i + 1]);
        } else {
            let j = i - sa.len();
            assert(2 * i == wa + 2 * j);
            assert(all.skip(wa as int) =~= rest);
            assert(rest[2 * j] == all[2 * i] && rest[2 * j + 1] == all[2 * i + 1]);
        }
    }
    assert(s =~= sa + sr);
    assert(leftover(all, channels) =~= leftover(rest, channels));
}

/// A header as speech engines write it is understood: the format first, and then the samples.
pub proof fn law_plain_headers_are_understood(b: Seq<u8>)
    requires
        b.len() >= 44,
        is_tag(b, 0, tag_riff()),
        is_tag(b, 8, tag_wave()),
        is_tag(b, 12, tag_fmt()),
        le32(b, 16) == 16,
        le16(b, 34) == 16,
        is_tag(b, 36, tag_data()),
    ensures
        header(b) == (WavHeader::Samples {
            format: WavFormat { rate: le32(b, 24) as u32, channels: le16(b, 22) as u16 },
            at: 44,
        }),
{
    assert(tag_fmt()[0] == 0x66 && tag_data()[0] == 0x64);
    reveal_with_fuel(chunks, 2);
}

/// A program is looked for in every directory of the search path, in its order.
pub proof fn law_every_directory_is_searched(a: Seq<char>, b: Seq<char>, name: Seq<char>)
    ensures
        places(a.push(':') + b, name) == places(a, name) + places(b, name),
        !a.contains(':') ==> places(a, name) == seq![paths::below(a, name)],
{
    text::law_split_at_every_occurrence(a, ':', b);
    assert(places(a.push(':') + b, name) =~= places(a, name) + places(b, name));
    if !a.contains(':') {
        assert(places(a, name) =~= seq![paths::below(a, name)]);
    }
}

/// Piper is looked for where it is asked for or where the choice is left open, and only then.
pub proof fn law_piper_is_wanted_where_it_may_be(cfg: TtsConfig)
    ensures
        cfg.engine@ == "auto"@ || cfg.engine@ == "piper"@ ==> wants_piper(cfg),
        cfg.engine@ != "auto"@ && cfg.engine@ != "piper"@ ==> !wants_piper(cfg),
        incomplete_text()
            == "Piper needs both the piper binary and tts.piper_model (an .onnx voice) configured"@,
        no_engine_text()
            == "no text-to-speech engine found; install espeak-ng (`imlazy setup` does it for you)"@,
{
}

/// The engine is named with its voice, or with what it lacks.
pub proof fn law_the_engine_is_named_with_its_voice(
    bin: String,
    model: String,
    rate: u32,
    why: String,
    cfg: TtsConfig,
    stem: Seq<char>,
)
    ensures
        engine_text(Ok(Backend::Piper { bin, model, rate }), cfg, stem) == "Piper ("@ + stem + ")"@,
        engine_text(Ok(Backend::Espeak { bin }), cfg, stem) == "espeak-ng ("@ + cfg.espeak_voice@
            + ")"@,
        engine_text(Err(why), cfg, stem) == "unavailable: "@ + why@,
{
}

/// Piper is told its voice, that raw samples are wanted, and the pace.
pub proof fn law_piper_is_told_its_voice_and_pace(
    bin: String,
    model: String,
    rate: u32,
    cfg: TtsConfig,
    pace: Seq<char>,
)
    ensures
        argument_list(Backend::Piper { bin, model, rate }, cfg, pace) == seq![
            "--model"@,
            model@,
            "--output_raw"@,
            "--length_scale"@,
            pace,
        ],
{
}

/// espeak-ng is told to read what it is given and to write the audio, in the chosen voice, at the
/// chosen rate, which is kept from 80 to 450 words a minute.
pub proof fn law_espeak_is_told_its_voice_and_rate(
    bin: String,
    cfg: TtsConfig,
    pace: Seq<char>,
)
    ensures
        ({
            let a = argument_list(Backend::Espeak { bin }, cfg, pace);
            let wpm: nat = if cfg.rate_wpm < 80 {
                80
            } else if cfg.rate_wpm > 450 {
                450
            } else {
                cfg.rate_wpm as nat
            };
            &&& a.len() == 6
            &&& a[0] == "--stdout"@ && a[1] == "--stdin"@
            &&& a[2] == "-v"@ && a[3] == cfg.espeak_voice@
            &&& a[4] == "-s"@ && a[5] == text::decimal(wpm)
            &&& text::value_of(a[5], 10) == wpm
        }),
{
    let wpm: nat = audio::clamped(cfg.rate_wpm as int, 80, 450) as nat;
    text::law_numerals_come_to_their_number(wpm, 10);
}

/// Where the engine complained, the last line of it stands before what went wrong; where it did
/// not, only what went wrong is said.
pub proof fn law_the_last_complaint_is_shown(
    stderr: Seq<char>,
    earlier: Seq<char>,
    line: Seq<char>,
    why: Seq<char>,
)
    requires
        !line.contains('\n'),
    ensures
        text::trim(stderr).len() == 0 ==> explanation(why, stderr) == why,
        text::trim(stderr).len() > 0 && text::trim(stderr) == line ==> explanation(why, stderr)
            == line + ": "@ + why,
        text::trim(stderr) == earlier.push('\n') + line ==> explanation(why, stderr) == line
            + ": "@ + why,
{
    text::law_split_at_every_occurrence(line, '\n', line);
    text::law_split_at_every_occurrence(earlier, '\n', line);
    text::lemma_split_some(earlier, '\n');
    let both = text::split_at(earlier, '\n') + seq![line];
    assert(both.last() == line);
}

/// Numbers are read with their low byte first, and samples with their sign.
pub proof fn law_numbers_have_their_low_byte_first(b: Seq<u8>, at: int)
    requires
        0 <= at,
        at + 4 <= b.len(),
    ensures
        le16(b, at) == b[at] + 256 * b[at + 1],
        le32(b, at) == b[at] + 256 * b[at + 1] + 65_536 * b[at + 2] + 16_777_216 * b[at + 3],
        b[at + 1] < 128 ==> sample(b, at) == b[at] + 256 * b[at + 1],
        b[at + 1] >= 128 ==> sample(b, at) == b[at] + 256 * b[at + 1] - 65_536,
{
}

/// The four bytes at some place.
pub open spec fn four(b: Seq<u8>, at: int, w: int, x: int, y: int, z: int) -> bool {
    b[at] == w && b[at + 1] == x && b[at + 2] == y && b[at + 3] == z
}

/// The tags by their bytes: "RIFF", "WAVE", "fmt " and "data".
pub proof fn law_tags_are_these_bytes(b: Seq<u8>, at: int)
    requires
        0 <= at,
        at + 4 <= b.len(),
    ensures
        is_tag(b, at, tag_riff()) <==> four(b, at, 82, 73, 70, 70),
        is_tag(b, at, tag_wave()) <==> four(b, at, 87, 65, 86, 69),
        is_tag(b, at, tag_fmt()) <==> four(b, at, 102, 109, 116, 32),
        is_tag(b, at, tag_data()) <==> four(b, at, 100, 97, 116, 97),
{
    let s = b.subrange(at, at + 4);
    assert(s[0] == b[at] && s[1] == b[at + 1] && s[2] == b[at + 2] && s[3] == b[at + 3]);
    lemma_same_tag(s, tag_riff());
    lemma_same_tag(s, tag_wave());
    lemma_same_tag(s, tag_fmt());
    lemma_same_tag(s, tag_data());
}

proof fn lemma_same_tag(s: Seq<u8>, tag: Seq<u8>)
    requires
        s.len() == 4,
        tag.len() == 4,
    ensures
        s == tag <==> s[0] == tag[0] && s[1] == tag[1] && s[2] == tag[2] && s[3] == tag[3],
{
    if s[0] == tag[0] && s[1] == tag[1] && s[2] == tag[2] && s[3] == tag[3] {
        assert(s =~= tag);
    }
}

/// A stream is WAV when it says so in its first twelve bytes, and then its chunks follow.
pub proof fn law_wav_is_told_by_its_first_bytes(b: Seq<u8>)
    ensures
        b.len() < 12 ==> header(b) is More,
        b.len() >= 12 && !(four(b, 0, 82, 73, 70, 70) && four(b, 8, 87, 65, 86, 69)) ==> header(
            b,
        ) is NotWav,
        b.len() >= 12 && four(b, 0, 82, 73, 70, 70) && four(b, 8, 87, 65, 86, 69) ==> header(b)
            == chunks(b, 12, None),
{
    if b.len() >= 12 {
        law_tags_are_these_bytes(b, 0);
        law_tags_are_these_bytes(b, 8);
    }
}

/// Chunk by chunk: the samples end the header, and need a format before them; the format counts
/// for what follows, and has to be of 16 bits; any other chunk is passed over by its length; and a
/// chunk that has not arrived is waited for.
pub proof fn law_chunks_are_read_in_turn(b: Seq<u8>, at: nat, format: Option<WavFormat>)
    requires
        b.len() >= at + 8,
        b.len() <= usize::MAX,
    ensures
        ({
            let i = at as int;
            let len = b[i + 4] + 256 * b[i + 5] + 65_536 * b[i + 6] + 16_777_216 * b[i + 7];
            let data = four(b, i, 100, 97, 116, 97);
            let fmt = four(b, i, 102, 109, 116, 32);
            let here = b.len() >= at + 8 + len;
            let bits = b[i + 22] + 256 * b[i + 23];
            let c = chunks(b, at, format);
            &&& data && format is Some ==> c == (WavHeader::Samples {
                format: format->0,
                at: (at + 8) as usize,
            })
            &&& data && format is None ==> c is NoFormat
            &&& !data && !here ==> c is More
            &&& fmt && here && len < 16 ==> c is ShortFormat
            &&& fmt && here && len >= 16 && bits != 16 ==> c == WavHeader::Bits(bits as u16)
            &&& fmt && here && len >= 16 && bits == 16 ==> c == chunks(
                b,
                (at + 8 + len) as nat,
                Some(
                    WavFormat {
                        rate: (b[i + 12] + 256 * b[i + 13] + 65_536 * b[i + 14] + 16_777_216 * b[i
                            + 15]) as u32,
                        channels: (b[i + 10] + 256 * b[i + 11]) as u16,
                    },
                ),
            )
            &&& !data && !fmt && here ==> c == chunks(b, (at + 8 + len) as nat, format)
        }),
        chunks(b, (b.len() - 7) as nat, format) is More,
{
    let i = at as int;
    law_tags_are_these_bytes(b, i);
    law_numbers_have_their_low_byte_first(b, i + 4);
    let len = le32(b, i + 4);
    if b.len() >= at + 8 + len && len >= 16 {
        law_numbers_have_their_low_byte_first(b, i + 12);
        law_numbers_have_their_low_byte_first(b, i + 10);
        law_numbers_have_their_low_byte_first(b, i + 20);
    }
}

/// Every whole frame is played and no part of one: what is left over is less than a frame, and a
/// sample is the two bytes at its place.
pub proof fn law_whole_frames_are_played(b: Seq<u8>, channels: nat, i: int)
    requires
        channels > 0,
    ensures
        leftover(b, channels).len() < 2 * channels,
        2 * samples(b, channels).len() + leftover(b, channels).len() == b.len(),
        samples(b, channels).len() % channels == 0,
        0 <= i < leftover(b, channels).len() ==> leftover(b, channels)[i] == b[2 * samples(
            b,
            channels,
        ).len() + i],
        0 <= i < samples(b, channels).len() && b[2 * i + 1] < 128 ==> samples(b, channels)[i] == b[2
            * i] + 256 * b[2 * i + 1],
        0 <= i < samples(b, channels).len() && b[2 * i + 1] >= 128 ==> samples(b, channels)[i]
            == b[2 * i] + 256 * b[2 * i + 1] - 65_536,
{
    lemma_whole(b.len(), channels);
    let q = b.len() / (2 * channels);
    assert(q * (2 * channels) == 2 * (q * channels) && (q * channels) % channels == 0)
        by (nonlinear_arith)
        requires
            channels > 0,
    ;
}

/// Piper is taken where it may be and is all there. Where it is asked for by name and is not all
/// there, that is said; in every other case the choice falls on espeak-ng.
pub proof fn law_piper_is_taken_where_it_is_all_there(
    cfg: &TtsConfig,
    bin: Option<String>,
    model_exists: bool,
    r: Choice,
)
    requires
        call_ensures(pick_engine, (cfg, bin, model_exists), r),
    ensures
        ({
            let all_there = bin is Some && cfg.piper_model is Some && model_exists;
            let asked = cfg.engine@ == "piper"@;
            let may = cfg.engine@ == "piper"@ || cfg.engine@ == "auto"@;
            &&& may && all_there ==> r == (Choice::Piper {
                bin: bin->0,
                model: cfg.piper_model->0,
            })
            &&& asked && !all_there ==> r is Incomplete
            &&& !asked && !(may && all_there) ==> r is Espeak
        }),
{
}

/// The Piper that is set comes before those that are found, and `piper-tts` before `piper`.
pub proof fn law_the_piper_that_is_set_comes_first(
    cfg: &TtsConfig,
    piper_tts: Option<String>,
    piper: Option<String>,
    r: Option<String>,
)
    requires
        call_ensures(piper_program, (cfg, piper_tts, piper), r),
    ensures
        cfg.piper_bin is Some ==> r == cfg.piper_bin,
        cfg.piper_bin is None && piper_tts is Some ==> r == piper_tts,
        cfg.piper_bin is None && piper_tts is None ==> r == piper,
{
}

/// A choice comes to the engine that was chosen, or to why there is none.
pub proof fn law_choices_come_to_engines(
    bin: String,
    model: String,
    rate: Result<u32, String>,
    espeak: Option<String>,
    r: Result<Backend, String>,
)
    ensures
        call_ensures(resolve, (Choice::Piper { bin, model }, rate, espeak), r) ==> {
            &&& rate is Ok ==> r is Ok && r->Ok_0 == (Backend::Piper {
                bin,
                model,
                rate: rate->Ok_0,
            })
            &&& rate is Err ==> r is Err && r->Err_0 == rate->Err_0
        },
        call_ensures(resolve, (Choice::Espeak, rate, espeak), r) ==> {
            &&& espeak is Some ==> r is Ok && r->Ok_0 == (Backend::Espeak { bin: espeak->0 })
            &&& espeak is None ==> r is Err && r->Err_0@
                == "no text-to-speech engine found; install espeak-ng (`imlazy setup` does it for you)"@
        },
        call_ensures(resolve, (Choice::Incomplete, rate, espeak), r) ==> r is Err && r->Err_0@
            == "Piper needs both the piper binary and tts.piper_model (an .onnx voice) configured"@,
{
}

/// A text is handed to the engine as a line of its own, without the white space around it; a
/// blank one is not.
pub proof fn law_texts_are_spoken_as_a_line(text: &str, r: Option<String>)
    requires
        call_ensures(to_speak, (text,), r),
    ensures
        r is None <==> forall|i: int|
            0 <= i < text@.len() ==> text::whitespace(#[trigger] text@[i]),
        r is Some ==> r->0@ == text::trim(text@).push('\n'),
{
    text::law_blank_texts_trim_to_nothing(text@);
}

} // verus!
