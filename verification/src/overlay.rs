//! The overlay: what it says right now, and how it answers what the engine reports.
//!
//! Times are milliseconds on a clock that does not go back.

use vstd::prelude::*;

use crate::audio;
use crate::audio::MicInfo;
use crate::config::{Config, HotkeyConfig};
use crate::engine;
use crate::engine::{Cmd, UiEvent};
use crate::text;
use crate::text::{append, concat, concat3, from_chars, numeral_chars, same_text, to_chars, trimmed};

verus! {

// ---------------------------------------------------------------------------
// Status
// ---------------------------------------------------------------------------

#[derive(Debug, Clone, Copy, PartialEq, Eq, Structural)]
pub enum Tone {
    Normal,
    Live,
    Done,
    Error,
}

/// What the two status lines say, and how.
#[derive(Debug)]
pub struct Status {
    pub title: String,
    pub subtitle: String,
    pub tone: Tone,
}

/// A status with its texts as sequences of characters.
pub struct Shown {
    pub title: Seq<char>,
    pub subtitle: Seq<char>,
    pub tone: Tone,
}

impl View for Status {
    type V = Shown;

    open spec fn view(&self) -> Shown {
        Shown { title: self.title@, subtitle: self.subtitle@, tone: self.tone }
    }
}

impl Status {
    /// Both lines, for those who cannot see them whole.
    pub fn tooltip(&self) -> (r: String)
        ensures
            r@ == if self.subtitle@.len() == 0 {
                self.title@
            } else {
                self.title@ + "\n"@ + self.subtitle@
            },
    {
        if self.subtitle.as_str().is_empty() {
            self.title.clone()
        } else {
            concat3(&self.title, "\n", &self.subtitle)
        }
    }
}

/// A message that is shown for a while.
pub struct Flash {
    pub text: String,
    pub at: u64,
    pub error: bool,
}

/// A message with its text as a sequence of characters.
pub struct Message {
    pub text: Seq<char>,
    pub at: u64,
    pub error: bool,
}

pub open spec fn message(f: Option<Flash>) -> Option<Message> {
    match f {
        Some(f) => Some(Message { text: f.text@, at: f.at, error: f.error }),
        None => None,
    }
}

pub struct Overlay {
    hotkeys: HotkeyConfig,
    ready: bool,
    download: Option<u32>,
    listening: bool,
    /// Listening was requested but the microphone has not delivered audio yet.
    opening: bool,
    hearing: bool,
    transcribing: bool,
    speaking: bool,
    partial: String,
    last_final: Option<Flash>,
    flash: Option<Flash>,
    fatal: Option<String>,
    compact: bool,
    mic_ids: Vec<Option<String>>,
}

/// The overlay, as contracts speak of it.
pub struct Panel {
    pub shortcuts: bool,
    pub toggle_key: Seq<char>,
    pub stop_key: Seq<char>,
    pub ready: bool,
    pub download: Option<u32>,
    pub listening: bool,
    pub opening: bool,
    pub hearing: bool,
    pub transcribing: bool,
    pub speaking: bool,
    pub partial: Seq<char>,
    pub last_final: Option<Message>,
    pub flash: Option<Message>,
    pub fatal: Option<Seq<char>>,
    pub compact: bool,
    /// The microphones on offer; the first is the system default.
    pub mic_ids: Seq<Option<Seq<char>>>,
}

pub open spec fn choices(ids: Seq<Option<String>>) -> Seq<Option<Seq<char>>> {
    ids.map_values(|id: Option<String>| engine::chosen(id))
}

impl View for Overlay {
    type V = Panel;

    closed spec fn view(&self) -> Panel {
        Panel {
            shortcuts: self.hotkeys.enabled,
            toggle_key: self.hotkeys.toggle@,
            stop_key: self.hotkeys.stop_speaking@,
            ready: self.ready,
            download: self.download,
            listening: self.listening,
            opening: self.opening,
            hearing: self.hearing,
            transcribing: self.transcribing,
            speaking: self.speaking,
            partial: self.partial@,
            last_final: message(self.last_final),
            flash: message(self.flash),
            fatal: engine::chosen(self.fatal),
            compact: self.compact,
            mic_ids: choices(self.mic_ids@),
        }
    }
}

pub open spec fn hint_text(p: Panel, verb: Seq<char>) -> Seq<char> {
    if p.shortcuts && p.toggle_key.len() > 0 {
        "Press "@ + p.toggle_key + " to "@ + verb
    } else {
        "Click the microphone to "@ + verb
    }
}

/// The message is not older than so many milliseconds.
pub open spec fn is_fresh(m: Message, now: u64, ttl: u64) -> bool {
    now - m.at < ttl
}

/// Messages stay for four seconds, errors for eight.
pub open spec fn is_shown(m: Message, now: u64) -> bool {
    is_fresh(
        m,
        now,
        if m.error {
            8000
        } else {
            4000
        },
    )
}

pub open spec fn shown(title: Seq<char>, subtitle: Seq<char>, tone: Tone) -> Shown {
    Shown { title, subtitle, tone }
}

/// What the overlay says.
pub open spec fn status_of(p: Panel, now: u64) -> Shown {
    let recent = p.last_final is Some && is_fresh(p.last_final->0, now, 5000);
    if p.fatal is Some {
        shown("Something needs fixing"@, p.fatal->0, Tone::Error)
    } else if p.flash is Some && is_shown(p.flash->0, now) {
        if p.flash->0.error {
            shown("Problem"@, p.flash->0.text, Tone::Error)
        } else {
            shown("RavenVoice"@, p.flash->0.text, Tone::Normal)
        }
    } else if !p.ready {
        match p.download {
            Some(percent) => shown(
                "Getting ready…"@,
                "Downloading speech model "@ + text::decimal(percent as nat) + "%"@,
                Tone::Normal,
            ),
            None => shown("Getting ready…"@, "Loading speech model"@, Tone::Normal),
        }
    } else if p.speaking {
        shown(
            "Speaking…"@,
            if p.stop_key.len() == 0 {
                "Use the chevron menu to stop"@
            } else {
                "Press "@ + p.stop_key + " to stop"@
            },
            Tone::Normal,
        )
    } else if p.listening && p.opening {
        shown("Opening microphone…"@, "One moment"@, Tone::Normal)
    } else if p.listening && p.partial.len() > 0 {
        shown("Hearing you…"@, p.partial, Tone::Live)
    } else if p.listening && p.hearing {
        shown("Hearing you…"@, hint_text(p, "stop"@), Tone::Normal)
    } else if p.listening && p.transcribing {
        shown("Writing…"@, hint_text(p, "stop"@), Tone::Normal)
    } else if recent {
        shown("Typed"@, p.last_final->0.text, Tone::Done)
    } else if p.listening {
        shown("Listening…"@, hint_text(p, "stop"@), Tone::Normal)
    } else {
        shown("Ready to dictate"@, hint_text(p, "start"@), Tone::Normal)
    }
}

// ---------------------------------------------------------------------------
// What events change
// ---------------------------------------------------------------------------

/// Something to be done to what is on screen, in the order given.
#[derive(Debug)]
pub enum Change {
    /// What is said of the engine in the settings.
    Info(String),
    /// The waveform is coloured or not.
    WaveActive(bool),
    /// One more level for the waveform.
    Level(u64),
    /// What the microphone button does.
    MicLabel(String),
    /// The microphone button is lit or not.
    MicListening(bool),
    /// The microphone button glows or not.
    MicHearing(bool),
    /// Tell screen readers.
    Announce(String),
    /// The microphones on offer, and which one is chosen.
    Mics { names: Vec<String>, index: usize },
    /// Only the microphone button is shown, or the full bar.
    Compact(bool),
}

/// A change with its texts as sequences of characters.
pub enum Touch {
    Info(Seq<char>),
    WaveActive(bool),
    Level(u64),
    MicLabel(Seq<char>),
    MicListening(bool),
    MicHearing(bool),
    Announce(Seq<char>),
    Mics { names: Seq<Seq<char>>, index: nat },
    Compact(bool),
}

pub open spec fn names_of(v: Seq<String>) -> Seq<Seq<char>> {
    v.map_values(|s: String| s@)
}

impl View for Change {
    type V = Touch;

    open spec fn view(&self) -> Touch {
        match self {
            Change::Info(t) => Touch::Info(t@),
            Change::WaveActive(on) => Touch::WaveActive(*on),
            Change::Level(bits) => Touch::Level(*bits),
            Change::MicLabel(t) => Touch::MicLabel(t@),
            Change::MicListening(on) => Touch::MicListening(*on),
            Change::MicHearing(on) => Touch::MicHearing(*on),
            Change::Announce(t) => Touch::Announce(t@),
            Change::Mics { names, index } => Touch::Mics {
                names: names_of(names@),
                index: *index as nat,
            },
            Change::Compact(on) => Touch::Compact(*on),
        }
    }
}

pub open spec fn touches(changes: Seq<Change>) -> Seq<Touch> {
    changes.map_values(|c: Change| c@)
}

/// Screen readers are told everything that is not empty.
pub open spec fn announced(t: Seq<char>) -> Seq<Touch> {
    if t.len() == 0 {
        Seq::empty()
    } else {
        seq![Touch::Announce(t)]
    }
}

/// What a microphone is called in the list; the system default is marked.
pub open spec fn mic_name(m: audio::Mic) -> Seq<char> {
    if m.is_default {
        m.display_text() + " •"@
    } else {
        m.display_text()
    }
}

pub open spec fn mic_names(list: Seq<audio::Mic>) -> Seq<Seq<char>> {
    seq!["System default"@] + list.map_values(|m: audio::Mic| mic_name(m))
}

pub open spec fn mic_choices(list: Seq<audio::Mic>) -> Seq<Option<Seq<char>>> {
    seq![None] + list.map_values(|m: audio::Mic| Some(m.id))
}

/// The first place, from the `i`th on, of the chosen microphone, or the system default's.
pub open spec fn choice_index(
    ids: Seq<Option<Seq<char>>>,
    selected: Option<Seq<char>>,
    i: nat,
) -> nat
    decreases ids.len() - i,
{
    if i >= ids.len() {
        0
    } else if ids[i as int] == selected {
        i
    } else {
        choice_index(ids, selected, i + 1)
    }
}

/// What an event does to the overlay.
pub open spec fn handled(p: Panel, event: engine::Signal, now: u64) -> (Panel, Seq<Touch>) {
    match event {
        engine::Signal::Ready { model, tts } => (
            Panel {
                ready: true,
                download: None,
                flash: Some(
                    Message { text: "Ready — Whisper "@ + model, at: now, error: false },
                ),
                ..p
            },
            seq![Touch::Info("Whisper "@ + model + " · voice: "@ + tts)],
        ),
        engine::Signal::ModelProgress(percent) => (
            Panel { download: Some(percent), ..p },
            Seq::empty(),
        ),
        engine::Signal::Loading(model) => (
            Panel { ready: false, download: None, ..p },
            seq![Touch::Info("Loading Whisper "@ + model + "…"@)],
        ),
        engine::Signal::Listening(on) => (
            Panel {
                listening: on,
                opening: on,
                partial: Seq::empty(),
                fatal: if on {
                    None
                } else {
                    p.fatal
                },
                ..p
            },
            seq![
                Touch::WaveActive(on),
                Touch::MicLabel(
                    if on {
                        "Stop dictation"@
                    } else {
                        "Start dictation"@
                    },
                ),
                Touch::MicListening(on),
            ] + if on {
                Seq::empty()
            } else {
                seq![Touch::MicHearing(false), Touch::Announce("Dictation off"@)]
            },
        ),
        engine::Signal::MicLive => (
            Panel { opening: false, ..p },
            seq![Touch::Announce("Listening"@)],
        ),
        engine::Signal::Hearing(on) => (
            Panel { hearing: on, ..p },
            seq![Touch::MicHearing(on)],
        ),
        engine::Signal::Transcribing(on) => (Panel { transcribing: on, ..p }, Seq::empty()),
        engine::Signal::Speaking(on) => (
            Panel { speaking: on, ..p },
            seq![Touch::WaveActive(on || p.listening)],
        ),
        engine::Signal::Level(bits) => (p, seq![Touch::Level(bits)]),
        engine::Signal::Partial(t) => (Panel { partial: t, ..p }, Seq::empty()),
        engine::Signal::Final(t) => (
            Panel {
                partial: Seq::empty(),
                last_final: Some(Message { text: t, at: now, error: false }),
                ..p
            },
            announced(t),
        ),
        engine::Signal::Mics { list, selected } => (
            Panel { mic_ids: mic_choices(list), ..p },
            seq![
                Touch::Mics {
                    names: mic_names(list),
                    index: choice_index(mic_choices(list), selected, 0),
                },
            ],
        ),
        engine::Signal::Notice(t) => (
            Panel { flash: Some(Message { text: t, at: now, error: false }), ..p },
            announced(t),
        ),
        engine::Signal::Error(t) => if p.ready || p.listening {
            (
                Panel { flash: Some(Message { text: t, at: now, error: true }), ..p },
                announced(t),
            )
        } else {
            // Nothing works until this is fixed: it stays on screen.
            (Panel { fatal: Some(t), ..p }, announced(t))
        },
        engine::Signal::SetVisible(v) => {
            let compact = match v {
                Some(show) => !show,
                None => !p.compact,
            };
            (Panel { compact, ..p }, seq![Touch::Compact(compact)])
        },
    }
}

// ---------------------------------------------------------------------------
// Code
// ---------------------------------------------------------------------------

fn announce(t: &str, out: &mut Vec<Change>)
    ensures
        touches(final(out)@) == touches(old(out)@) + announced(t@),
{
    let ghost before = touches(out@);
    if !t.is_empty() {
        out.push(Change::Announce(t.to_owned()));
    }
    assert(touches(out@) =~= before + announced(t@));
}

fn offer_names(list: &[MicInfo]) -> (r: Vec<String>)
    ensures
        names_of(r@) == mic_names(audio::mics(list@)),
{
    let ghost all = mic_names(audio::mics(list@));
    let mut out: Vec<String> = Vec::new();
    out.push("System default".to_owned());
    let mut i: usize = 0;
    assert(names_of(out@) =~= all.take(1));
    while i < list.len()
        invariant
            i <= list.len(),
            all == mic_names(audio::mics(list@)),
            names_of(out@) =~= all.take(i + 1),
        decreases list.len() - i,
    {
        let m = &list[i];
        let mut name = m.display();
        if m.is_default {
            append(&mut name, " •");
        }
        assert(audio::mics(list@)[i as int] == m@);
        assert(all[i + 1] == mic_name(m@));
        let ghost before = out@;
        out.push(name);
        assert(names_of(out@) =~= names_of(before).push(name@));
        i += 1;
    }
    assert(all.take(i + 1) =~= all);
    out
}

fn offer_ids(list: &[MicInfo]) -> (r: Vec<Option<String>>)
    ensures
        choices(r@) == mic_choices(audio::mics(list@)),
{
    let ghost all = mic_choices(audio::mics(list@));
    let mut out: Vec<Option<String>> = Vec::new();
    out.push(None);
    let mut i: usize = 0;
    assert(choices(out@) =~= all.take(1));
    while i < list.len()
        invariant
            i <= list.len(),
            all == mic_choices(audio::mics(list@)),
            choices(out@) =~= all.take(i + 1),
        decreases list.len() - i,
    {
        let id = Some(list[i].id.clone());
        assert(audio::mics(list@)[i as int] == list@[i as int]@);
        assert(all[i + 1] == engine::chosen(id));
        let ghost before = out@;
        out.push(id);
        assert(choices(out@) =~= choices(before).push(all[i + 1]));
        i += 1;
    }
    assert(all.take(i + 1) =~= all);
    out
}

fn is_choice(a: &Option<String>, b: &Option<String>) -> (r: bool)
    ensures
        r == (engine::chosen(*a) == engine::chosen(*b)),
{
    match (a, b) {
        (Some(a), Some(b)) => same_text(a, b),
        (None, None) => true,
        _ => false,
    }
}

fn find_choice(ids: &[Option<String>], selected: &Option<String>) -> (r: usize)
    ensures
        r == choice_index(choices(ids@), engine::chosen(*selected), 0),
{
    let ghost all = choices(ids@);
    let ghost want = engine::chosen(*selected);
    let mut i: usize = 0;
    while i < ids.len()
        invariant
            i <= ids.len(),
            all == choices(ids@),
            want == engine::chosen(*selected),
            choice_index(all, want, 0) == choice_index(all, want, i as nat),
        decreases ids.len() - i,
    {
        assert(all[i as int] == engine::chosen(ids@[i as int]));
        if is_choice(&ids[i], selected) {
            return i;
        }
        i += 1;
    }
    0
}

impl Overlay {
    pub fn new(cfg: Config) -> (r: Self)
        ensures
            r@ == (Panel {
                shortcuts: cfg.hotkeys.enabled,
                toggle_key: cfg.hotkeys.toggle@,
                stop_key: cfg.hotkeys.stop_speaking@,
                ready: false,
                download: None,
                listening: false,
                opening: false,
                hearing: false,
                transcribing: false,
                speaking: false,
                partial: Seq::empty(),
                last_final: None,
                flash: None,
                fatal: None,
                compact: !cfg.overlay.visible,
                mic_ids: seq![None],
            }),
    {
        let mut mic_ids: Vec<Option<String>> = Vec::new();
        mic_ids.push(None);
        assert(choices(mic_ids@) =~= seq![None]);
        Overlay {
            hotkeys: cfg.hotkeys,
            ready: false,
            download: None,
            listening: false,
            opening: false,
            hearing: false,
            transcribing: false,
            speaking: false,
            partial: String::new(),
            last_final: None,
            flash: None,
            fatal: None,
            compact: !cfg.overlay.visible,
            mic_ids,
        }
    }

    pub fn is_compact(&self) -> (r: bool)
        ensures
            r == self@.compact,
    {
        self.compact
    }

    pub fn is_listening(&self) -> (r: bool)
        ensures
            r == self@.listening,
    {
        self.listening
    }

    pub fn is_speaking(&self) -> (r: bool)
        ensures
            r == self@.speaking,
    {
        self.speaking
    }

    /// Takes the brief message away.
    pub fn clear_flash(&mut self)
        ensures
            final(self)@ == (Panel { flash: None, ..old(self)@ }),
    {
        self.flash = None;
    }

    /// Shows only the microphone button, or the full bar.
    pub fn set_compact(&mut self, compact: bool) -> (r: Change)
        ensures
            final(self)@ == (Panel { compact, ..old(self)@ }),
            r@ == Touch::Compact(compact),
    {
        self.compact = compact;
        Change::Compact(compact)
    }

    fn become_ready(&mut self, model: String, tts: String, now: u64, out: &mut Vec<Change>)
        ensures
            final(self)@ == handled(
                old(self)@,
                engine::Signal::Ready { model: model@, tts: tts@ },
                now,
            ).0,
            touches(final(out)@) == touches(old(out)@) + handled(
                old(self)@,
                engine::Signal::Ready { model: model@, tts: tts@ },
                now,
            ).1,
    {
        let ghost before = touches(out@);
        self.ready = true;
        self.download = None;
        let mut info = concat3("Whisper ", &model, " · voice: ");
        append(&mut info, &tts);
        out.push(Change::Info(info));
        self.flash = Some(
            Flash { text: concat("Ready — Whisper ", &model), at: now, error: false },
        );
        assert(touches(out@) =~= before + seq![
            Touch::Info("Whisper "@ + model@ + " · voice: "@ + tts@),
        ]);
    }

    fn set_listening(&mut self, on: bool, now: u64, out: &mut Vec<Change>)
        ensures
            final(self)@ == handled(old(self)@, engine::Signal::Listening(on), now).0,
            touches(final(out)@) == touches(old(out)@) + handled(
                old(self)@,
                engine::Signal::Listening(on),
                now,
            ).1,
    {
        let ghost before = touches(out@);
        let ghost h = handled(self@, engine::Signal::Listening(on), now);
        self.listening = on;
        self.opening = on;
        self.partial = String::new();
        out.push(Change::WaveActive(on));
        if on {
            out.push(Change::MicLabel("Stop dictation".to_owned()));
            out.push(Change::MicListening(true));
            self.fatal = None;
        } else {
            out.push(Change::MicLabel("Start dictation".to_owned()));
            out.push(Change::MicListening(false));
            out.push(Change::MicHearing(false));
            out.push(Change::Announce("Dictation off".to_owned()));
        }
        assert(touches(out@) =~= before + h.1);
    }

    fn set_mics(&mut self, list: &[MicInfo], selected: &Option<String>, out: &mut Vec<Change>)
        ensures
            final(self)@ == (Panel { mic_ids: mic_choices(audio::mics(list@)), ..old(self)@ }),
            touches(final(out)@) == touches(old(out)@).push(
                Touch::Mics {
                    names: mic_names(audio::mics(list@)),
                    index: choice_index(
                        mic_choices(audio::mics(list@)),
                        engine::chosen(*selected),
                        0,
                    ),
                },
            ),
    {
        let ghost before = touches(out@);
        let ids = offer_ids(list);
        let index = find_choice(&ids, selected);
        out.push(Change::Mics { names: offer_names(list), index });
        self.mic_ids = ids;
        assert(touches(out@) =~= before.push(out@.last()@));
    }

    /// Answers what the engine reports.
    pub fn handle(&mut self, event: UiEvent, now: u64) -> (r: Vec<Change>)
        ensures
            final(self)@ == handled(old(self)@, event@, now).0,
            touches(r@) == handled(old(self)@, event@, now).1,
    {
        let mut out: Vec<Change> = Vec::new();
        let ghost h = handled(self@, event@, now);
        let ghost none = touches(out@);
        assert(none =~= Seq::empty());
        assert(none + h.1 =~= h.1);
        match event {
            UiEvent::Ready { model, tts } => self.become_ready(model, tts, now, &mut out),
            UiEvent::ModelProgress(percent) => {
                self.download = Some(percent);
            },
            UiEvent::Loading(model) => {
                self.ready = false;
                self.download = None;
                out.push(Change::Info(concat3("Loading Whisper ", &model, "…")));
                assert(touches(out@) =~= h.1);
            },
            UiEvent::Listening(on) => self.set_listening(on, now, &mut out),
            UiEvent::MicLive => {
                self.opening = false;
                out.push(Change::Announce("Listening".to_owned()));
                assert(touches(out@) =~= h.1);
            },
            UiEvent::Hearing(on) => {
                self.hearing = on;
                out.push(Change::MicHearing(on));
                assert(touches(out@) =~= h.1);
            },
            UiEvent::Transcribing(on) => {
                self.transcribing = on;
            },
            UiEvent::Speaking(on) => {
                self.speaking = on;
                out.push(Change::WaveActive(on || self.listening));
                assert(touches(out@) =~= h.1);
            },
            UiEvent::Level(bits) => {
                out.push(Change::Level(bits));
                assert(touches(out@) =~= h.1);
            },
            UiEvent::Partial(t) => {
                self.partial = t;
            },
            UiEvent::Final(t) => {
                self.partial = String::new();
                announce(&t, &mut out);
                self.last_final = Some(Flash { text: t, at: now, error: false });
            },
            UiEvent::Mics { list, selected } => {
                self.set_mics(&list, &selected, &mut out);
                assert(touches(out@) =~= h.1);
            },
            UiEvent::Notice(t) => {
                announce(&t, &mut out);
                self.flash = Some(Flash { text: t, at: now, error: false });
            },
            UiEvent::Error(t) => {
                announce(&t, &mut out);
                if self.ready || self.listening {
                    self.flash = Some(Flash { text: t, at: now, error: true });
                } else {
                    self.fatal = Some(t);
                }
            },
            UiEvent::SetVisible(v) => {
                let compact = match v {
                    Some(show) => !show,
                    None => !self.compact,
                };
                let change = self.set_compact(compact);
                out.push(change);
                assert(touches(out@) =~= h.1);
            },
        }
        out
    }

    fn hint(&self, verb: &str) -> (r: String)
        ensures
            r@ == hint_text(self@, verb@),
    {
        if self.hotkeys.enabled && !self.hotkeys.toggle.as_str().is_empty() {
            let mut out = concat3("Press ", &self.hotkeys.toggle, " to ");
            append(&mut out, verb);
            out
        } else {
            concat("Click the microphone to ", verb)
        }
    }

    /// What the overlay says at the given time.
    pub fn status(&self, now: u64) -> (r: Status)
        ensures
            r@ == status_of(self@, now),
    {
        if let Some(why) = &self.fatal {
            return say("Something needs fixing", why.clone(), Tone::Error);
        }
        if let Some(f) = &self.flash {
            let ttl: u64 = if f.error {
                8000
            } else {
                4000
            };
            if now < f.at || now - f.at < ttl {
                return if f.error {
                    say("Problem", f.text.clone(), Tone::Error)
                } else {
                    say("RavenVoice", f.text.clone(), Tone::Normal)
                };
            }
        }
        if !self.ready {
            return match self.download {
                Some(percent) => say(
                    "Getting ready…",
                    concat3(
                        "Downloading speech model ",
                        &from_chars(&numeral_chars(percent as u64, 10)),
                        "%",
                    ),
                    Tone::Normal,
                ),
                None => say("Getting ready…", "Loading speech model".to_owned(), Tone::Normal),
            };
        }
        if self.speaking {
            let stop = if self.hotkeys.stop_speaking.as_str().is_empty() {
                "Use the chevron menu to stop".to_owned()
            } else {
                concat3("Press ", &self.hotkeys.stop_speaking, " to stop")
            };
            return say("Speaking…", stop, Tone::Normal);
        }
        if self.listening {
            if self.opening {
                return say("Opening microphone…", "One moment".to_owned(), Tone::Normal);
            }
            if !self.partial.as_str().is_empty() {
                return say("Hearing you…", self.partial.clone(), Tone::Live);
            }
            if self.hearing {
                return say("Hearing you…", self.hint("stop"), Tone::Normal);
            }
            if self.transcribing {
                return say("Writing…", self.hint("stop"), Tone::Normal);
            }
        }
        if let Some(f) = &self.last_final {
            if now < f.at || now - f.at < 5000 {
                return say("Typed", f.text.clone(), Tone::Done);
            }
        }
        if self.listening {
            say("Listening…", self.hint("stop"), Tone::Normal)
        } else {
            say("Ready to dictate", self.hint("start"), Tone::Normal)
        }
    }

    /// The microphone at a place of the list that is on offer.
    pub fn mic_at(&self, index: usize) -> (r: Option<String>)
        ensures
            engine::chosen(r) == if index < self@.mic_ids.len() {
                self@.mic_ids[index as int]
            } else {
                None
            },
    {
        if index < self.mic_ids.len() {
            match &self.mic_ids[index] {
                Some(id) => Some(id.clone()),
                None => None,
            }
        } else {
            None
        }
    }
}

fn say(title: &str, subtitle: String, tone: Tone) -> (r: Status)
    ensures
        r@ == shown(title@, subtitle@, tone),
{
    Status { title: title.to_owned(), subtitle, tone }
}

/// What is read aloud when the user asks for a text: the text as it is, if it says anything.
pub fn spoken(t: &str) -> (r: Option<Cmd>)
    ensures
        text::trim(t@).len() == 0 ==> r is None,
        text::trim(t@).len() > 0 ==> r is Some && r->0@ == engine::Order::Speak(t@),
{
    if trimmed(&to_chars(t)).len() == 0 {
        None
    } else {
        Some(Cmd::Speak(t.to_owned()))
    }
}

/// The icon and the label of the button that shrinks the bar and brings it back.
pub fn close_button(compact: bool) -> (r: (&'static str, &'static str))
    ensures
        r.0@ == if compact {
            "go-up-symbolic"@
        } else {
            "window-close-symbolic"@
        },
        r.1@ == if compact {
            "Show the full RavenVoice bar"@
        } else {
            "Shrink to the microphone button"@
        },
{
    if compact {
        ("go-up-symbolic", "Show the full RavenVoice bar")
    } else {
        ("window-close-symbolic", "Shrink to the microphone button")
    }
}

/// The sizes of text in points.
#[derive(Debug, Clone, Copy, PartialEq, Eq, Structural)]
pub struct FontSizes {
    pub base: u32,
    pub title: u32,
    pub small: u32,
}

/// The sizes that go with a configured size, which is kept within reason.
pub fn font_sizes(configured: u32) -> (r: FontSizes)
    ensures
        r.base == audio::clamped(configured as int, 8, 40),
        r.title == r.base + 2,
        r.small == if r.base == 8 {
            8
        } else {
            r.base - 1
        },
{
    let base: u32 = if configured < 8 {
        8
    } else if configured > 40 {
        40
    } else {
        configured
    };
    FontSizes {
        base,
        title: base + 2,
        small: if base == 8 {
            8
        } else {
            base - 1
        },
    }
}

/// The distance of the window from the edge of the screen. The bar itself leaves room for its
/// shadow.
pub fn edge_margin(configured: i32) -> (r: i32)
    requires
        configured - 14 >= i32::MIN,
    ensures
        r == if configured - 14 < 0 {
            0
        } else {
            configured - 14
        },
{
    let m: i32 = configured - 14;
    if m < 0 {
        0
    } else {
        m
    }
}

/// The bar hangs at the top of the screen, or else stands at its bottom.
pub fn at_top(position: &str) -> (r: bool)
    ensures
        r == (position@ == "top"@),
{
    same_text(position, "top")
}

// ---------------------------------------------------------------------------
// Laws
// ---------------------------------------------------------------------------

/// What has to be fixed stays on screen until dictation starts.
pub proof fn law_what_needs_fixing_stays(p: Panel, event: engine::Signal, now: u64, later: u64)
    requires
        p.fatal is Some,
        event != engine::Signal::Listening(true),
    ensures
        handled(p, event, now).0.fatal is Some,
        status_of(handled(p, event, now).0, later).title == "Something needs fixing"@,
{
}

/// An error or a notice is what the overlay says next, and no longer than its time.
pub proof fn law_messages_are_brief(p: Panel, t: Seq<char>, error: bool, now: u64, later: u64)
    requires
        p.fatal is None,
        p.ready,
        now <= later,
    ensures
        ({
            let event = if error {
                engine::Signal::Error(t)
            } else {
                engine::Signal::Notice(t)
            };
            let q = handled(p, event, now).0;
            let ttl: int = if error {
                8000
            } else {
                4000
            };
            if later - now < ttl {
                status_of(q, later).subtitle == t && status_of(q, later).tone == if error {
                    Tone::Error
                } else {
                    Tone::Normal
                }
            } else {
                status_of(q, later) == status_of(Panel { flash: None, ..p }, later)
            }
        }),
{
}

/// Toggling the bar twice leaves it as it was.
pub proof fn law_toggling_twice_changes_nothing(p: Panel, now: u64)
    ensures
        ({
            let once = handled(p, engine::Signal::SetVisible(None), now).0;
            handled(once, engine::Signal::SetVisible(None), now).0 == p
        }),
{
}

proof fn lemma_choice_found(
    ids: Seq<Option<Seq<char>>>,
    selected: Option<Seq<char>>,
    i: nat,
    j: int,
)
    requires
        i <= j < ids.len(),
        ids[j] == selected,
    ensures
        choice_index(ids, selected, i) < ids.len(),
        ids[choice_index(ids, selected, i) as int] == selected,
    decreases ids.len() - i,
{
    if ids[i as int] != selected {
        lemma_choice_found(ids, selected, i + 1, j);
    }
}

/// The chosen microphone, if it is there, is the one shown as chosen; otherwise the system
/// default is.
pub proof fn law_the_chosen_microphone_is_shown(
    p: Panel,
    list: Seq<audio::Mic>,
    selected: Option<Seq<char>>,
    now: u64,
)
    ensures
        ({
            let h = handled(p, engine::Signal::Mics { list, selected }, now);
            let index = choice_index(mic_choices(list), selected, 0);
            &&& h.1 == seq![Touch::Mics { names: mic_names(list), index }]
            &&& index < h.0.mic_ids.len()
            &&& h.0.mic_ids[index as int] == if h.0.mic_ids.contains(selected) {
                selected
            } else {
                None
            }
        }),
{
    let ids = mic_choices(list);
    if ids.contains(selected) {
        lemma_choice_found(ids, selected, 0, ids.index_of(selected));
    } else {
        lemma_choice_missing(ids, selected, 0);
    }
}

proof fn lemma_choice_missing(ids: Seq<Option<Seq<char>>>, selected: Option<Seq<char>>, i: nat)
    requires
        !ids.contains(selected),
    ensures
        choice_index(ids, selected, i) == 0,
    decreases ids.len() - i,
{
    if i < ids.len() {
        lemma_choice_missing(ids, selected, i + 1);
    }
}

/// The overlay says the most pressing thing first: what has to be fixed, a recent message, that it
/// is getting ready, that it is reading aloud; then what dictation is doing.
pub proof fn law_the_most_pressing_thing_is_said(p: Panel, now: u64)
    ensures
        ({
            let s = status_of(p, now);
            let age = |m: Message| now as int - m.at as int;
            let message = p.flash is Some && age(p.flash->0) < (if p.flash->0.error {
                8000int
            } else {
                4000int
            });
            let calm = p.fatal is None && !message;
            let up = calm && p.ready;
            &&& p.fatal is Some ==> s.title == "Something needs fixing"@ && s.subtitle
                == p.fatal->0 && s.tone is Error
            &&& p.fatal is None && message && p.flash->0.error ==> s.title == "Problem"@
                && s.subtitle == p.flash->0.text && s.tone is Error
            &&& p.fatal is None && message && !p.flash->0.error ==> s.title == "RavenVoice"@
                && s.subtitle == p.flash->0.text && s.tone is Normal
            &&& calm && !p.ready ==> s.title == "Getting ready…"@ && s.tone is Normal
            &&& calm && !p.ready && p.download is None ==> s.subtitle == "Loading speech model"@
            &&& calm && !p.ready && p.download is Some ==> s.subtitle
                == "Downloading speech model "@ + text::decimal(p.download->0 as nat) + "%"@
            &&& up && p.speaking ==> s.title == "Speaking…"@ && s.tone is Normal
            &&& up && p.speaking && p.stop_key.len() == 0 ==> s.subtitle
                == "Use the chevron menu to stop"@
            &&& up && p.speaking && p.stop_key.len() > 0 ==> s.subtitle == "Press "@ + p.stop_key
                + " to stop"@
        }),
{
}

/// While nothing else has to be said, the overlay follows dictation: the microphone opening, the
/// words heard so far, speech, work on it, what was typed for five seconds, and else that it is
/// listening, or ready to.
pub proof fn law_the_overlay_follows_dictation(p: Panel, now: u64)
    requires
        p.fatal is None,
        p.flash is None,
        p.ready,
        !p.speaking,
    ensures
        ({
            let s = status_of(p, now);
            let typed = p.last_final is Some && (now as int - p.last_final->0.at as int) < 5000;
            let words = p.partial.len() > 0;
            let idle = !p.listening || (!p.opening && !words && !p.hearing && !p.transcribing);
            &&& p.listening && p.opening ==> s.title == "Opening microphone…"@ && s.subtitle
                == "One moment"@ && s.tone is Normal
            &&& p.listening && !p.opening && words ==> s.title == "Hearing you…"@ && s.subtitle
                == p.partial && s.tone is Live
            &&& p.listening && !p.opening && !words && p.hearing ==> s.title == "Hearing you…"@
                && s.subtitle == hint_text(p, "stop"@) && s.tone is Normal
            &&& p.listening && !p.opening && !words && !p.hearing && p.transcribing ==> s.title
                == "Writing…"@ && s.subtitle == hint_text(p, "stop"@) && s.tone is Normal
            &&& idle && typed ==> s.title == "Typed"@ && s.subtitle == p.last_final->0.text
                && s.tone is Done
            &&& idle && !typed && p.listening ==> s.title == "Listening…"@ && s.subtitle
                == hint_text(p, "stop"@) && s.tone is Normal
            &&& idle && !typed && !p.listening ==> s.title == "Ready to dictate"@ && s.subtitle
                == hint_text(p, "start"@) && s.tone is Normal
        }),
{
}

/// The hint names the shortcut where there is one, and the microphone button where there is none.
pub proof fn law_the_hint_names_the_shortcut(p: Panel, verb: Seq<char>)
    ensures
        p.shortcuts && p.toggle_key.len() > 0 ==> hint_text(p, verb) == "Press "@ + p.toggle_key
            + " to "@ + verb,
        !p.shortcuts || p.toggle_key.len() == 0 ==> hint_text(p, verb)
            == "Click the microphone to "@ + verb,
{
}

/// While the models are fetched and loaded the overlay is not ready; once they are, it says so and
/// with what.
pub proof fn law_getting_ready_is_shown(
    p: Panel,
    model: Seq<char>,
    tts: Seq<char>,
    percent: u32,
    now: u64,
)
    ensures
        handled(p, engine::Signal::Ready { model, tts }, now) == (
            Panel {
                ready: true,
                download: None,
                flash: Some(
                    Message { text: "Ready — Whisper "@ + model, at: now, error: false },
                ),
                ..p
            },
            seq![Touch::Info("Whisper "@ + model + " · voice: "@ + tts)],
        ),
        handled(p, engine::Signal::ModelProgress(percent), now) == (
            Panel { download: Some(percent), ..p },
            Seq::<Touch>::empty(),
        ),
        handled(p, engine::Signal::Loading(model), now) == (
            Panel { ready: false, download: None, ..p },
            seq![Touch::Info("Loading Whisper "@ + model + "…"@)],
        ),
{
}

/// The microphone button, the waveform and screen readers follow dictation on and off.
pub proof fn law_the_button_follows_dictation(p: Panel, now: u64)
    ensures
        handled(p, engine::Signal::Listening(true), now) == (
            Panel { listening: true, opening: true, partial: Seq::empty(), fatal: None, ..p },
            seq![
                Touch::WaveActive(true),
                Touch::MicLabel("Stop dictation"@),
                Touch::MicListening(true),
            ],
        ),
        handled(p, engine::Signal::Listening(false), now) == (
            Panel { listening: false, opening: false, partial: Seq::empty(), ..p },
            seq![
                Touch::WaveActive(false),
                Touch::MicLabel("Start dictation"@),
                Touch::MicListening(false),
                Touch::MicHearing(false),
                Touch::Announce("Dictation off"@),
            ],
        ),
        handled(p, engine::Signal::MicLive, now) == (
            Panel { opening: false, ..p },
            seq![Touch::Announce("Listening"@)],
        ),
{
    assert(handled(p, engine::Signal::Listening(true), now).1 =~= seq![
        Touch::WaveActive(true),
        Touch::MicLabel("Stop dictation"@),
        Touch::MicListening(true),
    ]);
    assert(handled(p, engine::Signal::Listening(false), now).1 =~= seq![
        Touch::WaveActive(false),
        Touch::MicLabel("Start dictation"@),
        Touch::MicListening(false),
        Touch::MicHearing(false),
        Touch::Announce("Dictation off"@),
    ]);
}

/// Speech, work, reading aloud and the level each change their own part and no other.
pub proof fn law_activity_is_shown(p: Panel, on: bool, bits: u64, now: u64)
    ensures
        handled(p, engine::Signal::Hearing(on), now) == (
            Panel { hearing: on, ..p },
            seq![Touch::MicHearing(on)],
        ),
        handled(p, engine::Signal::Transcribing(on), now) == (
            Panel { transcribing: on, ..p },
            Seq::<Touch>::empty(),
        ),
        handled(p, engine::Signal::Speaking(on), now) == (
            Panel { speaking: on, ..p },
            seq![Touch::WaveActive(on || p.listening)],
        ),
        handled(p, engine::Signal::Level(bits), now) == (p, seq![Touch::Level(bits)]),
{
}

/// Words heard so far are shown until the phrase is finished; what was typed, notices and errors
/// are shown and told to screen readers, unless there is nothing to tell. Before anything works, an
/// error stays.
pub proof fn law_texts_are_shown_and_told(p: Panel, t: Seq<char>, now: u64)
    ensures
        ({
            let told = if t.len() > 0 {
                seq![Touch::Announce(t)]
            } else {
                Seq::empty()
            };
            let note = Message { text: t, at: now, error: false };
            let problem = Message { text: t, at: now, error: true };
            &&& handled(p, engine::Signal::Partial(t), now) == (
                Panel { partial: t, ..p },
                Seq::<Touch>::empty(),
            )
            &&& handled(p, engine::Signal::Final(t), now) == (
                Panel { partial: Seq::empty(), last_final: Some(note), ..p },
                told,
            )
            &&& handled(p, engine::Signal::Notice(t), now) == (
                Panel { flash: Some(note), ..p },
                told,
            )
            &&& p.ready || p.listening ==> handled(p, engine::Signal::Error(t), now) == (
                Panel { flash: Some(problem), ..p },
                told,
            )
            &&& !p.ready && !p.listening ==> handled(p, engine::Signal::Error(t), now) == (
                Panel { fatal: Some(t), ..p },
                told,
            )
        }),
{
}

/// The bar is shown, shrunk, or the other of the two, as asked.
pub proof fn law_the_bar_is_shown_as_asked(p: Panel, show: bool, now: u64)
    ensures
        handled(p, engine::Signal::SetVisible(Some(show)), now) == (
            Panel { compact: !show, ..p },
            seq![Touch::Compact(!show)],
        ),
        handled(p, engine::Signal::SetVisible(None), now) == (
            Panel { compact: !p.compact, ..p },
            seq![Touch::Compact(!p.compact)],
        ),
{
}

/// The list on offer is the system default and then every microphone, each by its name, the
/// present default marked, and in the same places as what each stands for.
pub proof fn law_every_microphone_is_on_offer(list: Seq<audio::Mic>, i: int)
    requires
        0 <= i < list.len(),
    ensures
        mic_names(list).len() == list.len() + 1,
        mic_choices(list).len() == list.len() + 1,
        mic_names(list)[0] == "System default"@,
        mic_choices(list)[0] is None,
        mic_choices(list)[i + 1] == Some(list[i].id),
        list[i].is_default ==> mic_names(list)[i + 1] == list[i].display_text() + " •"@,
        !list[i].is_default ==> mic_names(list)[i + 1] == list[i].display_text(),
{
}

/// Of several places that offer the same microphone, the first is the one shown as chosen.
pub proof fn law_the_first_place_is_chosen(
    ids: Seq<Option<Seq<char>>>,
    selected: Option<Seq<char>>,
    k: int,
    i: nat,
)
    requires
        i <= k < ids.len(),
        ids[k] == selected,
        forall|j: int| i <= j < k ==> #[trigger] ids[j] != selected,
    ensures
        choice_index(ids, selected, i) == k,
    decreases k - i,
{
    if i < k {
        assert(ids[i as int] != selected);
        law_the_first_place_is_chosen(ids, selected, k, i + 1);
    }
}

/// What is typed in to be read aloud is handed on as it stands, unless it is blank.
pub proof fn law_blank_texts_are_not_spoken(t: &str, r: Option<Cmd>)
    requires
        call_ensures(spoken, (t,), r),
    ensures
        r is None <==> forall|i: int| 0 <= i < t@.len() ==> text::whitespace(#[trigger] t@[i]),
        r is Some ==> r->0@ == engine::Order::Speak(t@),
{
    text::law_blank_texts_trim_to_nothing(t@);
}

/// The sizes of the text go by the one set, kept between 8 and 40; small text is never below 8.
pub proof fn law_sizes_go_by_the_one_set(configured: u32, r: FontSizes)
    requires
        call_ensures(font_sizes, (configured,), r),
    ensures
        8 <= configured <= 40 ==> r.base == configured,
        configured < 8 ==> r.base == 8,
        configured > 40 ==> r.base == 40,
        r.title == r.base + 2,
        r.base > 8 ==> r.small == r.base - 1,
        r.base == 8 ==> r.small == 8,
{
}

/// The bar keeps 14 less than the margin set from the edge, and never leaves the screen.
pub proof fn law_the_margin_stays_on_the_screen(configured: i32, r: i32)
    requires
        call_ensures(edge_margin, (configured,), r),
    ensures
        r >= 0,
        configured >= 14 ==> r == configured - 14,
        configured < 14 ==> r == 0,
{
}

/// The place chosen in the list stands for the microphone shown there.
pub proof fn law_places_stand_for_microphones(m: &Overlay, index: usize, r: Option<String>)
    requires
        call_ensures(Overlay::mic_at, (m, index), r),
    ensures
        index >= m@.mic_ids.len() ==> r is None,
        index < m@.mic_ids.len() && m@.mic_ids[index as int] is None ==> r is None,
        index < m@.mic_ids.len() && m@.mic_ids[index as int] is Some ==> r is Some && r->0@
            == m@.mic_ids[index as int]->0,
{
}

/// What is changed on screen is what is said: changes keep their order, and each its text.
pub proof fn law_changes_keep_what_they_say(
    changes: Seq<Change>,
    i: int,
    t: String,
    on: bool,
    bits: u64,
    names: Vec<String>,
    index: usize,
    k: int,
)
    ensures
        touches(changes).len() == changes.len(),
        0 <= i < changes.len() ==> touches(changes)[i] == changes[i]@,
        Change::Info(t)@ == Touch::Info(t@),
        Change::MicLabel(t)@ == Touch::MicLabel(t@),
        Change::Announce(t)@ == Touch::Announce(t@),
        Change::WaveActive(on)@ == Touch::WaveActive(on),
        Change::MicListening(on)@ == Touch::MicListening(on),
        Change::MicHearing(on)@ == Touch::MicHearing(on),
        Change::Compact(on)@ == Touch::Compact(on),
        Change::Level(bits)@ == Touch::Level(bits),
        ({
            let shown = (Change::Mics { names, index })@;
            &&& shown is Mics && shown->index == index && shown->names.len() == names@.len()
            &&& 0 <= k < names@.len() ==> shown->names[k] == names@[k]@
        }),
{
}

} // verus!
