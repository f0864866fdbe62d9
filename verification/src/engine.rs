//! What passes between the parts of the dictation engine: microphone -> phrase detection ->
//! Whisper -> typing, plus text-to-speech.

use vstd::prelude::*;

use crate::audio;
use crate::audio::MicInfo;
use crate::commands;
use crate::commands::{Action, NamedKey};
use crate::config::Accuracy;
use crate::text;
use crate::text::{debug_char, extend_chars, from_chars, join_words, to_ascii_upper, to_chars};

verus! {

// ---------------------------------------------------------------------------
// Commands to the engine
// ---------------------------------------------------------------------------

#[derive(Debug, Clone)]
pub enum Cmd {
    Toggle,
    Start,
    Stop,
    PushToTalkDown,
    PushToTalkUp,
    SelectDevice(Option<String>),
    SetAccuracy(Accuracy),
    Speak(String),
    SpeakLast,
    StopSpeaking,
}

/// A command with its texts as sequences of characters.
pub enum Order {
    Toggle,
    Start,
    Stop,
    PushToTalkDown,
    PushToTalkUp,
    SelectDevice(Option<Seq<char>>),
    SetAccuracy(Accuracy),
    Speak(Seq<char>),
    SpeakLast,
    StopSpeaking,
}

/// An optional text as contracts speak of it.
pub open spec fn chosen(s: Option<String>) -> Option<Seq<char>> {
    match s {
        Some(s) => Some(s@),
        None => None,
    }
}

impl View for Cmd {
    type V = Order;

    open spec fn view(&self) -> Order {
        match self {
            Cmd::Toggle => Order::Toggle,
            Cmd::Start => Order::Start,
            Cmd::Stop => Order::Stop,
            Cmd::PushToTalkDown => Order::PushToTalkDown,
            Cmd::PushToTalkUp => Order::PushToTalkUp,
            Cmd::SelectDevice(id) => Order::SelectDevice(chosen(*id)),
            Cmd::SetAccuracy(a) => Order::SetAccuracy(*a),
            Cmd::Speak(t) => Order::Speak(t@),
            Cmd::SpeakLast => Order::SpeakLast,
            Cmd::StopSpeaking => Order::StopSpeaking,
        }
    }
}

// ---------------------------------------------------------------------------
// What the overlay is told
// ---------------------------------------------------------------------------

#[derive(Debug, Clone)]
pub enum UiEvent {
    /// Model loaded; the engine is ready.
    Ready { model: String, tts: String },
    /// How much of a speech model has been fetched, in percent.
    ModelProgress(u32),
    /// A speech model is being loaded.
    Loading(String),
    Listening(bool),
    /// Audio is flowing from the microphone; speak now.
    MicLive,
    /// Speech is currently being heard.
    Hearing(bool),
    /// Phrases waiting for Whisper.
    Transcribing(bool),
    Speaking(bool),
    /// The level on the meter, as the bits of a double between zero and one.
    Level(u64),
    Partial(String),
    /// Text that was typed (or a command that ran).
    Final(String),
    Mics { list: Vec<MicInfo>, selected: Option<String> },
    Notice(String),
    Error(String),
    SetVisible(Option<bool>),
}

/// An event with its texts as sequences of characters.
pub enum Signal {
    Ready { model: Seq<char>, tts: Seq<char> },
    ModelProgress(u32),
    Loading(Seq<char>),
    Listening(bool),
    MicLive,
    Hearing(bool),
    Transcribing(bool),
    Speaking(bool),
    Level(u64),
    Partial(Seq<char>),
    Final(Seq<char>),
    Mics { list: Seq<audio::Mic>, selected: Option<Seq<char>> },
    Notice(Seq<char>),
    Error(Seq<char>),
    SetVisible(Option<bool>),
}

impl View for UiEvent {
    type V = Signal;

    open spec fn view(&self) -> Signal {
        match self {
            UiEvent::Ready { model, tts } => Signal::Ready { model: model@, tts: tts@ },
            UiEvent::ModelProgress(p) => Signal::ModelProgress(*p),
            UiEvent::Loading(m) => Signal::Loading(m@),
            UiEvent::Listening(on) => Signal::Listening(*on),
            UiEvent::MicLive => Signal::MicLive,
            UiEvent::Hearing(on) => Signal::Hearing(*on),
            UiEvent::Transcribing(on) => Signal::Transcribing(*on),
            UiEvent::Speaking(on) => Signal::Speaking(*on),
            UiEvent::Level(bits) => Signal::Level(*bits),
            UiEvent::Partial(t) => Signal::Partial(t@),
            UiEvent::Final(t) => Signal::Final(t@),
            UiEvent::Mics { list, selected } => Signal::Mics {
                list: audio::mics(list@),
                selected: chosen(*selected),
            },
            UiEvent::Notice(t) => Signal::Notice(t@),
            UiEvent::Error(t) => Signal::Error(t@),
            UiEvent::SetVisible(v) => Signal::SetVisible(*v),
        }
    }
}

/// State other parts of the program (the control socket) can query.
#[derive(Debug, Clone)]
pub struct Shared {
    pub listening: bool,
    pub speaking: bool,
    pub last_text: String,
}

impl Default for Shared {
    fn default() -> (r: Self)
        ensures
            !r.listening,
            !r.speaking,
            r.last_text@ == Seq::<char>::empty(),
    {
        Shared { listening: false, speaking: false, last_text: String::new() }
    }
}

// ---------------------------------------------------------------------------
// Work for the transcriber and for the keyboard
// ---------------------------------------------------------------------------

/// Phrases are numbered so live typing and the final transcript of the same phrase can be matched
/// up.
pub enum SttJob<S> {
    Final(u64, Vec<S>),
    Partial(u64, Vec<S>),
}

#[derive(Debug)]
pub enum TypeJob {
    /// Words of a phrase still being spoken that have stopped changing.
    Stream(u64, String),
    /// The finished phrase.
    Final(u64, Vec<Action>),
    Reset,
}

/// Work for the keyboard, with its texts as sequences of characters.
pub enum Typing {
    Stream(u64, Seq<char>),
    Final(u64, Seq<commands::Deed>),
    Reset,
}

impl View for TypeJob {
    type V = Typing;

    open spec fn view(&self) -> Typing {
        match self {
            TypeJob::Stream(id, t) => Typing::Stream(*id, t@),
            TypeJob::Final(id, actions) => Typing::Final(*id, commands::deeds(actions@)),
            TypeJob::Reset => Typing::Reset,
        }
    }
}

// ---------------------------------------------------------------------------
// Saying what was done
// ---------------------------------------------------------------------------

/// The name of a key.
pub open spec fn key_name(key: NamedKey) -> Seq<char> {
    match key {
        NamedKey::Enter => "Enter"@,
        NamedKey::Tab => "Tab"@,
        NamedKey::Escape => "Escape"@,
        NamedKey::Backspace => "Backspace"@,
        NamedKey::Char(c) => "Char("@ + text::debug_char_text(c) + ")"@,
    }
}

/// What the overlay shows for one action.
pub open spec fn description(d: commands::Deed) -> Seq<char> {
    match d {
        commands::Deed::Text(t) => t,
        commands::Deed::DeleteLast => "⌫ deleted last phrase"@,
        commands::Deed::StopListening => "stopped"@,
        commands::Deed::Key(k) => match k.key {
            NamedKey::Enter if !k.ctrl => "↵"@,
            NamedKey::Char(c) if k.ctrl => "Ctrl+"@.push(text::raised(c)),
            other => key_name(other),
        },
    }
}

pub open spec fn descriptions(ds: Seq<commands::Deed>) -> Seq<Seq<char>> {
    ds.map_values(|d: commands::Deed| description(d))
}

fn describe_key(key: NamedKey) -> (r: Vec<char>)
    ensures
        r@ == key_name(key),
{
    match key {
        NamedKey::Enter => to_chars("Enter"),
        NamedKey::Tab => to_chars("Tab"),
        NamedKey::Escape => to_chars("Escape"),
        NamedKey::Backspace => to_chars("Backspace"),
        NamedKey::Char(c) => {
            let mut out = to_chars("Char(");
            extend_chars(&mut out, &to_chars(&debug_char(c)));
            extend_chars(&mut out, &to_chars(")"));
            out
        },
    }
}

fn describe_one(a: &Action) -> (r: Vec<char>)
    ensures
        r@ == description(a@),
{
    match a {
        Action::Text(t) => to_chars(t),
        Action::DeleteLast => to_chars("⌫ deleted last phrase"),
        Action::StopListening => to_chars("stopped"),
        Action::Key(k) => match k.key {
            NamedKey::Enter => if k.ctrl {
                describe_key(k.key)
            } else {
                to_chars("↵")
            },
            NamedKey::Char(c) => if k.ctrl {
                let mut out = to_chars("Ctrl+");
                out.push(to_ascii_upper(c));
                out
            } else {
                describe_key(k.key)
            },
            _ => describe_key(k.key),
        },
    }
}

/// What the overlay shows for a phrase: the text, or the command that ran.
pub fn describe(actions: &[Action]) -> (r: String)
    ensures
        r@ == text::joined(descriptions(commands::deeds(actions@))),
{
    let mut parts: Vec<Vec<char>> = Vec::new();
    let ghost ds = descriptions(commands::deeds(actions@));
    let mut i: usize = 0;
    while i < actions.len()
        invariant
            i <= actions.len(),
            ds == descriptions(commands::deeds(actions@)),
            text::texts(parts@) =~= ds.take(i as int),
        decreases actions.len() - i,
    {
        let ghost before = parts@;
        parts.push(describe_one(&actions[i]));
        assert(text::texts(parts@) =~= text::texts(before).push(ds[i as int]));
        i += 1;
    }
    assert(ds.take(i as int) =~= ds);
    from_chars(&join_words(&parts))
}

/// The texts among the actions.
pub open spec fn typed_parts(ds: Seq<commands::Deed>) -> Seq<Seq<char>>
    decreases ds.len(),
{
    if ds.len() == 0 {
        Seq::empty()
    } else {
        let before = typed_parts(ds.drop_last());
        match ds.last() {
            commands::Deed::Text(t) => before.push(t),
            _ => before,
        }
    }
}

/// The text that a phrase amounts to, without its commands.
pub fn typed_text(actions: &[Action]) -> (r: String)
    ensures
        r@ == text::joined(typed_parts(commands::deeds(actions@))),
{
    let mut parts: Vec<Vec<char>> = Vec::new();
    let ghost ds = commands::deeds(actions@);
    let mut i: usize = 0;
    assert(text::texts(parts@) =~= typed_parts(ds.take(0)));
    while i < actions.len()
        invariant
            i <= actions.len(),
            ds == commands::deeds(actions@),
            text::texts(parts@) == typed_parts(ds.take(i as int)),
        decreases actions.len() - i,
    {
        assert(ds.take(i + 1).drop_last() =~= ds.take(i as int));
        assert(ds[i as int] == actions@[i as int]@);
        if let Action::Text(t) = &actions[i] {
            let ghost before = parts@;
            parts.push(to_chars(t));
            assert(text::texts(parts@) =~= text::texts(before).push(t@));
        }
        i += 1;
    }
    assert(ds.take(i as int) =~= ds);
    from_chars(&join_words(&parts))
}

// ---------------------------------------------------------------------------
// Laws
// ---------------------------------------------------------------------------

/// Text is shown as it is, and every command by a sign of its own: Enter as an arrow, a shortcut
/// as Ctrl and its capital, any other key by its name.
pub proof fn law_actions_are_shown_for_what_they_are(t: Seq<char>, k: commands::KeyCombo)
    ensures
        description(commands::Deed::Text(t)) == t,
        description(commands::Deed::DeleteLast) == "⌫ deleted last phrase"@,
        description(commands::Deed::StopListening) == "stopped"@,
        k.key is Enter && !k.ctrl ==> description(commands::Deed::Key(k)) == "↵"@,
        k.key is Enter && k.ctrl ==> description(commands::Deed::Key(k)) == "Enter"@,
        k.key is Tab ==> description(commands::Deed::Key(k)) == "Tab"@,
        k.key is Escape ==> description(commands::Deed::Key(k)) == "Escape"@,
        k.key is Backspace ==> description(commands::Deed::Key(k)) == "Backspace"@,
        k.key is Char && !k.ctrl ==> description(commands::Deed::Key(k)) == "Char("@
            + text::debug_char_text(k.key->Char_0) + ")"@,
        k.key is Char && k.ctrl ==> {
            let c = k.key->Char_0;
            let d = description(commands::Deed::Key(k));
            &&& d.len() == 6
            &&& d.take(5) == "Ctrl+"@
            &&& 'a' <= c <= 'z' ==> d[5] as u32 == c as u32 - 32
            &&& !('a' <= c <= 'z') ==> d[5] == c
        },
{
    reveal_strlit("Ctrl+");
    if k.key is Char && k.ctrl {
        let d = description(commands::Deed::Key(k));
        assert(d.take(5) =~= "Ctrl+"@);
    }
}

/// Every action is shown, in its order.
pub proof fn law_every_action_is_shown(ds: Seq<commands::Deed>, i: int)
    requires
        0 <= i < ds.len(),
    ensures
        descriptions(ds).len() == ds.len(),
        descriptions(ds)[i] == description(ds[i]),
{
}

/// A phrase amounts to its texts, all of them and in their order, and to nothing else.
pub proof fn law_a_phrase_amounts_to_its_texts(ds: Seq<commands::Deed>, d: commands::Deed)
    ensures
        typed_parts(Seq::empty()).len() == 0,
        d matches commands::Deed::Text(t) ==> typed_parts(ds.push(d)) == typed_parts(ds).push(t),
        !(d is Text) ==> typed_parts(ds.push(d)) == typed_parts(ds),
{
    assert(ds.push(d).drop_last() =~= ds);
}

/// What is handed over says what it is: commands, signals and work keep their kind and their
/// texts.
pub proof fn law_messages_keep_their_texts(t: String, id: u64, s: Option<String>, on: bool)
    ensures
        Cmd::Speak(t)@ == Order::Speak(t@),
        Cmd::SelectDevice(s)@ == Order::SelectDevice(match s {
            Some(x) => Some(x@),
            None => None,
        }),
        Cmd::Toggle@ is Toggle && Cmd::Start@ is Start && Cmd::Stop@ is Stop,
        Cmd::PushToTalkDown@ is PushToTalkDown && Cmd::PushToTalkUp@ is PushToTalkUp,
        Cmd::SpeakLast@ is SpeakLast && Cmd::StopSpeaking@ is StopSpeaking,
        UiEvent::Listening(on)@ == Signal::Listening(on),
        UiEvent::Hearing(on)@ == Signal::Hearing(on),
        UiEvent::Transcribing(on)@ == Signal::Transcribing(on),
        UiEvent::Speaking(on)@ == Signal::Speaking(on),
        UiEvent::Partial(t)@ == Signal::Partial(t@),
        UiEvent::Final(t)@ == Signal::Final(t@),
        UiEvent::Notice(t)@ == Signal::Notice(t@),
        UiEvent::Error(t)@ == Signal::Error(t@),
        UiEvent::Loading(t)@ == Signal::Loading(t@),
        UiEvent::Level(id)@ == Signal::Level(id),
        UiEvent::MicLive@ is MicLive,
        TypeJob::Stream(id, t)@ == Typing::Stream(id, t@),
        TypeJob::Reset@ is Reset,
        Action::Text(t)@ == commands::Deed::Text(t@),
        Action::DeleteLast@ is DeleteLast && Action::StopListening@ is StopListening,
{
}

/// What a message says besides texts is kept as well, and lists keep their order.
pub proof fn law_messages_keep_the_rest(
    t: String,
    id: u64,
    a: Accuracy,
    percent: u32,
    visible: Option<bool>,
    k: commands::KeyCombo,
    actions: Vec<Action>,
    list: Vec<MicInfo>,
    selected: Option<String>,
    i: int,
)
    ensures
        (UiEvent::Ready { model: t, tts: t })@ == (Signal::Ready { model: t@, tts: t@ }),
        Cmd::SetAccuracy(a)@ == Order::SetAccuracy(a),
        UiEvent::ModelProgress(percent)@ == Signal::ModelProgress(percent),
        UiEvent::SetVisible(visible)@ == Signal::SetVisible(visible),
        Action::Key(k)@ == commands::Deed::Key(k),
        ({
            let job = TypeJob::Final(id, actions)@;
            &&& job is Final && job->Final_0 == id && job->Final_1.len() == actions@.len()
            &&& 0 <= i < actions@.len() ==> job->Final_1[i] == actions@[i]@
        }),
        ({
            let event = (UiEvent::Mics { list, selected })@;
            &&& event is Mics && event->list.len() == list@.len()
            &&& 0 <= i < list@.len() ==> event->list[i] == (audio::Mic {
                id: list@[i].id@,
                name: list@[i].name@,
                kind: list@[i].kind,
                is_default: list@[i].is_default,
            })
            &&& selected is None ==> event->selected is None
            &&& selected is Some ==> event->selected == Some(selected->0@)
        }),
{
}

} // verus!
