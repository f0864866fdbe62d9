//! What happens around each transcription: whether a preview is still wanted, what becomes of the
//! text of a phrase, and which models are fetched and loaded.

use vstd::prelude::*;

use crate::commands;
use crate::commands::{interpret, Action};
use crate::config::{Accuracy, Config};
use crate::engine;
use crate::engine::{describe, typed_text, Cmd, TypeJob, UiEvent};
use crate::live;
use crate::live::LiveWords;
use crate::text;
use crate::text::{append, concat, concat3};

verus! {

/// Something the transcriber asks of the rest of the program, in the order given.
#[derive(Debug)]
pub enum SttEffect {
    /// Tell the overlay.
    Ui(UiEvent),
    /// Hand work to the keyboard.
    Type(TypeJob),
    /// Send a command to the engine.
    Send(Cmd),
    /// Keep the text as the one last dictated.
    Remember(String),
}

/// An effect with its texts as sequences of characters.
pub enum SttStep {
    Ui(engine::Signal),
    Type(engine::Typing),
    Send(engine::Order),
    Remember(Seq<char>),
}

impl View for SttEffect {
    type V = SttStep;

    open spec fn view(&self) -> SttStep {
        match self {
            SttEffect::Ui(e) => SttStep::Ui(e@),
            SttEffect::Type(j) => SttStep::Type(j@),
            SttEffect::Send(c) => SttStep::Send(c@),
            SttEffect::Remember(t) => SttStep::Remember(t@),
        }
    }
}

pub open spec fn stt_steps(effects: Seq<SttEffect>) -> Seq<SttStep> {
    effects.map_values(|e: SttEffect| e@)
}

/// Follows the phrases through transcription.
pub struct Scribe {
    cfg: Config,
    live: LiveWords,
    last_final_id: u64,
    context: String,
}

/// The live words, the last phrase that was finished, and everything dictated so far.
pub struct Notes {
    pub live: live::Draft,
    pub last_final: u64,
    pub context: Seq<char>,
}

impl View for Scribe {
    type V = Notes;

    closed spec fn view(&self) -> Notes {
        Notes { live: self.live@, last_final: self.last_final_id, context: self.context@ }
    }
}

/// What a preview of a phrase leads to; `heard` is `None` where the transcription failed.
pub open spec fn previewed(cfg: Config, n: Notes, id: u64, heard: Option<Seq<char>>) -> (
    Notes,
    Seq<SttStep>,
) {
    match heard {
        Some(t) if t.len() > 0 => {
            let u = live::updated(n.live, id, t, cfg.typing.voice_commands);
            let shown = if cfg.stt.live_preview {
                seq![SttStep::Ui(engine::Signal::Partial(t))]
            } else {
                Seq::empty()
            };
            if cfg.types_live() {
                let typed = match u.1 {
                    Some(s) => seq![SttStep::Type(engine::Typing::Stream(id, s))],
                    None => Seq::empty(),
                };
                (Notes { live: u.0, ..n }, typed + shown)
            } else {
                (n, shown)
            }
        },
        _ => (n, Seq::empty()),
    }
}

/// A transcript, or why there is none, as contracts speak of it.
pub open spec fn transcript_or_error(result: Result<String, String>) -> Result<
    Seq<char>,
    Seq<char>,
> {
    match result {
        Ok(t) => Ok(t@),
        Err(e) => Err(e@),
    }
}

/// What a finished phrase leads to. `left` is how many phrases still wait for their transcript.
pub open spec fn concluded(
    cfg: Config,
    n: Notes,
    id: u64,
    result: Result<Seq<char>, Seq<char>>,
    left: nat,
) -> (Notes, Seq<SttStep>) {
    let n = Notes { last_final: id, ..n };
    let done = if left == 0 {
        seq![SttStep::Ui(engine::Signal::Transcribing(false))]
    } else {
        Seq::empty()
    };
    match result {
        Err(e) => (n, done.push(SttStep::Ui(engine::Signal::Error(e)))),
        Ok(t) => {
            let acts = commands::interpreted(t, cfg.typing.voice_commands);
            let nothing = SttStep::Type(engine::Typing::Final(id, Seq::empty()));
            let typed = text::joined(engine::typed_parts(acts));
            if t.len() == 0 {
                // Take back anything typed live for a phrase that turned out to be nothing.
                (n, done.push(nothing).push(SttStep::Ui(engine::Signal::Partial(Seq::empty()))))
            } else if acts.contains(commands::Deed::StopListening) {
                (
                    n,
                    done.push(nothing).push(SttStep::Send(engine::Order::Stop)).push(
                        SttStep::Ui(engine::Signal::Final("Stopped listening"@)),
                    ),
                )
            } else {
                let last = seq![
                    SttStep::Ui(
                        engine::Signal::Final(text::joined(engine::descriptions(acts))),
                    ),
                    SttStep::Type(engine::Typing::Final(id, acts)),
                ];
                if typed.len() == 0 {
                    (n, done + last)
                } else {
                    let kept = done.push(SttStep::Remember(typed));
                    let echoed = if cfg.tts.echo_dictation {
                        kept.push(SttStep::Send(engine::Order::Speak(typed)))
                    } else {
                        kept
                    };
                    (Notes { context: n.context.push(' ') + typed, ..n }, echoed + last)
                }
            }
        },
    }
}

fn stops_listening(actions: &[Action]) -> (r: bool)
    ensures
        r == commands::deeds(actions@).contains(commands::Deed::StopListening),
{
    let ghost ds = commands::deeds(actions@);
    let mut i: usize = 0;
    while i < actions.len()
        invariant
            i <= actions.len(),
            ds == commands::deeds(actions@),
            forall|j: int| 0 <= j < i ==> #[trigger] ds[j] != commands::Deed::StopListening,
        decreases actions.len() - i,
    {
        assert(ds[i as int] == actions@[i as int]@);
        if let Action::StopListening = &actions[i] {
            return true;
        }
        i += 1;
    }
    false
}

impl Scribe {
    pub closed spec fn config(self) -> Config {
        self.cfg
    }

    pub fn new(cfg: Config) -> (r: Self)
        ensures
            r.config() == cfg,
            r@ == (Notes { live: live::blank(0), last_final: 0, context: Seq::empty() }),
    {
        Scribe { cfg, live: LiveWords::default(), last_final_id: 0, context: String::new() }
    }

    /// Whether to transcribe a preview: it is stale once that phrase is finished, or a finished
    /// one is waiting.
    pub fn wants_preview(&self, id: u64, final_waiting: bool) -> (r: bool)
        ensures
            r == (id > self@.last_final && !final_waiting),
    {
        id > self.last_final_id && !final_waiting
    }

    /// What Whisper is told of the text so far.
    pub fn context(&self) -> (r: &str)
        ensures
            r@ == if self.config().stt.use_context {
                self@.context
            } else {
                Seq::<char>::empty()
            },
    {
        if self.cfg.stt.use_context {
            self.context.as_str()
        } else {
            proof {
                reveal_strlit("");
                assert(""@ =~= Seq::empty());
            }
            ""
        }
    }

    /// Takes the transcript of a phrase that is still being spoken, if there is one.
    pub fn preview(&mut self, id: u64, heard: Option<String>) -> (r: Vec<SttEffect>)
        ensures
            final(self).config() == old(self).config(),
            ({
                let p = previewed(old(self).config(), old(self)@, id, engine::chosen(heard));
                &&& final(self)@ == p.0
                &&& stt_steps(r@) == p.1
            }),
    {
        let mut out: Vec<SttEffect> = Vec::new();
        let ghost p = previewed(self.cfg, self@, id, engine::chosen(heard));
        if let Some(t) = heard {
            if !t.as_str().is_empty() {
                if self.cfg.typing_live() {
                    if let Some(settled) = self.live.update(id, &t, &self.cfg) {
                        out.push(SttEffect::Type(TypeJob::Stream(id, settled)));
                    }
                }
                if self.cfg.stt.live_preview {
                    out.push(SttEffect::Ui(UiEvent::Partial(t)));
                }
            }
        }
        assert(stt_steps(out@) =~= p.1);
        out
    }

    /// Takes the transcript of a finished phrase, or why there is none.
    pub fn conclude(&mut self, id: u64, result: Result<String, String>, left: usize) -> (r: Vec<
        SttEffect,
    >)
        ensures
            final(self).config() == old(self).config(),
            ({
                let c = concluded(
                    old(self).config(),
                    old(self)@,
                    id,
                    transcript_or_error(result),
                    left as nat,
                );
                &&& final(self)@ == c.0
                &&& stt_steps(r@) == c.1
            }),
    {
        let mut out: Vec<SttEffect> = Vec::new();
        let ghost c = concluded(self.cfg, self@, id, transcript_or_error(result), left as nat);
        self.last_final_id = id;
        if left == 0 {
            out.push(SttEffect::Ui(UiEvent::Transcribing(false)));
        }
        match result {
            Err(e) => {
                out.push(SttEffect::Ui(UiEvent::Error(e)));
                assert(stt_steps(out@) =~= c.1);
                out
            },
            Ok(t) => {
                if t.as_str().is_empty() {
                    let none: Vec<Action> = Vec::new();
                    assert(commands::deeds(none@) =~= Seq::empty());
                    out.push(SttEffect::Type(TypeJob::Final(id, none)));
                    out.push(SttEffect::Ui(UiEvent::Partial(String::new())));
                    assert(stt_steps(out@) =~= c.1);
                    return out;
                }
                let actions = interpret(&t, self.cfg.typing.voice_commands);
                if stops_listening(&actions) {
                    let none: Vec<Action> = Vec::new();
                    assert(commands::deeds(none@) =~= Seq::empty());
                    out.push(SttEffect::Type(TypeJob::Final(id, none)));
                    out.push(SttEffect::Send(Cmd::Stop));
                    out.push(SttEffect::Ui(UiEvent::Final("Stopped listening".to_owned())));
                    assert(stt_steps(out@) =~= c.1);
                    return out;
                }
                let typed = typed_text(&actions);
                if !typed.as_str().is_empty() {
                    self.context.push(' ');
                    append(&mut self.context, &typed);
                    out.push(SttEffect::Remember(typed.clone()));
                    if self.cfg.tts.echo_dictation {
                        out.push(SttEffect::Send(Cmd::Speak(typed)));
                    }
                }
                out.push(SttEffect::Ui(UiEvent::Final(describe(&actions))));
                out.push(SttEffect::Type(TypeJob::Final(id, actions)));
                assert(stt_steps(out@) =~= c.1);
                out
            },
        }
    }

    // -----------------------------------------------------------------------
    // Models
    // -----------------------------------------------------------------------

    /// Whether the model for previews, or the one for finished phrases, is to be fetched before
    /// it is loaded. A file that the settings point to is never fetched.
    pub fn must_download(&self, preview: bool, exists: bool) -> (r: bool)
        ensures
            ({
                let stt = self.config().stt;
                let pinned = stt.model_path is Some && (preview || stt.final_model is None);
                r == (!exists && stt.auto_download && !pinned)
            }),
    {
        !exists && self.cfg.stt.auto_download && (self.cfg.stt.model_path.is_none() || (!preview
            && self.cfg.stt.final_model.is_some()))
    }

    /// What is said before a model is fetched.
    pub fn download_notice(&self, preview: bool) -> (r: UiEvent)
        ensures
            r@ == engine::Signal::Notice(
                "Downloading the "@ + self.config().stt.model_used(preview)
                    + " speech model (one time)…"@,
            ),
    {
        UiEvent::Notice(
            concat3(
                "Downloading the ",
                self.cfg.stt.model_for(preview),
                " speech model (one time)…",
            ),
        )
    }

    /// What is said when a model could not be fetched.
    pub fn download_failed(why: &str) -> (r: UiEvent)
        ensures
            r@ == engine::Signal::Error("Model download failed: "@ + why@),
    {
        UiEvent::Error(concat("Model download failed: ", why))
    }

    /// What is said while a model is loaded.
    pub fn loading(&self) -> (r: UiEvent)
        ensures
            r@ == engine::Signal::Loading(self.config().stt.model_used(false)),
    {
        UiEvent::Loading(self.cfg.stt.model_for(false).to_owned())
    }

    /// What is said once everything is loaded.
    pub fn ready(&self, tts: String) -> (r: UiEvent)
        ensures
            r@ == (engine::Signal::Ready {
                model: self.config().stt.model_used(false),
                tts: tts@,
            }),
    {
        UiEvent::Ready { model: self.cfg.stt.model_for(false).to_owned(), tts }
    }

    /// Switches to another accuracy; the models are then to be loaded anew.
    pub fn set_accuracy(&mut self, accuracy: Accuracy)
        ensures
            final(self)@ == old(self)@,
            Accuracy::mode_of(final(self).config().stt) == accuracy,
            Accuracy::switched(old(self).config().stt, final(self).config().stt),
            final(self).config().audio == old(self).config().audio,
            final(self).config().hotkeys == old(self).config().hotkeys,
            final(self).config().typing == old(self).config().typing,
            final(self).config().tts == old(self).config().tts,
            final(self).config().overlay == old(self).config().overlay,
    {
        accuracy.apply(&mut self.cfg.stt);
    }
}

// ---------------------------------------------------------------------------
// Laws
// ---------------------------------------------------------------------------

/// A phrase that has been finished is not previewed again, nor is any before it.
pub proof fn law_finished_phrases_stay_finished(
    cfg: Config,
    n: Notes,
    id: u64,
    result: Result<Seq<char>, Seq<char>>,
    left: nat,
    preview: u64,
)
    requires
        preview <= id,
    ensures
        !(preview > concluded(cfg, n, id, result, left).0.last_final),
{
}

/// Every finished phrase with a transcript reaches the keyboard exactly once, as the last word on
/// what was typed for it live.
pub proof fn law_every_phrase_is_settled(
    cfg: Config,
    n: Notes,
    id: u64,
    heard: Seq<char>,
    left: nat,
)
    ensures
        ({
            let s = concluded(cfg, n, id, Ok(heard), left).1;
            exists|i: int|
                {
                    &&& 0 <= i < s.len()
                    &&& is_final(#[trigger] s[i], id)
                    &&& forall|j: int| 0 <= j < s.len() && j != i ==> !(#[trigger] s[j] is Type)
                }
        }),
{
    let s = concluded(cfg, n, id, Ok(heard), left).1;
    let acts = commands::interpreted(heard, cfg.typing.voice_commands);
    if heard.len() == 0 || acts.contains(commands::Deed::StopListening) {
        let i = if left == 0 {
            1int
        } else {
            0
        };
        assert(is_final(s[i], id));
    } else {
        assert(is_final(s[s.len() - 1], id));
    }
}

pub open spec fn is_final(s: SttStep, id: u64) -> bool {
    match s {
        SttStep::Type(engine::Typing::Final(n, _)) => n == id,
        _ => false,
    }
}

/// What is kept to be read aloud is the text that the keyboard is given, and it also ends what
/// Whisper is told next.
pub proof fn law_the_last_text_is_what_was_typed(
    cfg: Config,
    n: Notes,
    id: u64,
    heard: Seq<char>,
    left: nat,
    i: int,
    j: int,
)
    ensures
        ({
            let c = concluded(cfg, n, id, Ok(heard), left);
            0 <= i < c.1.len() && 0 <= j < c.1.len() ==> match (c.1[i], c.1[j]) {
                (SttStep::Remember(t), SttStep::Type(engine::Typing::Final(_, acts))) => {
                    &&& t == text::joined(engine::typed_parts(acts))
                    &&& t.len() > 0
                    &&& c.0.context == n.context.push(' ') + t
                },
                _ => true,
            }
        }),
{
}

/// "Stop listening" types nothing, and dictation is stopped.
pub proof fn law_stop_listening_types_nothing(
    cfg: Config,
    n: Notes,
    id: u64,
    heard: Seq<char>,
    left: nat,
)
    requires
        cfg.typing.voice_commands,
        commands::whole_phrase(commands::normalized(heard)) == Some(
            commands::Deed::StopListening,
        ),
    ensures
        concluded(cfg, n, id, Ok(heard), left).1.contains(SttStep::Send(engine::Order::Stop)),
        concluded(cfg, n, id, Ok(heard), left).1.contains(
            SttStep::Type(engine::Typing::Final(id, Seq::empty())),
        ),
        concluded(cfg, n, id, Ok(heard), left).0.context == n.context,
{
    let s = concluded(cfg, n, id, Ok(heard), left).1;
    let acts = commands::interpreted(heard, true);
    commands::law_commands_run_alone(heard);
    assert(acts[0] == commands::Deed::StopListening);
    let i = if left == 0 {
        1int
    } else {
        0
    };
    assert(s[i] == SttStep::Type(engine::Typing::Final(id, Seq::empty())));
    assert(s[i + 1] == SttStep::Send(engine::Order::Stop));
}

/// A preview is shown where previews are wanted and its settled words are typed where live typing
/// is on; one that failed or holds nothing changes nothing.
pub proof fn law_previews_are_shown_and_typed(
    cfg: Config,
    n: Notes,
    id: u64,
    heard: Seq<char>,
)
    ensures
        previewed(cfg, n, id, None) == (n, Seq::<SttStep>::empty()),
        heard.len() == 0 ==> previewed(cfg, n, id, Some(heard)) == (n, Seq::<SttStep>::empty()),
        heard.len() > 0 ==> {
            let p = previewed(cfg, n, id, Some(heard));
            let u = live::updated(n.live, id, heard, cfg.typing.voice_commands);
            let live_typing = cfg.types_live();
            let words = live_typing && u.1 is Some;
            let show = SttStep::Ui(engine::Signal::Partial(heard));
            let type_ = SttStep::Type(engine::Typing::Stream(id, u.1->0));
            &&& words && cfg.stt.live_preview ==> p.1 == seq![type_, show]
            &&& words && !cfg.stt.live_preview ==> p.1 == seq![type_]
            &&& !words && cfg.stt.live_preview ==> p.1 == seq![show]
            &&& !words && !cfg.stt.live_preview ==> p.1.len() == 0
            &&& p.0.live == (if live_typing {
                u.0
            } else {
                n.live
            })
            &&& p.0.last_final == n.last_final
            &&& p.0.context == n.context
        },
{
    if heard.len() > 0 {
        let p = previewed(cfg, n, id, Some(heard));
        let u = live::updated(n.live, id, heard, cfg.typing.voice_commands);
        let show = SttStep::Ui(engine::Signal::Partial(heard));
        let type_ = SttStep::Type(engine::Typing::Stream(id, u.1->0));
        if cfg.types_live() && u.1 is Some {
            if cfg.stt.live_preview {
                assert(p.1 =~= seq![type_, show]);
            } else {
                assert(p.1 =~= seq![type_]);
            }
        } else if cfg.stt.live_preview {
            assert(p.1 =~= seq![show]);
        }
    }
}

/// A finished phrase that is no request to stop is typed as what its transcript comes to, and shown
/// as that. What was typed of it is remembered, is what Whisper is told next, and is read aloud
/// where that is wanted. The overlay stops showing work once no phrase is left.
pub proof fn law_finished_phrases_are_typed_and_shown(
    cfg: Config,
    n: Notes,
    id: u64,
    heard: Seq<char>,
    left: nat,
)
    requires
        heard.len() > 0,
        !commands::interpreted(heard, cfg.typing.voice_commands).contains(
            commands::Deed::StopListening,
        ),
    ensures
        ({
            let c = concluded(cfg, n, id, Ok(heard), left);
            let acts = commands::interpreted(heard, cfg.typing.voice_commands);
            let typed = text::joined(engine::typed_parts(acts));
            let done = if left == 0 {
                seq![SttStep::Ui(engine::Signal::Transcribing(false))]
            } else {
                Seq::empty()
            };
            let last = seq![
                SttStep::Ui(engine::Signal::Final(text::joined(engine::descriptions(acts)))),
                SttStep::Type(engine::Typing::Final(id, acts)),
            ];
            let remember = SttStep::Remember(typed);
            let echo = SttStep::Send(engine::Order::Speak(typed));
            &&& typed.len() == 0 ==> c.1 == done + last && c.0.context == n.context
            &&& typed.len() > 0 && cfg.tts.echo_dictation ==> c.1 == done + seq![remember, echo]
                + last
            &&& typed.len() > 0 && !cfg.tts.echo_dictation ==> c.1 == done + seq![remember] + last
            &&& typed.len() > 0 ==> c.0.context == n.context + seq![' '] + typed
            &&& c.0.last_final == id
            &&& c.0.live == n.live
        }),
{
    let c = concluded(cfg, n, id, Ok(heard), left);
    let acts = commands::interpreted(heard, cfg.typing.voice_commands);
    let typed = text::joined(engine::typed_parts(acts));
    let done = if left == 0 {
        seq![SttStep::Ui(engine::Signal::Transcribing(false))]
    } else {
        Seq::empty()
    };
    let last = seq![
        SttStep::Ui(engine::Signal::Final(text::joined(engine::descriptions(acts)))),
        SttStep::Type(engine::Typing::Final(id, acts)),
    ];
    let remember = SttStep::Remember(typed);
    let echo = SttStep::Send(engine::Order::Speak(typed));
    assert(n.context.push(' ') + typed =~= n.context + seq![' '] + typed);
    if typed.len() > 0 {
        if cfg.tts.echo_dictation {
            assert(c.1 =~= done + seq![remember, echo] + last);
        } else {
            assert(c.1 =~= done + seq![remember] + last);
        }
    }
}

/// A phrase that came to nothing takes back what was typed of it live, one that failed says why,
/// and a request to stop is sent on, takes back its own words, and is shown.
pub proof fn law_phrases_without_text_leave_nothing(
    cfg: Config,
    n: Notes,
    id: u64,
    heard: Seq<char>,
    why: Seq<char>,
    left: nat,
)
    ensures
        ({
            let done = if left == 0 {
                seq![SttStep::Ui(engine::Signal::Transcribing(false))]
            } else {
                Seq::empty()
            };
            let nothing = SttStep::Type(engine::Typing::Final(id, Seq::empty()));
            let after = Notes { last_final: id, ..n };
            &&& concluded(cfg, n, id, Err(why), left) == (
                after,
                done + seq![SttStep::Ui(engine::Signal::Error(why))],
            )
            &&& concluded(cfg, n, id, Ok(Seq::empty()), left) == (
                after,
                done + seq![nothing, SttStep::Ui(engine::Signal::Partial(Seq::empty()))],
            )
            &&& heard.len() > 0 && commands::interpreted(
                heard,
                cfg.typing.voice_commands,
            ).contains(commands::Deed::StopListening) ==> concluded(cfg, n, id, Ok(heard), left)
                == (
                after,
                done + seq![
                    nothing,
                    SttStep::Send(engine::Order::Stop),
                    SttStep::Ui(engine::Signal::Final("Stopped listening"@)),
                ],
            )
        }),
{
    let done = if left == 0 {
        seq![SttStep::Ui(engine::Signal::Transcribing(false))]
    } else {
        Seq::empty()
    };
    let nothing = SttStep::Type(engine::Typing::Final(id, Seq::empty()));
    assert(concluded(cfg, n, id, Err(why), left).1 =~= done + seq![
        SttStep::Ui(engine::Signal::Error(why)),
    ]);
    assert(concluded(cfg, n, id, Ok(Seq::empty()), left).1 =~= done + seq![
        nothing,
        SttStep::Ui(engine::Signal::Partial(Seq::empty())),
    ]);
    if heard.len() > 0 && commands::interpreted(heard, cfg.typing.voice_commands).contains(
        commands::Deed::StopListening,
    ) {
        assert(concluded(cfg, n, id, Ok(heard), left).1 =~= done + seq![
            nothing,
            SttStep::Send(engine::Order::Stop),
            SttStep::Ui(engine::Signal::Final("Stopped listening"@)),
        ]);
    }
}

/// A model is fetched when it is missing and may be, and never in place of a file of one's own.
/// The file of one's own is the only model, unless there is a second one for finished phrases.
pub proof fn law_missing_models_are_fetched(s: &Scribe, preview: bool, exists: bool, r: bool)
    requires
        call_ensures(Scribe::must_download, (s, preview, exists), r),
    ensures
        ({
            let stt = s.config().stt;
            &&& exists ==> !r
            &&& !stt.auto_download ==> !r
            &&& stt.model_path is Some && preview ==> !r
            &&& stt.model_path is Some && stt.final_model is None ==> !r
            &&& !exists && stt.auto_download && stt.model_path is None ==> r
            &&& !exists && stt.auto_download && stt.final_model is Some && !preview ==> r
        }),
{
}

/// Previews are wanted of phrases that are not finished, and only while no finished one waits.
pub proof fn law_previews_give_way_to_finished_phrases(s: &Scribe, id: u64, waiting: bool, r: bool)
    requires
        call_ensures(Scribe::wants_preview, (s, id, waiting), r),
    ensures
        waiting ==> !r,
        id <= s@.last_final ==> !r,
        !waiting && id > s@.last_final ==> r,
{
}

/// What was said before is handed on as context only where that is wanted.
pub proof fn law_context_is_handed_on_where_wanted(s: &Scribe, r: &str)
    requires
        call_ensures(Scribe::context, (s,), r),
    ensures
        s.config().stt.use_context ==> r@ == s@.context,
        !s.config().stt.use_context ==> r@.len() == 0,
{
}

/// What comes of a transcript is what is said: effects keep their order, and each what it holds.
pub proof fn law_effects_keep_what_they_hold(
    effects: Seq<SttEffect>,
    i: int,
    e: UiEvent,
    j: TypeJob,
    c: Cmd,
    t: String,
)
    ensures
        stt_steps(effects).len() == effects.len(),
        0 <= i < effects.len() ==> stt_steps(effects)[i] == effects[i]@,
        SttEffect::Ui(e)@ == SttStep::Ui(e@),
        SttEffect::Type(j)@ == SttStep::Type(j@),
        SttEffect::Send(c)@ == SttStep::Send(c@),
        SttEffect::Remember(t)@ == SttStep::Remember(t@),
{
}

} // verus!
