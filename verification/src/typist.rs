//! Between the transcriber and the virtual keyboard: the keyboard is opened when it is first
//! needed, and anew after something went wrong.

use vstd::prelude::*;

use crate::config::TypingConfig;
use crate::engine;
use crate::engine::{TypeJob, UiEvent};
use crate::text::concat;
use crate::typer;
use crate::typer::{Stroke, Typer};

verus! {

/// What a job waits for.
#[derive(Debug, Clone, Copy, PartialEq, Eq, Structural)]
pub enum Gate {
    /// Nothing is typed; the job is dropped.
    Closed,
    /// The keyboard has to be opened.
    Unopened,
    /// The job can be carried out.
    Open,
}

pub struct Typist {
    cfg: TypingConfig,
    typer: Option<Typer>,
    warned: bool,
}

/// What the typist remembers: the typer, where the keyboard is open, and whether the user was told
/// that it cannot be.
pub struct Station {
    pub enabled: bool,
    pub fallback: bool,
    pub sheet: Option<typer::Sheet>,
    pub warned: bool,
}

impl View for Typist {
    type V = Station;

    closed spec fn view(&self) -> Station {
        Station {
            enabled: self.cfg.enabled,
            fallback: self.cfg.unicode_fallback@ == "ctrl-shift-u"@,
            sheet: match self.typer {
                Some(t) => Some(t@),
                None => None,
            },
            warned: self.warned,
        }
    }
}

pub open spec fn blank_sheet(fallback: bool) -> typer::Sheet {
    typer::Sheet { fallback, last_len: 0, last_char: None, live: None }
}

/// What a job does to the typer.
pub open spec fn worked(s: typer::Sheet, job: engine::Typing) -> typer::Outcome {
    match job {
        engine::Typing::Reset => typer::Outcome {
            sheet: blank_sheet(s.fallback),
            strokes: Seq::empty(),
            failed: None,
        },
        engine::Typing::Stream(id, t) => typer::streamed(s, id, t),
        engine::Typing::Final(id, acts) => typer::finished(s, id, acts),
    }
}

impl Station {
    /// The typer's counts make sense.
    pub open spec fn wf(self) -> bool {
        self.sheet matches Some(s) ==> s.wf()
    }
}

impl Typist {
    pub open spec fn wf(&self) -> bool {
        self@.wf()
    }

    pub fn new(cfg: TypingConfig) -> (r: Self)
        ensures
            r.wf(),
            r@ == (Station {
                enabled: cfg.enabled,
                fallback: cfg.unicode_fallback@ == "ctrl-shift-u"@,
                sheet: None,
                warned: false,
            }),
    {
        Typist { cfg, typer: None, warned: false }
    }

    /// What the next job waits for.
    pub fn gate(&self) -> (r: Gate)
        ensures
            r == if !self@.enabled {
                Gate::Closed
            } else if self@.sheet is None {
                Gate::Unopened
            } else {
                Gate::Open
            },
    {
        if !self.cfg.enabled {
            Gate::Closed
        } else if self.typer.is_none() {
            Gate::Unopened
        } else {
            Gate::Open
        }
    }

    /// Takes the outcome of opening the keyboard. That it cannot be opened is said only once.
    pub fn opened(&mut self, result: Result<(), String>) -> (r: Option<UiEvent>)
        requires
            old(self).wf(),
        ensures
            final(self).wf(),
            match result {
                Ok(_) => {
                    &&& final(self)@ == (Station {
                        sheet: Some(blank_sheet(old(self)@.fallback)),
                        ..old(self)@
                    })
                    &&& r is None
                },
                Err(why) => {
                    &&& final(self)@ == (Station { warned: true, ..old(self)@ })
                    &&& if old(self)@.warned {
                        r is None
                    } else {
                        r is Some && r->0@ == engine::Signal::Error(why@)
                    }
                },
            },
    {
        match result {
            Ok(_) => {
                self.typer = Some(Typer::new(&self.cfg));
                None
            },
            Err(why) => if self.warned {
                None
            } else {
                self.warned = true;
                Some(UiEvent::Error(why))
            },
        }
    }

    /// Works out what a job types. A shortcut that no key types is an error, after which the
    /// keyboard is opened anew.
    pub fn work(&mut self, job: TypeJob) -> (r: (Vec<Stroke>, Option<UiEvent>))
        requires
            old(self).wf(),
            old(self)@.sheet is Some,
        ensures
            final(self).wf(),
            ({
                let o = worked(old(self)@.sheet->0, job@);
                &&& r.0@ == o.strokes
                &&& final(self)@ == (Station {
                    sheet: if o.failed is None {
                        Some(o.sheet)
                    } else {
                        None
                    },
                    ..old(self)@
                })
                &&& r.1 is None <==> o.failed is None
                &&& r.1 is Some ==> r.1->0@ == engine::Signal::Error(
                    "Typing failed: unmappable shortcut key"@,
                )
            }),
    {
        let mut t = self.typer.take().unwrap();
        let ghost o = worked(t@, job@);
        let (strokes, ok) = match job {
            TypeJob::Reset => {
                t.reset();
                let none: Vec<Stroke> = Vec::new();
                assert(none@ =~= o.strokes);
                (none, true)
            },
            TypeJob::Stream(id, settled) => (t.stream(id, &settled), true),
            TypeJob::Final(id, actions) => {
                let (s, r) = t.finish(id, &actions);
                (s, r.is_ok())
            },
        };
        if ok {
            self.typer = Some(t);
            (strokes, None)
        } else {
            (
                strokes,
                Some(UiEvent::Error("Typing failed: unmappable shortcut key".to_owned())),
            )
        }
    }

    /// The keyboard broke while typing.
    pub fn failed(&mut self, why: &str) -> (r: UiEvent)
        requires
            old(self).wf(),
        ensures
            final(self).wf(),
            final(self)@ == (Station { sheet: None, ..old(self)@ }),
            r@ == engine::Signal::Error("Typing failed: "@ + why@),
    {
        self.typer = None;
        UiEvent::Error(concat("Typing failed: ", why))
    }
}

// ---------------------------------------------------------------------------
// Laws
// ---------------------------------------------------------------------------

/// Each job does its own work: settled words are streamed, a finished phrase is finished, and a
/// reset types nothing and forgets everything but how missing characters are entered.
pub proof fn law_jobs_do_their_work(
    s: typer::Sheet,
    id: u64,
    t: Seq<char>,
    acts: Seq<crate::commands::Deed>,
)
    ensures
        worked(s, engine::Typing::Stream(id, t)) == typer::streamed(s, id, t),
        worked(s, engine::Typing::Final(id, acts)) == typer::finished(s, id, acts),
        worked(s, engine::Typing::Reset).strokes.len() == 0,
        worked(s, engine::Typing::Reset).failed is None,
        worked(s, engine::Typing::Reset).sheet == (typer::Sheet {
            fallback: s.fallback,
            last_len: 0,
            last_char: None,
            live: None,
        }),
        blank_sheet(s.fallback) == worked(s, engine::Typing::Reset).sheet,
{
}

/// Nothing is typed where typing is off; otherwise the keyboard is opened before the first stroke.
pub proof fn law_typing_waits_for_the_keyboard(t: &Typist, r: Gate)
    requires
        call_ensures(Typist::gate, (t,), r),
    ensures
        r is Closed <==> !t@.enabled,
        r is Open <==> t@.enabled && t@.sheet is Some,
        r is Unopened <==> t@.enabled && t@.sheet is None,
{
}

} // verus!
