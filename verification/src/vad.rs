//! Splits a live 16 kHz stream into spoken phrases.
//!
//! Whisper transcribes whole clips, not streams, so dictation works phrase by phrase: a detector
//! with an adaptive noise floor notices speech, keeps a little audio from before it started, and
//! closes the phrase after a pause.
//!
//! Samples are carried through and never read, so any copyable type serves. How loud a frame is
//! and where the noise floor lies is measured outside; a loudness comes in as the bit pattern of
//! a number that is not negative, which orders as the number does. For each frame the caller asks
//! [`Segmenter::weigh`] how the floor moves, decides whether the frame is above it, and hands
//! both to [`Segmenter::frame`].

use vstd::prelude::*;

use std::collections::VecDeque;

use crate::config::AudioConfig;

verus! {

/// 30 ms at 16 kHz.
pub const FRAME: usize = 480;

/// 300 ms kept from before speech starts.
pub const PRE_ROLL_FRAMES: usize = 10;

/// 90 ms of loudness before it counts as speech.
pub const START_FRAMES: usize = 3;

/// The room is learned quickly for the first 300 ms.
pub const WARMUP_FRAMES: usize = 10;

/// The microphone's opening burst is ignored.
pub const NO_START_FRAMES: usize = 5;

/// 1.5 s: speech always has a gap in this long.
pub const RECENT_FRAMES: usize = 50;

/// Trailing silence that a finished phrase keeps.
pub const TAIL_FRAMES: usize = 8;

/// The bit pattern of the greatest finite loudness.
pub const LOUDEST: u32 = 0x7f7f_ffff;

pub enum VadEvent<S> {
    SpeechStarted,
    /// Audio so far in the phrase, for a provisional transcript.
    Partial(Vec<S>),
    /// A finished phrase.
    Phrase(Vec<S>),
}

/// An event with its audio as a sequence.
pub enum Heard<S> {
    SpeechStarted,
    Partial(Seq<S>),
    Phrase(Seq<S>),
}

impl<S> View for VadEvent<S> {
    type V = Heard<S>;

    open spec fn view(&self) -> Heard<S> {
        match self {
            VadEvent::SpeechStarted => Heard::SpeechStarted,
            VadEvent::Partial(clip) => Heard::Partial(clip@),
            VadEvent::Phrase(clip) => Heard::Phrase(clip@),
        }
    }
}

pub open spec fn heard<S>(events: Seq<VadEvent<S>>) -> Seq<Heard<S>> {
    events.map_values(|e: VadEvent<S>| e@)
}

/// How the noise floor moves for a frame, in hundredths of the distance to its target.
#[derive(Debug, Clone, Copy, PartialEq, Eq, Structural)]
pub enum FloorStep {
    /// Not in speech: hold the frame against the present floor, then move the floor this far
    /// towards the frame's loudness.
    Follow { percent: u32 },
    /// In speech: first move the floor this far up towards the quietest recent moment, then
    /// hold the frame against it.
    Raise { quietest: u32, percent: u32 },
    /// In speech: hold the frame against the present floor, which stays.
    Hold,
}

pub struct Segmenter<S> {
    pub pending: Vec<S>,
    pub pre_roll: VecDeque<Vec<S>>,
    pub phrase: Vec<S>,
    pub in_speech: bool,
    pub loud_run: usize,
    pub quiet_run: usize,
    pub speech_frames: usize,
    pub frames_since_partial: usize,
    /// Offer the phrase so far for live transcription this often (frames).
    pub partial_every: usize,
    pub frames_seen: usize,
    /// Levels of the last frames of the current phrase.
    pub recent: VecDeque<u32>,
    pub silence_frames: usize,
    pub min_speech_frames: usize,
    pub max_frames: usize,
    /// Loudness of the most recent frame, for the meter.
    pub last_rms: u32,
}

/// What a segmenter holds.
pub struct Ear<S> {
    pub pending: Seq<S>,
    pub pre_roll: Seq<Seq<S>>,
    pub phrase: Seq<S>,
    pub in_speech: bool,
    pub loud_run: nat,
    pub quiet_run: nat,
    pub speech_frames: nat,
    pub since_partial: nat,
    pub partial_every: nat,
    pub seen: nat,
    pub recent: Seq<u32>,
    pub silence_frames: nat,
    pub min_speech_frames: nat,
    pub max_frames: nat,
    pub level: u32,
}

pub open spec fn frames_of<S>(v: Seq<Vec<S>>) -> Seq<Seq<S>> {
    v.map_values(|f: Vec<S>| f@)
}

/// The frames end to end.
pub open spec fn flat<S>(frames: Seq<Seq<S>>) -> Seq<S>
    decreases frames.len(),
{
    if frames.len() == 0 {
        Seq::empty()
    } else {
        flat(frames.drop_last()) + frames.last()
    }
}

pub open spec fn at_least(x: nat, floor: nat) -> nat {
    if x < floor {
        floor
    } else {
        x
    }
}

pub open spec fn less_or_none(x: nat, y: nat) -> nat {
    if x < y {
        0
    } else {
        (x - y) as nat
    }
}

impl<S> View for Segmenter<S> {
    type V = Ear<S>;

    open spec fn view(&self) -> Ear<S> {
        Ear {
            pending: self.pending@,
            pre_roll: frames_of(self.pre_roll@),
            phrase: self.phrase@,
            in_speech: self.in_speech,
            loud_run: self.loud_run as nat,
            quiet_run: self.quiet_run as nat,
            speech_frames: self.speech_frames as nat,
            since_partial: self.frames_since_partial as nat,
            partial_every: self.partial_every as nat,
            seen: self.frames_seen as nat,
            recent: self.recent@,
            silence_frames: self.silence_frames as nat,
            min_speech_frames: self.min_speech_frames as nat,
            max_frames: self.max_frames as nat,
            level: self.last_rms,
        }
    }
}

impl<S> Ear<S> {
    pub open spec fn wf(self) -> bool {
        &&& self.pre_roll.len() <= PRE_ROLL_FRAMES
        &&& forall|i: int|
            0 <= i < self.pre_roll.len() ==> (#[trigger] self.pre_roll[i]).len() == FRAME
        &&& self.partial_every >= 10
        &&& self.silence_frames >= 5
        &&& self.min_speech_frames >= 1
        &&& self.max_frames >= 66
        &&& self.recent.len() <= RECENT_FRAMES
        &&& self.in_speech ==> {
            &&& self.pre_roll.len() == 0
            &&& self.phrase.len() < self.max_frames * FRAME
            &&& self.phrase.len() % FRAME as nat == 0
            &&& self.quiet_run < self.silence_frames
            &&& self.quiet_run * FRAME <= self.phrase.len()
            &&& self.speech_frames * FRAME <= self.phrase.len() + START_FRAMES * FRAME
            &&& self.since_partial * FRAME <= self.phrase.len()
        }
        &&& !self.in_speech ==> {
            &&& self.loud_run < START_FRAMES
            &&& self.recent.len() == 0
            &&& self.phrase.len() == 0
        }
    }
}

/// The least of the levels, and at most [`LOUDEST`].
pub open spec fn quietest_of(levels: Seq<u32>) -> u32
    decreases levels.len(),
{
    if levels.len() == 0 {
        LOUDEST
    } else {
        let rest = quietest_of(levels.drop_last());
        if levels.last() < rest {
            levels.last()
        } else {
            rest
        }
    }
}

/// The levels remembered once `level` is among them.
pub open spec fn remembered(levels: Seq<u32>, level: u32) -> Seq<u32> {
    let all = levels.push(level);
    if all.len() > RECENT_FRAMES {
        all.drop_first()
    } else {
        all
    }
}

/// What a frame of the given loudness does to the noise floor.
pub open spec fn floor_step<S>(e: Ear<S>, level: u32, noise: u32) -> FloorStep {
    if !e.in_speech {
        FloorStep::Follow {
            percent: if e.seen < WARMUP_FRAMES {
                30
            } else if level < noise {
                10
            } else {
                1
            },
        }
    } else {
        let quietest = quietest_of(remembered(e.recent, level));
        if e.recent.len() == RECENT_FRAMES && quietest > noise {
            FloorStep::Raise { quietest, percent: 5 }
        } else {
            FloorStep::Hold
        }
    }
}

/// The listener after the loudness of a frame has been taken.
pub open spec fn weighed<S>(e: Ear<S>, level: u32) -> Ear<S> {
    Ear {
        level,
        recent: if e.in_speech {
            remembered(e.recent, level)
        } else {
            e.recent
        },
        ..e
    }
}

/// The phrase is over.
pub open spec fn closed<S>(e: Ear<S>) -> (Ear<S>, Seq<Heard<S>>) {
    let trim = less_or_none(e.quiet_run * FRAME as nat, TAIL_FRAMES as nat * FRAME as nat);
    let end = less_or_none(e.phrase.len(), trim);
    (
        Ear {
            in_speech: false,
            recent: Seq::empty(),
            loud_run: 0,
            phrase: Seq::empty(),
            speech_frames: 0,
            quiet_run: 0,
            ..e
        },
        if e.speech_frames >= e.min_speech_frames {
            seq![Heard::Phrase(e.phrase.take(end as int))]
        } else {
            Seq::empty()
        },
    )
}

/// A frame outside speech.
pub open spec fn waited<S>(e: Ear<S>, frame: Seq<S>, loud: bool) -> (Ear<S>, Seq<Heard<S>>) {
    let rolled = e.pre_roll.push(frame);
    let pre_roll = if rolled.len() > PRE_ROLL_FRAMES {
        rolled.drop_first()
    } else {
        rolled
    };
    let run = if loud && e.seen >= NO_START_FRAMES {
        e.loud_run + 1
    } else {
        0
    };
    if run >= START_FRAMES {
        (
            Ear {
                in_speech: true,
                loud_run: run,
                speech_frames: run,
                quiet_run: 0,
                since_partial: 0,
                phrase: flat(pre_roll),
                pre_roll: Seq::empty(),
                ..e
            },
            seq![Heard::SpeechStarted],
        )
    } else {
        (Ear { pre_roll, loud_run: run, ..e }, Seq::empty())
    }
}

/// A frame within a phrase.
pub open spec fn listened<S>(e: Ear<S>, frame: Seq<S>, loud: bool) -> (Ear<S>, Seq<Heard<S>>) {
    let g = Ear {
        phrase: e.phrase + frame,
        speech_frames: if loud {
            e.speech_frames + 1
        } else {
            e.speech_frames
        },
        quiet_run: if loud {
            0
        } else {
            e.quiet_run + 1
        },
        since_partial: e.since_partial + 1,
        ..e
    };
    if g.quiet_run >= g.silence_frames || g.phrase.len() / FRAME as nat >= g.max_frames {
        closed(g)
    } else if g.since_partial >= g.partial_every {
        (Ear { since_partial: 0, ..g }, seq![Heard::Partial(g.phrase)])
    } else {
        (g, Seq::empty())
    }
}

/// One frame, judged loud or quiet.
pub open spec fn stepped<S>(e: Ear<S>, frame: Seq<S>, loud: bool) -> (Ear<S>, Seq<Heard<S>>) {
    let (g, events) = if e.in_speech {
        listened(e, frame, loud)
    } else {
        waited(e, frame, loud)
    };
    (Ear { seen: if e.seen < usize::MAX { e.seen + 1 } else { e.seen }, ..g }, events)
}

/// Listening ends: a phrase in progress is closed and what was buffered is dropped.
pub open spec fn flushed<S>(e: Ear<S>) -> (Ear<S>, Seq<Heard<S>>) {
    let (g, events) = if e.in_speech {
        closed(e)
    } else {
        (e, Seq::empty())
    };
    (Ear { pending: Seq::empty(), pre_roll: Seq::empty(), ..g }, events)
}

fn copy_range<S: Copy>(s: &[S], from: usize, to: usize) -> (r: Vec<S>)
    requires
        from <= to <= s.len(),
    ensures
        r@ == s@.subrange(from as int, to as int),
{
    let mut v: Vec<S> = Vec::new();
    let mut i: usize = from;
    while i < to
        invariant
            from <= i <= to <= s.len(),
            v@ == s@.subrange(from as int, i as int),
        decreases to - i,
    {
        v.push(s[i]);
        i += 1;
    }
    v
}

fn extend_range<S: Copy>(v: &mut Vec<S>, s: &[S])
    ensures
        final(v)@ == old(v)@ + s@,
{
    let mut i: usize = 0;
    while i < s.len()
        invariant
            i <= s.len(),
            v@ == old(v)@ + s@.take(i as int),
        decreases s.len() - i,
    {
        v.push(s[i]);
        i += 1;
    }
    assert(s@.take(s@.len() as int) =~= s@);
}

/// A number of milliseconds, as far as a `usize` can count them.
pub open spec fn countable(ms: u64) -> nat {
    if ms <= usize::MAX {
        ms as nat
    } else {
        usize::MAX as nat
    }
}

/// A listener that has heard nothing.
pub open spec fn fresh<S>(cfg: AudioConfig) -> Ear<S> {
    Ear {
        pending: Seq::empty(),
        pre_roll: Seq::empty(),
        phrase: Seq::empty(),
        in_speech: false,
        loud_run: 0,
        quiet_run: 0,
        speech_frames: 0,
        since_partial: 0,
        partial_every: at_least(cfg.stream_interval_ms as nat / 30, 10),
        seen: 0,
        recent: Seq::empty(),
        silence_frames: at_least(cfg.silence_ms as nat / 30, 5),
        min_speech_frames: at_least(cfg.min_speech_ms as nat / 30, 1),
        max_frames: at_least(countable(cfg.max_phrase_ms), 2000) / 30,
        level: 0,
    }
}

fn milliseconds_to_frames(ms: u64, floor: usize) -> (r: usize)
    ensures
        r == at_least(countable(ms) / 30, floor as nat),
{
    let ms: usize = if ms <= usize::MAX as u64 {
        ms as usize
    } else {
        usize::MAX
    };
    let n: usize = ms / 30;
    if n < floor {
        floor
    } else {
        n
    }
}

impl<S: Copy> Segmenter<S> {
    pub open spec fn wf(&self) -> bool {
        self@.wf()
    }

    /// A segmenter that has heard nothing.
    pub fn new(cfg: &AudioConfig) -> (r: Self)
        ensures
            r.wf(),
            r@ == fresh::<S>(*cfg),
    {
        let r = Segmenter {
            pending: Vec::new(),
            pre_roll: VecDeque::new(),
            phrase: Vec::new(),
            in_speech: false,
            loud_run: 0,
            quiet_run: 0,
            speech_frames: 0,
            frames_since_partial: 0,
            partial_every: milliseconds_to_frames(cfg.stream_interval_ms as u64, 10),
            frames_seen: 0,
            recent: VecDeque::new(),
            silence_frames: milliseconds_to_frames(cfg.silence_ms as u64, 5),
            min_speech_frames: milliseconds_to_frames(cfg.min_speech_ms as u64, 1),
            max_frames: milliseconds_to_frames(cfg.max_phrase_ms, 66),
            last_rms: 0,
        };
        assert(frames_of(r.pre_roll@) =~= Seq::empty());
        r
    }

    /// Takes in audio, in pieces of any size.
    pub fn push(&mut self, samples: &[S])
        requires
            old(self).wf(),
        ensures
            final(self).wf(),
            final(self)@ == (Ear { pending: old(self)@.pending + samples@, ..old(self)@ }),
    {
        extend_range(&mut self.pending, samples);
    }

    /// The next whole frame of what was taken in.
    pub fn next_frame(&mut self) -> (r: Option<Vec<S>>)
        requires
            old(self).wf(),
        ensures
            final(self).wf(),
            r is Some <==> old(self)@.pending.len() >= FRAME,
            match r {
                Some(f) => {
                    &&& f@ == old(self)@.pending.take(FRAME as int)
                    &&& final(self)@ == (Ear {
                        pending: old(self)@.pending.skip(FRAME as int),
                        ..old(self)@
                    })
                },
                None => final(self)@ == old(self)@,
            },
    {
        let n = self.pending.len();
        if n < FRAME {
            return None;
        }
        let frame = copy_range(&self.pending, 0, FRAME);
        let rest = copy_range(&self.pending, FRAME, n);
        assert(frame@ =~= self.pending@.take(FRAME as int));
        assert(rest@ =~= self.pending@.skip(FRAME as int));
        self.pending = rest;
        Some(frame)
    }

    /// Takes the loudness of the next frame and says how the noise floor moves for it.
    pub fn weigh(&mut self, level: u32, noise: u32) -> (r: FloorStep)
        requires
            old(self).wf(),
        ensures
            final(self).wf(),
            r == floor_step(old(self)@, level, noise),
            final(self)@ == weighed(old(self)@, level),
    {
        self.last_rms = level;
        if !self.in_speech {
            let percent: u32 = if self.frames_seen < WARMUP_FRAMES {
                30
            } else if level < noise {
                10
            } else {
                1
            };
            return FloorStep::Follow { percent };
        }
        self.recent.push_back(level);
        if self.recent.len() > RECENT_FRAMES {
            let _ = self.recent.pop_front();
            let quietest = least(&self.recent);
            if quietest > noise {
                return FloorStep::Raise { quietest, percent: 5 };
            }
        }
        FloorStep::Hold
    }
}

fn least(levels: &VecDeque<u32>) -> (r: u32)
    ensures
        r == quietest_of(levels@),
{
    let mut m: u32 = LOUDEST;
    let mut i: usize = 0;
    while i < levels.len()
        invariant
            i <= levels.len(),
            m == quietest_of(levels@.take(i as int)),
        decreases levels.len() - i,
    {
        assert(levels@.take(i + 1).drop_last() =~= levels@.take(i as int));
        if levels[i] < m {
            m = levels[i];
        }
        i += 1;
    }
    assert(levels@.take(levels@.len() as int) =~= levels@);
    m
}

proof fn lemma_flat_len<S>(frames: Seq<Seq<S>>)
    requires
        forall|i: int| 0 <= i < frames.len() ==> (#[trigger] frames[i]).len() == FRAME,
    ensures
        flat(frames).len() == frames.len() * FRAME,
    decreases frames.len(),
{
    if frames.len() > 0 {
        lemma_flat_len(frames.drop_last());
        assert(frames.last().len() == FRAME);
    }
}

proof fn lemma_flat_skip<S>(frames: Seq<Seq<S>>)
    requires
        frames.len() > 0,
    ensures
        flat(frames) == frames[0] + flat(frames.drop_first()),
    decreases frames.len(),
{
    if frames.len() == 1 {
        assert(frames.drop_last() =~= Seq::empty());
        assert(frames.drop_first() =~= Seq::empty());
        assert(flat(frames) =~= frames[0] + flat(frames.drop_first()));
    } else {
        lemma_flat_skip(frames.drop_last());
        assert(frames.drop_last().drop_first() =~= frames.drop_first().drop_last());
        assert(flat(frames) =~= frames[0] + flat(frames.drop_first()));
    }
}

/// The frames end to end, leaving the queue empty.
fn drain_frames<S: Copy>(frames: &mut VecDeque<Vec<S>>) -> (r: Vec<S>)
    ensures
        r@ == flat(frames_of(old(frames)@)),
        final(frames)@.len() == 0,
{
    let mut out: Vec<S> = Vec::new();
    let ghost all = frames_of(frames@);
    assert(Seq::<S>::empty() + flat(all) =~= flat(all));
    while frames.len() > 0
        invariant
            out@ + flat(frames_of(frames@)) == flat(all),
        decreases frames@.len(),
    {
        let ghost left = frames_of(frames@);
        let ghost done = out@;
        proof {
            lemma_flat_skip(left);
        }
        let f = frames.pop_front().unwrap();
        assert(frames_of(frames@) =~= left.drop_first());
        extend_range(&mut out, &f);
        assert(done + (left[0] + flat(left.drop_first())) =~= out@ + flat(left.drop_first()));
    }
    assert(frames_of(frames@) =~= Seq::empty());
    assert(out@ + Seq::empty() =~= out@);
    out
}

impl<S: Copy> Segmenter<S> {
    /// Takes in one frame, judged loud or quiet.
    pub fn frame(&mut self, frame: Vec<S>, loud: bool, out: &mut Vec<VadEvent<S>>)
        requires
            old(self).wf(),
            frame@.len() == FRAME,
        ensures
            final(self).wf(),
            final(self)@ == stepped(old(self)@, frame@, loud).0,
            heard(final(out)@) == heard(old(out)@) + stepped(old(self)@, frame@, loud).1,
    {
        let ghost e = self@;
        let ghost before = out@;
        let may_start = self.frames_seen >= NO_START_FRAMES;
        if self.frames_seen < usize::MAX {
            self.frames_seen += 1;
        }
        if !self.in_speech {
            let ghost rolled = e.pre_roll.push(frame@);
            let ghost kept = if rolled.len() > PRE_ROLL_FRAMES {
                rolled.drop_first()
            } else {
                rolled
            };
            self.pre_roll.push_back(frame);
            assert(frames_of(self.pre_roll@) =~= rolled);
            if self.pre_roll.len() > PRE_ROLL_FRAMES {
                let _ = self.pre_roll.pop_front();
                assert(frames_of(self.pre_roll@) =~= rolled.drop_first());
            }
            assert(frames_of(self.pre_roll@) == kept);
            assert forall|i: int| 0 <= i < kept.len() implies (#[trigger] kept[i]).len()
                == FRAME by {
                if rolled.len() > PRE_ROLL_FRAMES {
                    assert(kept[i] == rolled[i + 1]);
                }
                assert(forall|j: int| 0 <= j < e.pre_roll.len() ==> rolled[j] == e.pre_roll[j]);
            }
            self.loud_run = if loud && may_start {
                self.loud_run + 1
            } else {
                0
            };
            if self.loud_run >= START_FRAMES {
                proof {
                    lemma_flat_len(kept);
                }
                self.in_speech = true;
                self.speech_frames = self.loud_run;
                self.quiet_run = 0;
                self.frames_since_partial = 0;
                self.phrase = drain_frames(&mut self.pre_roll);
                assert(frames_of(self.pre_roll@) =~= Seq::empty());
                assert(self@.phrase == flat(kept));
                assert(10 * FRAME < 66 * FRAME);
                assert(self.max_frames * FRAME >= 66 * FRAME) by (nonlinear_arith)
                    requires
                        self.max_frames >= 66,
                ;
                out.push(VadEvent::SpeechStarted);
                assert(heard(out@) =~= heard(before) + seq![Heard::SpeechStarted]);
            } else {
                assert(heard(out@) =~= heard(before) + Seq::empty());
            }
            return;
        }
        extend_range(&mut self.phrase, &frame);
        assert(self.phrase.len() == self.phrase@.len());
        if loud {
            self.speech_frames += 1;
            self.quiet_run = 0;
        } else {
            self.quiet_run += 1;
        }
        self.frames_since_partial += 1;
        let total_frames: usize = self.phrase.len() / FRAME;
        if self.quiet_run >= self.silence_frames || total_frames >= self.max_frames {
            self.finish(out);
        } else {
            assert(self.phrase@.len() < self.max_frames * FRAME) by (nonlinear_arith)
                requires
                    self.phrase@.len() as nat / FRAME as nat == total_frames,
                    total_frames < self.max_frames,
            ;
            if self.frames_since_partial >= self.partial_every {
                self.frames_since_partial = 0;
                let clip = copy_range(&self.phrase, 0, self.phrase.len());
                assert(clip@ =~= self.phrase@);
                out.push(VadEvent::Partial(clip));
                assert(heard(out@) =~= heard(before) + seq![Heard::Partial(self.phrase@)]);
            } else {
                assert(heard(out@) =~= heard(before) + Seq::empty());
            }
        }
    }

    /// Closes the current phrase.
    fn finish(&mut self, out: &mut Vec<VadEvent<S>>)
        requires
            old(self)@.quiet_run * FRAME <= old(self)@.phrase.len(),
        ensures
            final(self)@ == closed(old(self)@).0,
            heard(final(out)@) == heard(old(out)@) + closed(old(self)@).1,
    {
        let ghost e = self@;
        let ghost before = out@;
        assert(self.phrase.len() == self.phrase@.len());
        self.in_speech = false;
        self.recent.clear();
        self.loud_run = 0;
        let mut phrase: Vec<S> = Vec::new();
        std::mem::swap(&mut phrase, &mut self.phrase);
        if self.speech_frames >= self.min_speech_frames {
            // Most of the trailing silence goes: Whisper sometimes invents words to fill it.
            let keep_tail: usize = TAIL_FRAMES * FRAME;
            let quiet: usize = self.quiet_run * FRAME;
            let trim: usize = if quiet < keep_tail {
                0
            } else {
                quiet - keep_tail
            };
            let end: usize = if phrase.len() < trim {
                0
            } else {
                phrase.len() - trim
            };
            let clip = copy_range(&phrase, 0, end);
            assert(clip@ =~= e.phrase.take(end as int));
            out.push(VadEvent::Phrase(clip));
            assert(heard(out@) =~= heard(before) + seq![Heard::Phrase(clip@)]);
        } else {
            assert(heard(out@) =~= heard(before) + Seq::empty());
        }
        self.speech_frames = 0;
        self.quiet_run = 0;
        assert(self@.recent =~= Seq::empty());
        assert(self@.phrase =~= Seq::empty());
    }

    /// Closes the current phrase now (used when dictation is stopped mid-sentence).
    pub fn flush(&mut self, out: &mut Vec<VadEvent<S>>)
        requires
            old(self).wf(),
        ensures
            final(self).wf(),
            final(self)@ == flushed(old(self)@).0,
            heard(final(out)@) == heard(old(out)@) + flushed(old(self)@).1,
    {
        let ghost before = out@;
        if self.in_speech {
            self.finish(out);
        } else {
            assert(heard(out@) =~= heard(before) + Seq::empty());
        }
        self.pending.clear();
        self.pre_roll.clear();
        assert(self@.pending =~= Seq::empty());
        assert(self@.pre_roll =~= Seq::empty());
    }
}

// ---------------------------------------------------------------------------
// Laws
// ---------------------------------------------------------------------------

/// What is kept is the end of everything heard so far.
pub open spec fn tracks<S>(e: Ear<S>, stream: Seq<S>) -> bool {
    if e.in_speech {
        e.phrase.is_suffix_of(stream)
    } else {
        flat(e.pre_roll).is_suffix_of(stream)
    }
}

/// `clip` stands in `stream`, starting at `at`.
pub open spec fn cut_from<S>(clip: Seq<S>, stream: Seq<S>, at: int) -> bool {
    0 <= at && at + clip.len() <= stream.len() && stream.subrange(at, at + clip.len()) == clip
}

/// The audio that an event carries, if it carries any.
pub open spec fn clip_of<S>(h: Heard<S>) -> Seq<S> {
    match h {
        Heard::SpeechStarted => Seq::empty(),
        Heard::Partial(clip) => clip,
        Heard::Phrase(clip) => clip,
    }
}

proof fn lemma_suffix_grows<S>(a: Seq<S>, stream: Seq<S>, frame: Seq<S>)
    requires
        a.is_suffix_of(stream),
    ensures
        (a + frame).is_suffix_of(stream + frame),
{
    let b = stream + frame;
    let c = a + frame;
    assert(c =~= b.subrange(b.len() - c.len(), b.len() as int)) by {
        assert forall|i: int| 0 <= i < c.len() implies #[trigger] c[i] == b[b.len() - c.len()
            + i] by {
            if i < a.len() {
                assert(a[i] == stream.subrange(stream.len() - a.len(), stream.len() as int)[i]);
            }
        }
    }
}

/// Audio is neither lost nor invented: what is kept is the end of the stream, and every clip
/// handed out is a stretch of it.
pub proof fn law_clips_are_stretches_of_the_stream<S>(
    e: Ear<S>,
    stream: Seq<S>,
    frame: Seq<S>,
    loud: bool,
)
    requires
        e.wf(),
        tracks(e, stream),
        frame.len() == FRAME,
    ensures
        tracks(stepped(e, frame, loud).0, stream + frame),
        forall|i: int|
            0 <= i < stepped(e, frame, loud).1.len() ==> exists|at: int|
                cut_from(clip_of(#[trigger] stepped(e, frame, loud).1[i]), stream + frame, at),
{
    let (g, events) = stepped(e, frame, loud);
    let all = stream + frame;
    assert(cut_from(Seq::<S>::empty(), all, 0)) by {
        assert(all.subrange(0, 0) =~= Seq::empty());
    }
    if e.in_speech {
        lemma_suffix_grows(e.phrase, stream, frame);
        let whole = e.phrase + frame;
        let at = all.len() - whole.len();
        assert(all.subrange(at, at + whole.len()) =~= whole);
        if events.len() > 0 {
            let clip = clip_of(events[0]);
            assert(clip.is_prefix_of(whole));
            assert(all.subrange(at, at + clip.len()) =~= clip) by {
                assert(clip =~= whole.subrange(0, clip.len() as int));
            }
            assert(cut_from(clip, all, at));
        }
        if !g.in_speech {
            assert(flat(g.pre_roll) =~= Seq::empty());
            assert(flat(g.pre_roll).is_suffix_of(all));
        }
    } else {
        let rolled = e.pre_roll.push(frame);
        assert(rolled.drop_last() =~= e.pre_roll);
        assert(flat(rolled) == flat(e.pre_roll) + frame);
        lemma_suffix_grows(flat(e.pre_roll), stream, frame);
        lemma_flat_skip(rolled);
        let kept = if rolled.len() > PRE_ROLL_FRAMES {
            rolled.drop_first()
        } else {
            rolled
        };
        assert(flat(kept).is_suffix_of(all)) by {
            if rolled.len() > PRE_ROLL_FRAMES {
                let long = flat(rolled);
                let short = flat(rolled.drop_first());
                assert(short =~= long.subrange(long.len() - short.len(), long.len() as int));
                assert(long =~= all.subrange(all.len() - long.len(), all.len() as int));
                assert(short =~= all.subrange(all.len() - short.len(), all.len() as int));
            }
        }
    }
    assert forall|i: int| 0 <= i < events.len() implies exists|at: int|
        cut_from(clip_of(#[trigger] events[i]), all, at) by {
        assert(i == 0);
    }
}

/// Speech starts once and then either goes on or ends once: only a frame outside speech can
/// start it, and only a frame within it can offer or finish a phrase.
pub proof fn law_phrases_are_bracketed<S>(e: Ear<S>, frame: Seq<S>, loud: bool)
    requires
        e.wf(),
    ensures
        ({
            let (g, events) = stepped(e, frame, loud);
            &&& events.len() <= 1
            &&& events.len() == 1 && events[0] is SpeechStarted ==> !e.in_speech && g.in_speech
            &&& events.len() == 1 && events[0] is Partial ==> e.in_speech && g.in_speech
            &&& events.len() == 1 && events[0] is Phrase ==> e.in_speech && !g.in_speech
            &&& !e.in_speech && g.in_speech ==> events.len() == 1 && events[0] is SpeechStarted
        }),
{
}

/// A phrase is cut off at its limit even without a pause.
pub proof fn law_phrases_are_bounded<S>(e: Ear<S>, frame: Seq<S>, loud: bool)
    requires
        e.wf(),
        frame.len() == FRAME,
    ensures
        forall|i: int|
            0 <= i < stepped(e, frame, loud).1.len() ==> clip_of(
                #[trigger] stepped(e, frame, loud).1[i],
            ).len() <= e.max_frames * FRAME,
        e.in_speech && (e.phrase.len() + FRAME) / FRAME as int >= e.max_frames ==> !stepped(
            e,
            frame,
            loud,
        ).0.in_speech,
{
}

/// A pause of the configured length ends the phrase.
pub proof fn law_a_pause_ends_the_phrase<S>(e: Ear<S>, frame: Seq<S>)
    requires
        e.wf(),
        e.in_speech,
        e.quiet_run + 1 >= e.silence_frames,
    ensures
        !stepped(e, frame, false).0.in_speech,
        stepped(e, frame, false).1.len() == 1 <==> e.speech_frames >= e.min_speech_frames,
{
}

/// A sound with too little speech in it is dropped, however it ends.
pub proof fn law_short_noises_are_ignored<S>(e: Ear<S>, frame: Seq<S>, loud: bool)
    requires
        e.wf(),
        e.in_speech,
        e.speech_frames + 1 < e.min_speech_frames,
    ensures
        forall|i: int|
            0 <= i < stepped(e, frame, loud).1.len() ==> !(#[trigger] stepped(
                e,
                frame,
                loud,
            ).1[i] is Phrase),
        flushed(e).1.len() == 0,
{
}

/// At most a quarter of a second of trailing silence is left on a phrase.
pub proof fn law_trailing_silence_is_trimmed<S>(e: Ear<S>)
    requires
        e.wf(),
        e.in_speech,
        e.speech_frames >= e.min_speech_frames,
    ensures
        flushed(e).1.len() == 1,
        flushed(e).1[0] is Phrase,
        clip_of(flushed(e).1[0]).len() == e.phrase.len() - less_or_none(
            e.quiet_run,
            TAIL_FRAMES as nat,
        ) * FRAME,
{
}

/// Stopping mid-sentence keeps the words spoken: the phrase so far is handed out.
pub proof fn law_stopping_keeps_the_last_words<S>(e: Ear<S>)
    requires
        e.wf(),
        e.in_speech,
        e.speech_frames >= e.min_speech_frames,
        e.quiet_run <= TAIL_FRAMES,
    ensures
        flushed(e).1 == seq![Heard::Phrase(e.phrase)],
        !flushed(e).0.in_speech,
{
    assert(e.phrase.take(e.phrase.len() as int) =~= e.phrase);
}

/// One frame as it is heard: its samples, its loudness, and whether it was judged loud.
pub struct Sound<S> {
    pub samples: Seq<S>,
    pub level: u32,
    pub loud: bool,
}

/// Frames heard one after the other, and what came of all of them.
pub open spec fn followed<S>(e: Ear<S>, sounds: Seq<Sound<S>>) -> (Ear<S>, Seq<Heard<S>>)
    decreases sounds.len(),
{
    if sounds.len() == 0 {
        (e, Seq::empty())
    } else {
        let (g, before) = followed(e, sounds.drop_last());
        let s = sounds.last();
        let (h, events) = stepped(weighed(g, s.level), s.samples, s.loud);
        (h, before + events)
    }
}

/// How many of the last frames were loud, not counting the opening burst.
pub open spec fn loud_end<S>(sounds: Seq<Sound<S>>) -> nat
    decreases sounds.len(),
{
    if sounds.len() > NO_START_FRAMES && sounds.last().loud {
        loud_end(sounds.drop_last()) + 1
    } else {
        0
    }
}

proof fn lemma_loud_end<S>(sounds: Seq<Sound<S>>)
    ensures
        loud_end(sounds) > 0 ==> loud_end(sounds) + NO_START_FRAMES <= sounds.len(),
        forall|i: int|
            sounds.len() - loud_end(sounds) <= i < sounds.len() ==> (#[trigger] sounds[i]).loud,
    decreases sounds.len(),
{
    if sounds.len() > NO_START_FRAMES && sounds.last().loud {
        lemma_loud_end(sounds.drop_last());
        let n = loud_end(sounds) as int;
        assert forall|i: int| sounds.len() - n <= i < sounds.len() implies (
        #[trigger] sounds[i]).loud by {
            if i < sounds.len() - 1 {
                assert(sounds.drop_last()[i].loud);
            }
        }
    }
}

/// Until its first event a fresh listener counts frames, and the loud ones at the end.
proof fn lemma_waiting<S>(cfg: AudioConfig, sounds: Seq<Sound<S>>)
    ensures
        ({
            let (g, events) = followed(fresh::<S>(cfg), sounds);
            &&& events.len() == 0 ==> {
                &&& !g.in_speech
                &&& g.seen == (if sounds.len() < usize::MAX {
                    sounds.len()
                } else {
                    usize::MAX as nat
                })
                &&& g.loud_run == loud_end(sounds)
            }
            &&& events.len() > 0 ==> events[0] is SpeechStarted
        }),
    decreases sounds.len(),
{
    if sounds.len() > 0 {
        lemma_waiting(cfg, sounds.drop_last());
        let (g, before) = followed(fresh::<S>(cfg), sounds.drop_last());
        let s = sounds.last();
        let events = stepped(weighed(g, s.level), s.samples, s.loud).1;
        if before.len() == 0 {
            assert(before + events =~= events);
        } else {
            assert((before + events)[0] == before[0]);
        }
    }
}

/// A fresh listener says nothing at first: nothing for the opening burst and the frames that it
/// takes to be sure of speech, and nothing for as long as no frame is loud. Its first event is
/// that speech has started, and it comes with a frame that ends a run of loud ones after the
/// opening burst.
pub proof fn law_speech_starts_with_a_run_of_loud_frames<S>(
    cfg: AudioConfig,
    sounds: Seq<Sound<S>>,
    next: Sound<S>,
)
    ensures
        sounds.len() < NO_START_FRAMES + START_FRAMES ==> followed(
            fresh::<S>(cfg),
            sounds,
        ).1.len() == 0,
        (forall|i: int| 0 <= i < sounds.len() ==> !(#[trigger] sounds[i]).loud) ==> followed(
            fresh::<S>(cfg),
            sounds,
        ).1.len() == 0,
        followed(fresh::<S>(cfg), sounds).1.len() > 0 ==> followed(
            fresh::<S>(cfg),
            sounds,
        ).1[0] is SpeechStarted,
        followed(fresh::<S>(cfg), sounds).1.len() == 0 && followed(
            fresh::<S>(cfg),
            sounds.push(next),
        ).1.len() > 0 ==> {
            &&& followed(fresh::<S>(cfg), sounds.push(next)).1 == seq![Heard::<S>::SpeechStarted]
            &&& sounds.len() + 1 >= NO_START_FRAMES + START_FRAMES
            &&& forall|i: int|
                sounds.len() + 1 - START_FRAMES <= i <= sounds.len() ==> (#[trigger] sounds.push(
                    next,
                )[i]).loud
        },
    decreases sounds.len(),
{
    let e = fresh::<S>(cfg);
    lemma_waiting(cfg, sounds);
    lemma_waiting(cfg, sounds.push(next));
    lemma_loud_end(sounds.push(next));
    assert(sounds.push(next).drop_last() =~= sounds);
    assert(Seq::<Heard<S>>::empty() + seq![Heard::<S>::SpeechStarted] =~= seq![
        Heard::<S>::SpeechStarted,
    ]);
    let (g, before) = followed(e, sounds);
    let events = stepped(weighed(g, next.level), next.samples, next.loud).1;
    if before.len() == 0 {
        assert(before + events =~= events);
    }
    if sounds.len() > 0 {
        let shorter = sounds.drop_last();
        assert(shorter.push(sounds.last()) =~= sounds);
        law_speech_starts_with_a_run_of_loud_frames(cfg, shorter, sounds.last());
        assert((forall|i: int| 0 <= i < sounds.len() ==> !(#[trigger] sounds[i]).loud) ==> (
        forall|i: int| 0 <= i < shorter.len() ==> !(#[trigger] shorter[i]).loud)) by {
            assert(forall|i: int| 0 <= i < shorter.len() ==> #[trigger] shorter[i] == sounds[i]);
        }
        if followed(e, shorter).1.len() == 0 && followed(e, sounds).1.len() > 0 {
            assert(sounds[sounds.len() - 1].loud);
        }
    }
}

/// What goes by loudness and the noise floor, which are measured outside: the loudness of a
/// frame, the floor as a number, and the verdict on a frame with the floor after it.
#[verifier::reject_recursive_types(S)]
#[verifier::reject_recursive_types(N)]
pub struct Judge<S, N> {
    pub level: spec_fn(Seq<S>) -> u32,
    pub floor: spec_fn(N) -> u32,
    pub verdict: spec_fn(N, u32, FloorStep) -> (bool, N),
}

/// The listener with other audio waiting to be heard.
pub open spec fn holding<S>(e: Ear<S>, pending: Seq<S>) -> Ear<S> {
    Ear { pending, ..e }
}

/// Every whole frame that is waiting, heard in turn: the listener and the noise floor after it,
/// and the events.
pub open spec fn caught_up<S, N>(e: Ear<S>, noise: N, j: Judge<S, N>) -> (
    Ear<S>,
    N,
    Seq<Heard<S>>,
)
    decreases e.pending.len(),
{
    if e.pending.len() < FRAME {
        (e, noise, Seq::empty())
    } else {
        let frame = e.pending.take(FRAME as int);
        let g = holding(e, e.pending.skip(FRAME as int));
        let level = (j.level)(frame);
        let (loud, after) = (j.verdict)(noise, level, floor_step(g, level, (j.floor)(noise)));
        let (h, events) = stepped(weighed(g, level), frame, loud);
        let (last, floor, more) = caught_up(h, after, j);
        (last, floor, events + more)
    }
}

/// The audio that waits plays no part in how a frame is heard.
proof fn lemma_pending_is_apart<S>(
    e: Ear<S>,
    pending: Seq<S>,
    frame: Seq<S>,
    level: u32,
    loud: bool,
)
    ensures
        stepped(weighed(holding(e, pending), level), frame, loud).0 == holding(
            stepped(weighed(e, level), frame, loud).0,
            pending,
        ),
        stepped(weighed(holding(e, pending), level), frame, loud).1 == stepped(
            weighed(e, level),
            frame,
            loud,
        ).1,
        stepped(weighed(e, level), frame, loud).0.pending == e.pending,
        forall|noise: u32|
            floor_step(holding(e, pending), level, noise) == #[trigger] floor_step(e, level, noise),
{
}

/// However the audio is cut into pieces, what is heard is the same: two pieces taken in one after
/// the other give the events of both taken in at once, and leave the same behind.
pub proof fn law_audio_may_come_in_pieces<S, N>(
    e: Ear<S>,
    noise: N,
    j: Judge<S, N>,
    a: Seq<S>,
    b: Seq<S>,
)
    ensures
        ({
            let (e1, n1, first) = caught_up(holding(e, e.pending + a), noise, j);
            let (e2, n2, second) = caught_up(holding(e1, e1.pending + b), n1, j);
            caught_up(holding(e, e.pending + (a + b)), noise, j) == (e2, n2, first + second)
        }),
{
    assert(e.pending + a + b =~= e.pending + (a + b));
    lemma_catching_up_later(holding(e, e.pending + a), noise, j, b);
}

proof fn lemma_catching_up_later<S, N>(e: Ear<S>, noise: N, j: Judge<S, N>, b: Seq<S>)
    ensures
        ({
            let (e1, n1, first) = caught_up(e, noise, j);
            let (e2, n2, second) = caught_up(holding(e1, e1.pending + b), n1, j);
            caught_up(holding(e, e.pending + b), noise, j) == (e2, n2, first + second)
        }),
    decreases e.pending.len(),
{
    let (e1, n1, first) = caught_up(e, noise, j);
    let (e2, n2, second) = caught_up(holding(e1, e1.pending + b), n1, j);
    if e.pending.len() < FRAME {
        assert(first + second =~= second);
    } else {
        let frame = e.pending.take(FRAME as int);
        let rest = e.pending.skip(FRAME as int);
        let both = e.pending + b;
        assert(both.take(FRAME as int) =~= frame);
        assert(both.skip(FRAME as int) =~= rest + b);
        let g = holding(e, rest);
        let level = (j.level)(frame);
        let (loud, after) = (j.verdict)(noise, level, floor_step(g, level, (j.floor)(noise)));
        let (h, events) = stepped(weighed(g, level), frame, loud);
        lemma_pending_is_apart(g, rest + b, frame, level, loud);
        assert(holding(holding(e, both), rest + b) == holding(g, rest + b));
        assert(floor_step(holding(g, rest + b), level, (j.floor)(noise)) == floor_step(
            g,
            level,
            (j.floor)(noise),
        ));
        lemma_catching_up_later(h, after, j, b);
        let more = caught_up(h, after, j).2;
        assert(first == events + more);
        assert(events + (more + second) =~= (events + more) + second);
    }
}

/// Within a phrase every frame is kept. A pause of the configured length, or the greatest length,
/// ends it, and then everything kept is handed out but for the trailing quiet frames beyond eight,
/// if there was enough speech in it; otherwise nothing is. Until then the phrase so far is offered
/// each time its turn has come.
pub proof fn law_a_phrase_is_everything_up_to_the_pause<S>(e: Ear<S>, frame: Seq<S>, loud: bool)
    requires
        e.wf(),
        e.in_speech,
        frame.len() == 480,
    ensures
        ({
            let (g, events) = stepped(e, frame, loud);
            let all = e.phrase + frame;
            let quiet: int = if loud {
                0
            } else {
                e.quiet_run as int + 1
            };
            let speech: int = if loud {
                e.speech_frames as int + 1
            } else {
                e.speech_frames as int
            };
            let over = quiet >= e.silence_frames || all.len() >= e.max_frames * 480;
            let cut: int = if quiet > 8 {
                480 * (quiet - 8)
            } else {
                0
            };
            &&& over && speech >= e.min_speech_frames ==> events == seq![
                Heard::Phrase(all.take(all.len() - cut)),
            ]
            &&& over && speech < e.min_speech_frames ==> events.len() == 0
            &&& over ==> !g.in_speech && g.phrase.len() == 0 && g.loud_run == 0
                && g.recent.len() == 0 && g.quiet_run == 0 && g.speech_frames == 0
            &&& !over ==> g.in_speech && g.phrase == all && g.quiet_run == quiet && g.speech_frames
                == speech && g.recent == e.recent
            &&& !over && e.since_partial + 1 >= e.partial_every ==> events == seq![
                Heard::Partial(all),
            ] && g.since_partial == 0
            &&& !over && e.since_partial + 1 < e.partial_every ==> events.len() == 0
                && g.since_partial == e.since_partial + 1
            &&& e.seen < usize::MAX ==> g.seen == e.seen + 1
            &&& g.pre_roll == e.pre_roll
            &&& g.silence_frames == e.silence_frames && g.min_speech_frames == e.min_speech_frames
                && g.max_frames == e.max_frames && g.partial_every == e.partial_every && g.level
                == e.level
            &&& g.pending == e.pending
        }),
{
    let all = e.phrase + frame;
    assert(all.len() / 480 >= e.max_frames <==> all.len() >= e.max_frames * 480)
        by (nonlinear_arith);
}

/// Outside a phrase the last ten frames are kept. Speech starts with the third loud frame in a
/// row, not counting the first five frames of all, and the phrase then begins with what was kept.
pub proof fn law_a_phrase_begins_with_what_was_kept<S>(e: Ear<S>, frame: Seq<S>, loud: bool)
    requires
        e.wf(),
        !e.in_speech,
        frame.len() == 480,
    ensures
        ({
            let (g, events) = stepped(e, frame, loud);
            let run: int = if loud && e.seen >= 5 {
                e.loud_run as int + 1
            } else {
                0
            };
            let heard = e.pre_roll.push(frame);
            let kept = if heard.len() > 10 {
                heard.skip(heard.len() - 10)
            } else {
                heard
            };
            &&& run >= 3 ==> events == seq![Heard::<S>::SpeechStarted] && g.in_speech && g.phrase
                == flat(kept) && g.phrase.len() == 480 * kept.len() && g.pre_roll.len() == 0
                && g.speech_frames == run && g.quiet_run == 0 && g.since_partial == 0
            &&& run < 3 ==> events.len() == 0 && !g.in_speech && g.pre_roll == kept && g.loud_run
                == run && g.phrase == e.phrase
            &&& e.seen < usize::MAX ==> g.seen == e.seen + 1
            &&& g.recent == e.recent
            &&& g.silence_frames == e.silence_frames && g.min_speech_frames == e.min_speech_frames
                && g.max_frames == e.max_frames && g.partial_every == e.partial_every && g.level
                == e.level
            &&& g.pending == e.pending
        }),
{
    let heard = e.pre_roll.push(frame);
    assert(heard.skip(1) =~= heard.drop_first());
    let kept = if heard.len() > 10 {
        heard.skip(heard.len() - 10)
    } else {
        heard
    };
    assert forall|i: int| 0 <= i < kept.len() implies (#[trigger] kept[i]).len() == FRAME by {
        let at = i + heard.len() - kept.len();
        assert(kept[i] == heard[at]);
        if at < e.pre_roll.len() {
            assert(heard[at] == e.pre_roll[at]);
        }
    }
    lemma_flat_len(kept);
}

/// Frames end to end: each follows the one before, and nothing is added.
pub proof fn law_frames_are_put_end_to_end<S>(frames: Seq<Seq<S>>, frame: Seq<S>)
    ensures
        flat(Seq::<Seq<S>>::empty()).len() == 0,
        flat(frames.push(frame)) == flat(frames) + frame,
{
    assert(frames.push(frame).drop_last() =~= frames);
}

/// When listening ends, the phrase in progress is handed out as after a pause, and what was
/// buffered is dropped.
pub proof fn law_stopping_closes_the_phrase<S>(e: Ear<S>)
    requires
        e.wf(),
    ensures
        ({
            let (g, events) = flushed(e);
            let cut: int = if e.quiet_run > 8 {
                480 * (e.quiet_run - 8)
            } else {
                0
            };
            &&& e.in_speech && e.speech_frames >= e.min_speech_frames ==> events == seq![
                Heard::Phrase(e.phrase.take(e.phrase.len() - cut)),
            ]
            &&& !e.in_speech || e.speech_frames < e.min_speech_frames ==> events.len() == 0
            &&& !g.in_speech
            &&& g.pending.len() == 0
            &&& g.pre_roll.len() == 0
            &&& g.phrase.len() == 0
            &&& g.seen == e.seen
            &&& g.silence_frames == e.silence_frames && g.min_speech_frames == e.min_speech_frames
                && g.max_frames == e.max_frames && g.partial_every == e.partial_every && g.level
                == e.level
        }),
{
}

/// The quietest of some levels is one of them, or the greatest there is, and none is below it.
pub proof fn law_the_quietest_is_the_least(levels: Seq<u32>)
    ensures
        quietest_of(levels) <= 0x7f7f_ffff,
        forall|i: int| 0 <= i < levels.len() ==> quietest_of(levels) <= #[trigger] levels[i],
        quietest_of(levels) == 0x7f7f_ffff || levels.contains(quietest_of(levels)),
    decreases levels.len(),
{
    if levels.len() > 0 {
        let front = levels.drop_last();
        law_the_quietest_is_the_least(front);
        assert forall|i: int| 0 <= i < levels.len() implies quietest_of(levels)
            <= #[trigger] levels[i] by {
            if i < front.len() {
                assert(front[i] == levels[i]);
            }
        }
        if quietest_of(levels) == levels.last() {
            assert(levels[levels.len() - 1] == levels.last());
        } else if front.contains(quietest_of(front)) {
            let i = front.index_of(quietest_of(front));
            assert(levels[i] == quietest_of(front));
        }
    }
}

/// Between phrases the noise floor follows the room: quickly for the first ten frames, later
/// faster down than up. Within a phrase it stays, unless even the quietest of the last fifty
/// frames is above it; then it rises a little towards that.
pub proof fn law_the_floor_follows_the_room<S>(e: Ear<S>, level: u32, noise: u32)
    requires
        e.wf(),
    ensures
        !e.in_speech && e.seen < 10 ==> floor_step(e, level, noise) == (FloorStep::Follow {
            percent: 30,
        }),
        !e.in_speech && e.seen >= 10 && level < noise ==> floor_step(e, level, noise) == (
        FloorStep::Follow { percent: 10 }),
        !e.in_speech && e.seen >= 10 && level >= noise ==> floor_step(e, level, noise) == (
        FloorStep::Follow { percent: 1 }),
        e.in_speech && e.recent.len() < 50 ==> floor_step(e, level, noise) is Hold,
        e.in_speech && e.recent.len() == 50 ==> {
            let last = e.recent.push(level).skip(1);
            let quietest = quietest_of(last);
            &&& quietest > noise ==> floor_step(e, level, noise) == (FloorStep::Raise {
                quietest,
                percent: 5,
            })
            &&& quietest <= noise ==> floor_step(e, level, noise) is Hold
        },
{
    assert(e.recent.push(level).skip(1) =~= e.recent.push(level).drop_first());
}

/// The loudness of a frame is noted, and within a phrase the last fifty are remembered.
pub proof fn law_loudness_is_remembered<S>(e: Ear<S>, level: u32)
    requires
        e.wf(),
    ensures
        weighed(e, level).level == level,
        !e.in_speech ==> weighed(e, level) == (Ear { level, ..e }),
        e.in_speech ==> weighed(e, level).recent.last() == level,
        e.in_speech && e.recent.len() < 50 ==> weighed(e, level) == (Ear {
            level,
            recent: e.recent.push(level),
            ..e
        }),
        e.in_speech && e.recent.len() == 50 ==> weighed(e, level) == (Ear {
            level,
            recent: e.recent.push(level).skip(1),
            ..e
        }),
{
    assert(e.recent.push(level).skip(1) =~= e.recent.push(level).drop_first());
}

/// The settings count in frames of 30 ms, with a least number of each.
pub proof fn law_settings_count_in_frames<S>(cfg: AudioConfig)
    requires
        cfg.max_phrase_ms <= usize::MAX,
    ensures
        ({
            let e = fresh::<S>(cfg);
            &&& e.partial_every >= 10 && e.silence_frames >= 5 && e.min_speech_frames >= 1
                && e.max_frames >= 66
            &&& cfg.stream_interval_ms >= 300 ==> 30 * e.partial_every <= cfg.stream_interval_ms
                < 30 * (e.partial_every + 1)
            &&& cfg.stream_interval_ms < 300 ==> e.partial_every == 10
            &&& cfg.silence_ms >= 150 ==> 30 * e.silence_frames <= cfg.silence_ms < 30 * (
            e.silence_frames + 1)
            &&& cfg.silence_ms < 150 ==> e.silence_frames == 5
            &&& cfg.min_speech_ms >= 30 ==> 30 * e.min_speech_frames <= cfg.min_speech_ms < 30 * (
            e.min_speech_frames + 1)
            &&& cfg.min_speech_ms < 30 ==> e.min_speech_frames == 1
            &&& cfg.max_phrase_ms >= 2000 ==> 30 * e.max_frames <= cfg.max_phrase_ms < 30 * (
            e.max_frames + 1)
            &&& cfg.max_phrase_ms < 2000 ==> e.max_frames == 66
            &&& !e.in_speech && e.seen == 0 && e.loud_run == 0 && e.pending.len() == 0
                && e.pre_roll.len() == 0 && e.phrase.len() == 0 && e.recent.len() == 0
        }),
{
}

/// What is heard keeps its order, and every clip its samples.
pub proof fn law_events_keep_their_clips<S>(events: Seq<VadEvent<S>>, i: int, clip: Vec<S>)
    ensures
        heard(events).len() == events.len(),
        0 <= i < events.len() ==> heard(events)[i] == events[i]@,
        VadEvent::Partial(clip)@ == Heard::Partial(clip@),
        VadEvent::Phrase(clip)@ == Heard::Phrase(clip@),
        VadEvent::<S>::SpeechStarted@ is SpeechStarted,
{
}

} // verus!
