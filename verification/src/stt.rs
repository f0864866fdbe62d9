//! What surrounds a Whisper transcription: the audio it is given, the prompt, how much of its
//! window it looks at, and what becomes of its text.

use vstd::prelude::*;

use crate::audio;
use crate::config::SttConfig;
use crate::single;
use crate::single::round_to_single;
use crate::text;
use crate::text::{
    copy_chars, extend_chars, from_chars, join_words, same_text, split_words, text_to_lowercase,
    to_chars, trimmed,
};

verus! {

// ---------------------------------------------------------------------------
// Before the transcription
// ---------------------------------------------------------------------------

/// Whisper refuses clips under a second; anything shorter than this is padded.
pub const SHORTEST_CLIP: usize = 17_600;

/// The clip, made up with silence to the shortest that Whisper takes.
pub fn pad<S: Copy>(audio: &[S], silence: S) -> (r: Vec<S>)
    ensures
        r@ == audio@ + Seq::new(
            if audio@.len() < SHORTEST_CLIP {
                (SHORTEST_CLIP - audio@.len()) as nat
            } else {
                0
            },
            |i: int| silence,
        ),
{
    let mut out: Vec<S> = Vec::new();
    let mut i: usize = 0;
    while i < audio.len()
        invariant
            i <= audio.len(),
            out@ == audio@.take(i as int),
        decreases audio.len() - i,
    {
        out.push(audio[i]);
        i += 1;
    }
    assert(audio@.take(i as int) =~= audio@);
    while out.len() < SHORTEST_CLIP
        invariant
            out@.len() >= audio@.len(),
            out@.len() <= SHORTEST_CLIP || out@.len() == audio@.len(),
            out@ == audio@ + Seq::new((out@.len() - audio@.len()) as nat, |j: int| silence),
        decreases SHORTEST_CLIP - out.len(),
    {
        out.push(silence);
        assert(out@ =~= audio@ + Seq::new((out@.len() - audio@.len()) as nat, |j: int| silence));
    }
    out
}

pub open spec fn ceil_div(a: int, b: int) -> int {
    (a + b - 1) / b
}

/// The window is reckoned in single precision. A second, and likewise a frame, has this many units,
/// enough for the part of a second that one sample takes.
pub const UNITS: u64 = 0x20_0000_0000;

/// The encoder frames that a clip takes up, 50 a second, in units.
pub open spec fn frames_needed(samples: nat) -> nat {
    let seconds = single::single(single::single(samples, 1) * UNITS as nat, 16_000);
    single::single(50 * seconds, 1)
}

/// The frames with a margin of 128 for a preview, and of half as much again and 256 for a final
/// transcript, in units.
pub open spec fn frames_with_margin(needed: nat, preview: bool) -> nat {
    if preview {
        single::single(needed + 128 * UNITS as nat, 1)
    } else {
        single::single(single::single(3 * needed, 2) + 256 * UNITS as nat, 1)
    }
}

/// Encoder frames for a clip with its margin, never less than a floor nor more than the whole.
pub open spec fn window(samples: nat, preview: bool) -> int {
    let floor: int = if preview {
        512
    } else {
        768
    };
    let frames = frames_with_margin(frames_needed(samples), preview) as int;
    ceil_div(audio::clamped(frames, floor * UNITS, 1500 * UNITS), UNITS as int)
}

/// Whisper always encodes a 30 s window (1500 frames, 50 per second). Short dictation phrases
/// need far less. The window must comfortably cover the clip, or Whisper loops and invents text,
/// hence the generous margin and floor for final transcripts.
pub fn encoder_window(samples: usize, preview: bool) -> (r: i32)
    ensures
        r == window(samples as nat, preview),
{
    if samples >= 480_000 {
        proof {
            law_the_window_covers_the_clip(480_000, preview);
            law_the_window_covers_the_clip(samples as nat, preview);
            law_the_window_grows_with_the_clip(480_000, samples as nat, preview);
        }
        return 1500;
    }
    let exact = round_to_single(samples as u64, 1);
    let seconds = round_to_single(exact * UNITS, 16_000);
    let needed = round_to_single(50 * seconds, 1);
    let frames = if preview {
        round_to_single(needed + 128 * UNITS, 1)
    } else {
        let more = round_to_single(3 * needed, 2);
        round_to_single(more + 256 * UNITS, 1)
    };
    let floor: u64 = if preview {
        512 * UNITS
    } else {
        768 * UNITS
    };
    let kept: u64 = if frames < floor {
        floor
    } else if frames > 1500 * UNITS {
        1500 * UNITS
    } else {
        frames
    };
    ((kept + UNITS - 1) / UNITS) as i32
}

/// The last 200 characters of a text.
pub open spec fn tail_of(s: Seq<char>) -> Seq<char> {
    if s.len() <= 200 {
        s
    } else {
        s.skip(s.len() - 200)
    }
}

/// The vocabulary and the end of what was dictated, as far as either says anything.
pub open spec fn prompt(vocabulary: Seq<char>, context: Seq<char>) -> Seq<char> {
    let v = text::trim(vocabulary);
    let t = text::trim(tail_of(context));
    if v.len() == 0 {
        t
    } else if t.len() == 0 {
        v
    } else {
        v.push(' ') + t
    }
}

pub fn build_prompt(vocabulary: &str, context: &str) -> (r: String)
    ensures
        r@ == prompt(vocabulary@, context@),
{
    let chars = to_chars(context);
    let from: usize = if chars.len() <= 200 {
        0
    } else {
        chars.len() - 200
    };
    let tail = copy_chars(&chars, from, chars.len());
    assert(tail@ =~= tail_of(context@));
    let t = trimmed(&tail);
    let mut v = trimmed(&to_chars(vocabulary));
    if v.len() == 0 {
        return from_chars(&t);
    }
    if t.len() > 0 {
        v.push(' ');
        extend_chars(&mut v, &t);
    }
    from_chars(&v)
}

/// The inference threads: as configured, or what the machine offers, from one to eight, or four
/// where it does not say.
pub open spec fn threads_wanted(configured: usize, available: Option<usize>) -> usize {
    if configured > 0 {
        configured
    } else {
        match available {
            Some(n) => audio::clamped(n as int, 1, 8) as usize,
            None => 4,
        }
    }
}

pub fn thread_count(configured: usize, available: Option<usize>) -> (r: i32)
    ensures
        r == threads_wanted(configured, available) as i32,
{
    let n: usize = if configured > 0 {
        configured
    } else {
        match available {
            Some(n) => if n < 1 {
                1
            } else if n > 8 {
                8
            } else {
                n
            },
            None => 4,
        }
    };
    #[verifier::truncate]
    (n as i32)
}

/// The language to ask for; `None` lets Whisper guess.
pub fn language_for(english_only: bool, configured: &str) -> (r: Option<String>)
    ensures
        english_only ==> r is Some && r->0@ == "en"@,
        !english_only && (configured@.len() == 0 || configured@ == "auto"@) ==> r is None,
        !english_only && !(configured@.len() == 0 || configured@ == "auto"@) ==> r is Some && r->0@
            == configured@,
{
    if english_only {
        return Some("en".to_owned());
    }
    if configured.is_empty() || same_text(configured, "auto") {
        return None;
    }
    Some(configured.to_owned())
}

impl SttConfig {
    /// The model that transcribes: live words always take the first, finished phrases the second
    /// where there is one.
    pub open spec fn model_used(self, preview: bool) -> Seq<char> {
        match self.final_model {
            Some(m) if !preview => m@,
            _ => self.model@,
        }
    }

    pub fn model_for(&self, preview: bool) -> (r: &str)
        ensures
            r@ == self.model_used(preview),
    {
        match &self.final_model {
            Some(m) => if preview {
                self.model.as_str()
            } else {
                m.as_str()
            },
            None => self.model.as_str(),
        }
    }
}

// ---------------------------------------------------------------------------
// After the transcription
// ---------------------------------------------------------------------------

/// How far a transcript has been read: what is kept, how many brackets are open, and whether a
/// passage between stars is.
pub struct Reading {
    pub kept: Seq<char>,
    pub depth: nat,
    pub in_stars: bool,
}

pub open spec fn read_one(r: Reading, c: char) -> Reading {
    if c == '[' || c == '(' {
        Reading { depth: r.depth + 1, ..r }
    } else if (c == ']' || c == ')') && r.depth > 0 {
        Reading { depth: (r.depth - 1) as nat, ..r }
    } else if c == '*' {
        Reading { in_stars: !r.in_stars, ..r }
    } else if r.depth == 0 && !r.in_stars {
        Reading { kept: r.kept.push(c), ..r }
    } else {
        r
    }
}

pub open spec fn read(raw: Seq<char>) -> Reading
    decreases raw.len(),
{
    if raw.len() == 0 {
        Reading { kept: Seq::empty(), depth: 0, in_stars: false }
    } else {
        read_one(read(raw.drop_last()), raw.last())
    }
}

/// What Whisper tends to invent for silence.
pub open spec fn is_hallucination(s: Seq<char>) -> bool {
    ||| s == "thank you."@
    ||| s == "thanks for watching!"@
    ||| s == "thank you for watching."@
    ||| s == "you"@
    ||| s == "."@
    ||| s == "bye."@
}

/// The transcript without annotations and inventions, with single spaces.
pub open spec fn cleaned(raw: Seq<char>) -> Seq<char> {
    let t = text::joined(text::words(read(raw).kept));
    if is_hallucination(text::lowercased(t)) {
        Seq::empty()
    } else {
        t
    }
}

/// Drops Whisper's non-speech annotations and the phrases it tends to invent for silence, and
/// tidies white space.
pub fn clean(raw: &str) -> (r: String)
    ensures
        r@ == cleaned(raw@),
{
    let chars = to_chars(raw);
    let mut out: Vec<char> = Vec::new();
    let mut depth: usize = 0;
    let mut in_stars = false;
    let mut i: usize = 0;
    while i < chars.len()
        invariant
            i <= chars.len(),
            depth <= i,
            out@ == read(chars@.take(i as int)).kept,
            depth == read(chars@.take(i as int)).depth,
            in_stars == read(chars@.take(i as int)).in_stars,
        decreases chars.len() - i,
    {
        assert(chars@.take(i + 1).drop_last() =~= chars@.take(i as int));
        let c = chars[i];
        if c == '[' || c == '(' {
            depth += 1;
        } else if (c == ']' || c == ')') && depth > 0 {
            depth -= 1;
        } else if c == '*' {
            in_stars = !in_stars;
        } else if depth == 0 && !in_stars {
            out.push(c);
        }
        i += 1;
    }
    assert(chars@.take(i as int) =~= chars@);
    let text = from_chars(&join_words(&split_words(&out)));
    let lower = text_to_lowercase(&text);
    if same_text(&lower, "thank you.") || same_text(&lower, "thanks for watching!") || same_text(
        &lower,
        "thank you for watching.",
    ) || same_text(&lower, "you") || same_text(&lower, ".") || same_text(&lower, "bye.") {
        return String::new();
    }
    text
}

/// A piece of a transcription: its text, where it is readable, and whether Whisper doubts that
/// anything was said.
pub struct Segment {
    pub no_speech: bool,
    pub text: Option<String>,
}

/// The texts of the segments in which something was said, end to end.
pub open spec fn spoken(segments: Seq<Segment>) -> Seq<char>
    decreases segments.len(),
{
    if segments.len() == 0 {
        Seq::empty()
    } else {
        let before = spoken(segments.drop_last());
        match segments.last().text {
            Some(t) if !segments.last().no_speech => before + t@,
            _ => before,
        }
    }
}

/// The text of a transcription.
pub fn transcript(segments: &[Segment]) -> (r: String)
    ensures
        r@ == cleaned(spoken(segments@)),
{
    let mut out: Vec<char> = Vec::new();
    let mut i: usize = 0;
    while i < segments.len()
        invariant
            i <= segments.len(),
            out@ == spoken(segments@.take(i as int)),
        decreases segments.len() - i,
    {
        assert(segments@.take(i + 1).drop_last() =~= segments@.take(i as int));
        if !segments[i].no_speech {
            if let Some(t) = &segments[i].text {
                extend_chars(&mut out, &to_chars(t));
            }
        }
        i += 1;
    }
    assert(segments@.take(i as int) =~= segments@);
    clean(&from_chars(&out))
}

// ---------------------------------------------------------------------------
// Laws
// ---------------------------------------------------------------------------

/// The window covers the clip, up to the 30 s that Whisper can hear at once.
pub proof fn law_the_window_covers_the_clip(samples: nat, preview: bool)
    ensures
        samples <= 480_000 ==> window(samples, preview) * 320 >= samples,
        window(samples, preview) <= 1500,
        window(samples, preview) >= if preview {
            512int
        } else {
            768
        },
{
    // Short clips are covered by the floor; of longer ones rounding takes next to nothing.
    if 163_840 < samples <= 480_000 {
        assert(single::single(samples, 1) == samples);
        let seconds = single::single(samples * UNITS as nat, 16_000);
        let needed = frames_needed(samples);
        single::lemma_single_is_near(samples * UNITS as nat, 16_000);
        single::lemma_single_is_near(50 * seconds, 1);
        if preview {
            single::lemma_single_is_near(needed + 128 * UNITS as nat, 1);
        } else {
            let more = single::single(3 * needed, 2);
            single::lemma_single_is_near(3 * needed, 2);
            single::lemma_single_is_near(more + 256 * UNITS as nat, 1);
        }
        assert(320 * frames_with_margin(needed, preview) >= samples * UNITS);
    }
}

/// A longer clip never gets a smaller window.
pub proof fn law_the_window_grows_with_the_clip(a: nat, b: nat, preview: bool)
    requires
        a <= b,
    ensures
        window(a, preview) <= window(b, preview),
{
    let (exact_a, exact_b) = (single::single(a, 1), single::single(b, 1));
    single::lemma_single_grows(a, b, 1);
    let (secs_a, secs_b) = (exact_a * UNITS as nat, exact_b * UNITS as nat);
    single::lemma_single_grows(secs_a, secs_b, 16_000);
    single::lemma_single_grows(
        50 * single::single(secs_a, 16_000),
        50 * single::single(secs_b, 16_000),
        1,
    );
    let (x, y) = (frames_needed(a), frames_needed(b));
    if preview {
        single::lemma_single_grows(x + 128 * UNITS as nat, y + 128 * UNITS as nat, 1);
    } else {
        single::lemma_single_grows(3 * x, 3 * y, 2);
        single::lemma_single_grows(
            single::single(3 * x, 2) + 256 * UNITS as nat,
            single::single(3 * y, 2) + 256 * UNITS as nat,
            1,
        );
    }
}

/// A text holds none of the characters that open an annotation.
pub open spec fn unmarked(s: Seq<char>) -> bool {
    forall|i: int| 0 <= i < s.len() ==> unmarked_char(#[trigger] s[i])
}

pub open spec fn unmarked_char(c: char) -> bool {
    c != '[' && c != '(' && c != '*'
}

proof fn lemma_kept_is_unmarked(raw: Seq<char>)
    ensures
        unmarked(read(raw).kept),
    decreases raw.len(),
{
    if raw.len() > 0 {
        lemma_kept_is_unmarked(raw.drop_last());
    }
}

proof fn lemma_words_unmarked(s: Seq<char>)
    requires
        unmarked(s),
    ensures
        forall|i: int| 0 <= i < text::words(s).len() ==> unmarked(#[trigger] text::words(s)[i]),
    decreases s.len(),
{
    if s.len() > 0 {
        assert(unmarked(s.drop_last()));
        lemma_words_unmarked(s.drop_last());
        assert(unmarked_char(s[s.len() - 1]));
        let before = text::words(s.drop_last());
        if !text::whitespace(s.last()) && s.len() > 1 && !text::whitespace(s[s.len() - 2]) {
            text::lemma_last_word(s.drop_last());
            assert(unmarked(before[before.len() - 1]));
        }
    }
}

proof fn lemma_joined_unmarked(ws: Seq<Seq<char>>)
    requires
        forall|i: int| 0 <= i < ws.len() ==> unmarked(#[trigger] ws[i]),
    ensures
        unmarked(text::joined(ws)),
    decreases ws.len(),
{
    if ws.len() > 1 {
        assert forall|i: int| 0 <= i < ws.drop_last().len() implies unmarked(
            #[trigger] ws.drop_last()[i],
        ) by {
            assert(unmarked(ws[i]));
        }
        lemma_joined_unmarked(ws.drop_last());
        assert(unmarked(ws[ws.len() - 1]));
    } else if ws.len() == 1 {
        assert(unmarked(ws[0]));
    }
}

proof fn lemma_unmarked_is_kept(s: Seq<char>)
    requires
        unmarked(s),
    ensures
        read(s).kept == s,
        read(s).depth == 0,
        !read(s).in_stars,
    decreases s.len(),
{
    if s.len() > 0 {
        assert(unmarked(s.drop_last()));
        lemma_unmarked_is_kept(s.drop_last());
        assert(unmarked_char(s[s.len() - 1]));
        assert(s.drop_last().push(s.last()) =~= s);
    } else {
        assert(s =~= Seq::empty());
    }
}

/// A cleaned transcript holds no annotation and only single spaces between its words.
pub proof fn law_clean_text_is_tidy(raw: Seq<char>)
    ensures
        unmarked(cleaned(raw)),
        text::joined(text::words(cleaned(raw))) == cleaned(raw),
{
    let kept = read(raw).kept;
    lemma_kept_is_unmarked(raw);
    lemma_words_unmarked(kept);
    lemma_joined_unmarked(text::words(kept));
    text::lemma_words_are_words(kept);
    text::lemma_words_of_joined(text::words(kept));
}

/// Cleaning a transcript twice changes nothing more.
pub proof fn law_clean_is_idempotent(raw: Seq<char>)
    ensures
        cleaned(cleaned(raw)) == cleaned(raw),
{
    law_clean_text_is_tidy(raw);
    lemma_unmarked_is_kept(cleaned(raw));
    let t = text::joined(text::words(read(raw).kept));
    if is_hallucination(text::lowercased(t)) {
        assert(cleaned(raw) == Seq::<char>::empty());
    }
}

/// What is invented for silence never comes through, in whatever case it is written.
pub proof fn law_inventions_are_dropped(raw: Seq<char>)
    ensures
        !is_hallucination(text::lowercased(cleaned(raw))),
{
    reveal_strlit("thank you.");
    reveal_strlit("thanks for watching!");
    reveal_strlit("thank you for watching.");
    reveal_strlit("you");
    reveal_strlit(".");
    reveal_strlit("bye.");
    assert(text::lowercased(Seq::empty()) =~= Seq::empty());
}

/// Nothing but annotations and inventions is lost: a transcript without brackets and stars comes
/// through with all of its words, single spaces between them, unless it is, in whatever case, one
/// of the few phrases that are invented for silence.
pub proof fn law_everything_else_comes_through(raw: Seq<char>)
    requires
        forall|i: int|
            0 <= i < raw.len() ==> #[trigger] raw[i] != '[' && raw[i] != '(' && raw[i] != '*',
    ensures
        ({
            let t = text::joined(text::words(raw));
            let low = text::lowercased(t);
            let invented = low == "thank you."@ || low == "thanks for watching!"@ || low
                == "thank you for watching."@ || low == "you"@ || low == "."@ || low == "bye."@;
            &&& invented ==> cleaned(raw).len() == 0
            &&& !invented ==> cleaned(raw) == t
        }),
{
    assert forall|i: int| 0 <= i < raw.len() implies unmarked_char(#[trigger] raw[i]) by {}
    lemma_unmarked_is_kept(raw);
}

/// No annotation opens, and none closes, in a text.
pub open spec fn without_marks(s: Seq<char>) -> bool {
    forall|i: int|
        0 <= i < s.len() ==> #[trigger] s[i] != '[' && s[i] != '(' && s[i] != '*' && s[i] != ']'
            && s[i] != ')'
}

proof fn lemma_read_on(a: Seq<char>, b: Seq<char>)
    requires
        without_marks(b),
    ensures
        ({
            let r = read(a);
            read(a + b) == (Reading {
                kept: if r.depth == 0 && !r.in_stars {
                    r.kept + b
                } else {
                    r.kept
                },
                ..r
            })
        }),
    decreases b.len(),
{
    if b.len() == 0 {
        assert(a + b =~= a);
        assert(read(a).kept + b =~= read(a).kept);
    } else {
        assert((a + b).drop_last() =~= a + b.drop_last());
        assert forall|i: int| 0 <= i < b.drop_last().len() implies #[trigger] b.drop_last()[i]
            != '[' && b.drop_last()[i] != '(' && b.drop_last()[i] != '*' && b.drop_last()[i] != ']'
            && b.drop_last()[i] != ')' by {
            assert(b[i] != '[');
        }
        lemma_read_on(a, b.drop_last());
        let c = b[b.len() - 1];
        assert(c != '[' && c != '(');
        let r = read(a);
        assert((r.kept + b.drop_last()).push(c) =~= r.kept + b);
    }
}

proof fn lemma_read_push(a: Seq<char>, c: char)
    ensures
        read(a.push(c)) == read_one(read(a), c),
{
    assert(a.push(c).drop_last() =~= a);
}

proof fn lemma_read_from(a: Seq<char>, b: Seq<char>, after: Seq<char>)
    requires
        read(a) == read(b),
    ensures
        read(a + after) == read(b + after),
    decreases after.len(),
{
    if after.len() == 0 {
        assert(a + after =~= a);
        assert(b + after =~= b);
    } else {
        lemma_read_from(a, b, after.drop_last());
        assert((a + after).drop_last() =~= a + after.drop_last());
        assert((b + after).drop_last() =~= b + after.drop_last());
    }
}

/// What stands in brackets, of either kind, is dropped, wherever it stands; what stands around
/// them is not. A bracket that closes nothing is kept, and one that is never closed takes the rest
/// with it.
pub proof fn law_bracketed_annotations_are_dropped(
    before: Seq<char>,
    open: char,
    note: Seq<char>,
    close: char,
    after: Seq<char>,
)
    requires
        without_marks(note),
        open == '[' || open == '(',
        close == ']' || close == ')',
    ensures
        cleaned(before.push(open) + note.push(close) + after) == cleaned(before + after),
        cleaned(before.push(open) + note) == cleaned(before),
        without_marks(before) && without_marks(after) ==> read(before.push(close) + after).kept
            == before.push(close) + after,
{
    let inside = before.push(open) + note;
    let whole = before.push(open) + note.push(close);
    lemma_read_push(before, open);
    lemma_read_on(before.push(open), note);
    lemma_read_push(inside, close);
    assert(inside.push(close) =~= whole);
    lemma_read_from(whole, before, after);
    if without_marks(before) && without_marks(after) {
        lemma_read_on(Seq::empty(), before);
        assert(Seq::<char>::empty() + before =~= before);
        lemma_read_push(before, close);
        lemma_read_on(before.push(close), after);
    }
}

/// Brackets may stand within brackets: the outer ones close last.
pub proof fn law_nested_annotations_are_dropped(
    before: Seq<char>,
    open: char,
    note: Seq<char>,
    inner_open: char,
    inner: Seq<char>,
    inner_close: char,
    more: Seq<char>,
    close: char,
    after: Seq<char>,
)
    requires
        without_marks(before),
        without_marks(note),
        without_marks(inner),
        without_marks(more),
        without_marks(after),
        open == '[' || open == '(',
        inner_open == '[' || inner_open == '(',
        close == ']' || close == ')',
        inner_close == ']' || inner_close == ')',
    ensures
        cleaned(
            before.push(open) + note.push(inner_open) + inner.push(inner_close) + more.push(close)
                + after,
        ) == cleaned(before + after),
{
    lemma_read_on(Seq::empty(), before);
    assert(Seq::<char>::empty() + before =~= before);
    lemma_read_on(before, after);
    let a = before.push(open);
    lemma_read_push(before, open);
    lemma_read_on(a, note);
    lemma_read_push(a + note, inner_open);
    let b = a + note.push(inner_open);
    assert((a + note).push(inner_open) =~= b);
    lemma_read_on(b, inner);
    lemma_read_push(b + inner, inner_close);
    let c = b + inner.push(inner_close);
    assert((b + inner).push(inner_close) =~= c);
    lemma_read_on(c, more);
    lemma_read_push(c + more, close);
    let d = c + more.push(close);
    assert((c + more).push(close) =~= d);
    lemma_read_on(d, after);
}

/// How many stars there are in a text.
pub open spec fn stars(s: Seq<char>) -> nat
    decreases s.len(),
{
    if s.len() == 0 {
        0
    } else if s.last() == '*' {
        stars(s.drop_last()) + 1
    } else {
        stars(s.drop_last())
    }
}

/// How many brackets are open at the end of a text; one that closes nothing does not count.
pub open spec fn unclosed(s: Seq<char>) -> nat
    decreases s.len(),
{
    if s.len() == 0 {
        0
    } else {
        let n = unclosed(s.drop_last());
        if s.last() == '[' || s.last() == '(' {
            n + 1
        } else if (s.last() == ']' || s.last() == ')') && n > 0 {
            (n - 1) as nat
        } else {
            n
        }
    }
}

proof fn lemma_reading_counts(s: Seq<char>)
    ensures
        read(s).depth == unclosed(s),
        read(s).in_stars == (stars(s) % 2 == 1),
    decreases s.len(),
{
    if s.len() > 0 {
        lemma_reading_counts(s.drop_last());
    }
}

/// What stands between two stars is dropped, wherever it stands, and what stands around them is
/// not. A star without a second takes the rest with it.
pub proof fn law_starred_annotations_are_dropped(
    before: Seq<char>,
    note: Seq<char>,
    after: Seq<char>,
)
    requires
        stars(before) % 2 == 0,
        without_marks(note),
    ensures
        cleaned(before.push('*') + note.push('*') + after) == cleaned(before + after),
        cleaned(before.push('*') + note) == cleaned(before),
{
    let inside = before.push('*') + note;
    let whole = before.push('*') + note.push('*');
    lemma_reading_counts(before);
    lemma_read_push(before, '*');
    lemma_read_on(before.push('*'), note);
    lemma_read_push(inside, '*');
    assert(inside.push('*') =~= whole);
    lemma_read_from(whole, before, after);
}

/// Nothing that stands in an annotation matters, whatever else the transcript holds.
pub proof fn law_annotations_say_nothing(before: Seq<char>, c: char, after: Seq<char>)
    requires
        unclosed(before) > 0 || stars(before) % 2 == 1,
        c != '[' && c != '(' && c != '*',
        c == ']' || c == ')' ==> unclosed(before) == 0,
    ensures
        cleaned(before.push(c) + after) == cleaned(before + after),
{
    lemma_reading_counts(before);
    lemma_read_push(before, c);
    lemma_read_from(before.push(c), before, after);
}

/// Stars and brackets are told apart: it does not matter in which order two of them stand.
pub proof fn law_stars_and_brackets_are_apart(before: Seq<char>, c: char, after: Seq<char>)
    requires
        c == '[' || c == '(' || ((c == ']' || c == ')') && unclosed(before) > 0),
    ensures
        cleaned(before.push('*').push(c) + after) == cleaned(before.push(c).push('*') + after),
{
    lemma_reading_counts(before);
    lemma_read_push(before, '*');
    lemma_read_push(before.push('*'), c);
    lemma_read_push(before, c);
    lemma_read_push(before.push(c), '*');
    lemma_read_from(before.push('*').push(c), before.push(c).push('*'), after);
}

/// A transcription is the texts of its segments, end to end; a segment in which nothing was said,
/// or whose text cannot be read, adds nothing.
pub proof fn law_segments_are_put_end_to_end(before: Seq<Segment>, s: Segment)
    ensures
        spoken(Seq::empty()).len() == 0,
        s.no_speech || s.text is None ==> spoken(before.push(s)) == spoken(before),
        !s.no_speech && s.text is Some ==> spoken(before.push(s)) == spoken(before) + s.text->0@,
{
    assert(before.push(s).drop_last() =~= before);
}

/// The prompt is the vocabulary and the last 200 characters of what was dictated, each without the
/// white space around it, with a space between them where both say something.
pub proof fn law_the_prompt_is_vocabulary_and_context(
    vocabulary: Seq<char>,
    earlier: Seq<char>,
    recent: Seq<char>,
)
    requires
        recent.len() == 200 || (recent.len() < 200 && earlier.len() == 0),
    ensures
        ({
            let v = text::trim(vocabulary);
            let t = text::trim(recent);
            let p = prompt(vocabulary, earlier + recent);
            &&& v.len() == 0 ==> p == t
            &&& t.len() == 0 ==> p == v
            &&& v.len() > 0 && t.len() > 0 ==> p == v + seq![' '] + t
        }),
{
    let context = earlier + recent;
    if recent.len() == 200 {
        assert(context.skip(context.len() - 200) =~= recent);
        if earlier.len() == 0 {
            assert(context =~= recent);
        }
    } else {
        assert(context =~= recent);
    }
    assert(tail_of(context) == recent);
    let v = text::trim(vocabulary);
    let t = text::trim(recent);
    assert(v.push(' ') + t =~= v + seq![' '] + t);
    if v.len() == 0 && t.len() == 0 {
        assert(v =~= t);
    }
}

/// A number of threads that is asked for is taken; otherwise it is the machine's, but at least one
/// and at most eight, and four where the machine does not say.
pub proof fn law_threads_follow_the_machine(configured: usize, available: Option<usize>)
    ensures
        configured > 0 ==> threads_wanted(configured, available) == configured,
        configured == 0 && available is None ==> threads_wanted(configured, available) == 4,
        configured == 0 && available is Some && 1 <= available->0 <= 8 ==> threads_wanted(
            configured,
            available,
        ) == available->0,
        configured == 0 && available is Some && available->0 > 8 ==> threads_wanted(
            configured,
            available,
        ) == 8,
        configured == 0 && available is Some && available->0 == 0 ==> threads_wanted(
            configured,
            available,
        ) == 1,
{
}

/// Live words are always transcribed by the first model; a finished phrase by the second, where
/// there is one.
pub proof fn law_previews_take_the_first_model(stt: SttConfig)
    ensures
        stt.model_used(true) == stt.model@,
        stt.final_model is None ==> stt.model_used(false) == stt.model@,
        stt.final_model is Some ==> stt.model_used(false) == stt.final_model->0@,
{
}

/// The frames of a clip with its margin, as reckoned, are next to what they are.
proof fn lemma_frames_are_close(samples: nat, preview: bool)
    requires
        0 < samples <= 480_000,
    ensures
        ({
            let frames = frames_with_margin(frames_needed(samples), preview) as int;
            &&& preview ==> -UNITS < 320 * frames - (samples + 320 * 128) * UNITS < UNITS
            &&& !preview ==> -UNITS < 640 * frames - (3 * samples + 640 * 256) * UNITS < UNITS
        }),
{
    assert(single::single(samples, 1) == samples);
    let exact = samples * UNITS as nat;
    let seconds = single::single(exact, 16_000);
    let needed = frames_needed(samples);
    single::law_rounding_is_close(exact, 16_000);
    single::law_rounding_is_close(50 * seconds, 1);
    if preview {
        single::law_rounding_is_close(needed + 128 * UNITS as nat, 1);
    } else {
        let more = single::single(3 * needed, 2);
        single::law_rounding_is_close(3 * needed, 2);
        single::law_rounding_is_close(more + 256 * UNITS as nat, 1);
    }
}

/// Whole frames out of ones that are next to `x / k`.
proof fn lemma_whole_frames(x: int, k: int, frames: int, floor: int)
    requires
        k == 320 || k == 640,
        x >= 0,
        0 < floor <= 1500,
        -0x20_0000_0000 < k * frames - x * 0x20_0000_0000 < 0x20_0000_0000,
    ensures
        ({
            let w = ceil_div(
                audio::clamped(frames, floor * UNITS, 1500 * UNITS),
                UNITS as int,
            );
            &&& x / k < floor ==> w == floor
            &&& floor <= x / k < 1500 && x % k != 0 ==> w == x / k + 1
            &&& floor <= x / k < 1500 && x % k == 0 ==> w == x / k || w == x / k + 1
            &&& x / k >= 1500 ==> w == 1500
        }),
{
    let whole = x / k;
    let rest = x % k;
    assert(x == k * whole + rest && 0 <= rest < k) by (nonlinear_arith)
        requires
            k == 320 || k == 640,
            whole == x / k,
            rest == x % k,
    ;
    if k == 320 {
        assert(rest > 0 ==> frames > whole * 0x20_0000_0000);
        assert(frames >= whole * 0x20_0000_0000 - 0x2000_0000);
        assert(frames < (whole + 1) * 0x20_0000_0000);
    } else {
        assert(rest > 0 ==> frames > whole * 0x20_0000_0000);
        assert(frames >= whole * 0x20_0000_0000 - 0x2000_0000);
        assert(frames < (whole + 1) * 0x20_0000_0000);
    }
}

/// A clip gets 50 frames for each second of 16000 samples, and its margin: 128 frames for a
/// preview, and half as much again and 256 for a final transcript. A part of a frame counts as
/// one. There is a floor and a greatest number, and rounding can only add a frame where the frames
/// come out even.
pub proof fn law_the_window_is_the_clip_and_its_margin(samples: nat)
    requires
        samples <= 480_000,
    ensures
        ({
            let w = window(samples, true);
            let whole = samples / 320 + 128;
            &&& whole < 512 ==> w == 512
            &&& 512 <= whole < 1500 && samples % 320 != 0 ==> w == whole + 1
            &&& 512 <= whole < 1500 && samples % 320 == 0 ==> w == whole || w == whole + 1
            &&& whole >= 1500 ==> w == 1500
        }),
        ({
            let w = window(samples, false);
            let whole = 3 * samples / 640 + 256;
            &&& whole < 768 ==> w == 768
            &&& 768 <= whole < 1500 && 3 * samples % 640 != 0 ==> w == whole + 1
            &&& 768 <= whole < 1500 && 3 * samples % 640 == 0 ==> w == whole || w == whole + 1
            &&& whole >= 1500 ==> w == 1500
        }),
{
    if samples > 0 {
        lemma_frames_are_close(samples, true);
        lemma_frames_are_close(samples, false);
        let brief = frames_with_margin(frames_needed(samples), true) as int;
        let long = frames_with_margin(frames_needed(samples), false) as int;
        lemma_whole_frames(samples as int + 320 * 128, 320, brief, 512);
        lemma_whole_frames(3 * samples as int + 640 * 256, 640, long, 768);
    } else {
        single::lemma_single_at_most(128 * UNITS as nat, 1);
        single::lemma_single_at_most(256 * UNITS as nat, 1);
    }
}

/// A clip too short for the decoder is filled up with silence behind it to 1.1 seconds; any other
/// is handed on as it is.
pub proof fn law_short_clips_are_filled_up<S: Copy>(audio: &[S], silence: S, r: Vec<S>, i: int)
    requires
        call_ensures(pad::<S>, (audio, silence), r),
    ensures
        audio@.len() >= 17_600 ==> r@ == audio@,
        audio@.len() < 17_600 ==> r@.len() == 17_600,
        r@.take(audio@.len() as int) == audio@,
        audio@.len() <= i < r@.len() ==> r@[i] == silence,
{
    if audio@.len() >= 17_600 {
        assert(r@ =~= audio@);
    }
    assert(r@.take(audio@.len() as int) =~= audio@);
}

/// An English model is only ever asked for English; any other model for the language that is set,
/// or for none where it is to find out itself.
pub proof fn law_the_language_is_the_one_set(configured: &str, r: Option<String>)
    ensures
        call_ensures(language_for, (true, configured), r) ==> r is Some && r->0@ == "en"@,
        call_ensures(language_for, (false, configured), r) ==> (r is None <==> configured@
            == "auto"@ || configured@ == ""@),
        call_ensures(language_for, (false, configured), r) && r is Some ==> r->0@ == configured@,
{
    reveal_strlit("");
    if configured@.len() == 0 {
        assert(configured@ =~= ""@);
    }
}

} // verus!
