//! The words of a phrase still being spoken.

use vstd::prelude::*;

use crate::commands;
use crate::commands::{could_be_command, may_start_inline_command};
use crate::config::Config;
use crate::text;
use crate::text::{copy_chars, fold_word, from_chars, join_words, same_chars, split_words,
    starts_with, to_chars};

verus! {

/// Decides which words of a phrase still being spoken are safe to type.
///
/// Whisper revises its guess as more audio arrives, so a word is only typed once two successive
/// transcripts agree on it, and never the last word heard (it may be cut off mid-syllable).
/// Anything that could still become a spoken command waits for the final transcript.
pub struct LiveWords {
    id: u64,
    previous: Vec<Vec<char>>,
    settled: Vec<char>,
}

/// The phrase that is being followed, the words of its last transcript, and what of it was given
/// out to be typed.
pub struct Draft {
    pub id: u64,
    pub previous: Seq<Seq<char>>,
    pub settled: Seq<char>,
}

impl View for LiveWords {
    type V = Draft;

    closed spec fn view(&self) -> Draft {
        Draft { id: self.id, previous: text::texts(self.previous@), settled: self.settled@ }
    }
}

/// A phrase of which nothing has been heard.
pub open spec fn blank(id: u64) -> Draft {
    Draft { id, previous: Seq::empty(), settled: Seq::empty() }
}

/// Two words are the same but for case and punctuation.
pub open spec fn alike(a: Seq<char>, b: Seq<char>) -> bool {
    text::folded(a) == text::folded(b)
}

/// How many words, from the `i`th on, two transcripts have in common before they first differ;
/// the words before are counted in.
pub open spec fn agreed(a: Seq<Seq<char>>, b: Seq<Seq<char>>, i: nat) -> nat
    decreases a.len() - i,
{
    if i < a.len() && i < b.len() && alike(a[i as int], b[i as int]) {
        agreed(a, b, i + 1)
    } else {
        i
    }
}

/// The word may be the first of "new line" or "new paragraph".
pub open spec fn may_break(w: Seq<char>) -> bool {
    commands::normalized(w) == "new"@
}

/// The first of the words from the `i`th on and before the `n`th that may break the line, or `n`.
pub open spec fn first_break(ws: Seq<Seq<char>>, i: nat, n: nat) -> nat
    decreases n - i,
{
    if i >= n {
        n
    } else if may_break(ws[i as int]) {
        i
    } else {
        first_break(ws, i + 1, n)
    }
}

/// How many words of a transcript can be relied upon.
pub open spec fn reliable(
    previous: Seq<Seq<char>>,
    ws: Seq<Seq<char>>,
    voice_commands: bool,
) -> nat {
    let a = agreed(previous, ws, 0);
    let n = if ws.len() == 0 {
        0
    } else if a <= ws.len() - 1 {
        a
    } else {
        (ws.len() - 1) as nat
    };
    if voice_commands {
        first_break(ws, 0, n)
    } else {
        n
    }
}

/// The draft after a transcript, and the text to be typed so far where it has grown.
pub open spec fn updated(d: Draft, id: u64, heard: Seq<char>, voice_commands: bool) -> (
    Draft,
    Option<Seq<char>>,
) {
    let d = if id == d.id {
        d
    } else {
        blank(id)
    };
    let ws = text::words(heard);
    let candidate = text::joined(ws.take(reliable(d.previous, ws, voice_commands) as int));
    let d = Draft { previous: ws, ..d };
    if voice_commands && commands::begins_command(candidate) {
        (d, None)
    } else if candidate.len() > d.settled.len() && d.settled.is_prefix_of(candidate) {
        (Draft { settled: candidate, ..d }, Some(candidate))
    } else {
        (d, None)
    }
}

proof fn lemma_agreed_bounds(a: Seq<Seq<char>>, b: Seq<Seq<char>>, i: nat)
    requires
        i <= a.len(),
        i <= b.len(),
    ensures
        i <= agreed(a, b, i) <= a.len(),
        agreed(a, b, i) <= b.len(),
        forall|j: int| i <= j < agreed(a, b, i) ==> alike(#[trigger] a[j], b[j]),
    decreases a.len() - i,
{
    if i < a.len() && i < b.len() && alike(a[i as int], b[i as int]) {
        lemma_agreed_bounds(a, b, i + 1);
    }
}

proof fn lemma_first_break_bounds(ws: Seq<Seq<char>>, i: nat, n: nat)
    requires
        i <= n,
    ensures
        i <= first_break(ws, i, n) <= n,
        forall|j: int| i <= j < first_break(ws, i, n) ==> !may_break(#[trigger] ws[j]),
    decreases n - i,
{
    if i < n && !may_break(ws[i as int]) {
        lemma_first_break_bounds(ws, i + 1, n);
    }
}

proof fn lemma_reliable_bounds(
    previous: Seq<Seq<char>>,
    ws: Seq<Seq<char>>,
    voice_commands: bool,
)
    ensures
        ({
            let n = reliable(previous, ws, voice_commands);
            &&& n == 0 || n < ws.len()
            &&& n <= previous.len()
            &&& forall|j: int| 0 <= j < n ==> alike(#[trigger] previous[j], ws[j])
            &&& voice_commands ==> forall|j: int| 0 <= j < n ==> !may_break(#[trigger] ws[j])
        }),
{
    lemma_agreed_bounds(previous, ws, 0);
    let a = agreed(previous, ws, 0);
    let n = if ws.len() == 0 {
        0
    } else if a <= ws.len() - 1 {
        a
    } else {
        (ws.len() - 1) as nat
    };
    lemma_first_break_bounds(ws, 0, n);
}

impl Default for LiveWords {
    fn default() -> (r: Self)
        ensures
            r@ == blank(0),
    {
        let r = LiveWords { id: 0, previous: Vec::new(), settled: Vec::new() };
        assert(r@.previous =~= Seq::empty());
        r
    }
}

fn count_agreed(a: &[Vec<char>], b: &[Vec<char>]) -> (r: usize)
    ensures
        r == agreed(text::texts(a@), text::texts(b@), 0),
        r <= b@.len(),
{
    let mut i: usize = 0;
    while i < a.len() && i < b.len()
        invariant
            i <= a.len(),
            i <= b.len(),
            agreed(text::texts(a@), text::texts(b@), 0) == agreed(
                text::texts(a@),
                text::texts(b@),
                i as nat,
            ),
        decreases a.len() - i,
    {
        let x = fold_word(&a[i]);
        let y = fold_word(&b[i]);
        if !same_chars(&x, &y) {
            return i;
        }
        i += 1;
    }
    i
}

fn find_break(ws: &[Vec<char>], n: usize) -> (r: usize)
    requires
        n <= ws@.len(),
    ensures
        r == first_break(text::texts(ws@), 0, n as nat),
        r <= n,
{
    let mut i: usize = 0;
    while i < n
        invariant
            i <= n <= ws.len(),
            first_break(text::texts(ws@), 0, n as nat) == first_break(
                text::texts(ws@),
                i as nat,
                n as nat,
            ),
        decreases n - i,
    {
        if may_start_inline_command(&from_chars(&ws[i])) {
            return i;
        }
        i += 1;
    }
    n
}

/// The first `n` words, joined.
fn join_first(ws: &[Vec<char>], n: usize) -> (r: Vec<char>)
    requires
        n <= ws@.len(),
    ensures
        r@ == text::joined(text::texts(ws@).take(n as int)),
{
    let mut first: Vec<Vec<char>> = Vec::new();
    let mut i: usize = 0;
    while i < n
        invariant
            i <= n <= ws.len(),
            text::texts(first@) =~= text::texts(ws@).take(i as int),
        decreases n - i,
    {
        let ghost before = first@;
        first.push(copy_chars(&ws[i], 0, ws[i].len()));
        assert(first@.last()@ =~= ws@[i as int]@);
        assert(text::texts(first@) =~= text::texts(before).push(ws@[i as int]@));
        i += 1;
    }
    join_words(&first)
}

impl LiveWords {
    /// Takes the next transcript of a phrase; returns the settled text for the phrase when it has
    /// grown.
    pub fn update(&mut self, id: u64, text: &str, cfg: &Config) -> (r: Option<String>)
        ensures
            ({
                let u = updated(old(self)@, id, text@, cfg.typing.voice_commands);
                &&& final(self)@ == u.0
                &&& r is Some <==> u.1 is Some
                &&& r is Some ==> r->0@ == u.1->0
            }),
    {
        if id != self.id {
            *self = LiveWords { id, previous: Vec::new(), settled: Vec::new() };
            assert(self@.previous =~= Seq::empty());
        }
        let ws = split_words(&to_chars(text));
        let agreed_n = count_agreed(&self.previous, &ws);
        let most: usize = if ws.len() == 0 {
            0
        } else {
            ws.len() - 1
        };
        let mut n: usize = if agreed_n <= most {
            agreed_n
        } else {
            most
        };
        if cfg.typing.voice_commands {
            // Stop before a possible "new line" / "new paragraph".
            n = find_break(&ws, n);
        }
        let candidate = join_first(&ws, n);
        self.previous = ws;
        let shown = from_chars(&candidate);
        if cfg.typing.voice_commands && could_be_command(&shown) {
            return None;
        }
        if candidate.len() > self.settled.len() && starts_with(&candidate, &self.settled) {
            self.settled = candidate;
            return Some(shown);
        }
        None
    }
}

// ---------------------------------------------------------------------------
// Laws
// ---------------------------------------------------------------------------

/// Nothing already given out is taken back while the phrase goes on: the settled text only grows
/// at its end.
pub proof fn law_settled_text_only_grows(d: Draft, heard: Seq<char>, voice_commands: bool)
    ensures
        d.settled.is_prefix_of(updated(d, d.id, heard, voice_commands).0.settled),
{
}

/// Every word given out stands in the new transcript and, but for case and punctuation, in the
/// one before it, and is not the newest word of the new one.
pub proof fn law_only_agreed_words_settle(d: Draft, id: u64, heard: Seq<char>, voice_commands: bool)
    ensures
        updated(d, id, heard, voice_commands).1 matches Some(settled) ==> {
            let ws = text::words(heard);
            let s = text::words(settled);
            &&& id == d.id
            &&& 0 < s.len() < ws.len()
            &&& s.len() <= d.previous.len()
            &&& forall|i: int|
                0 <= i < s.len() ==> #[trigger] s[i] == ws[i] && alike(d.previous[i], s[i])
        },
{
    let d0 = if id == d.id {
        d
    } else {
        blank(id)
    };
    let ws = text::words(heard);
    lemma_reliable_bounds(d0.previous, ws, voice_commands);
    let n = reliable(d0.previous, ws, voice_commands);
    text::lemma_words_are_words(heard);
    text::lemma_words_of_joined(ws.take(n as int));
}

/// While spoken commands are understood, nothing is given out that may still become one.
pub proof fn law_possible_commands_wait(d: Draft, id: u64, heard: Seq<char>)
    ensures
        updated(d, id, heard, true).1 matches Some(settled) ==> {
            &&& !commands::begins_command(settled)
            &&& commands::whole_phrase(commands::normalized(settled)) is None
            &&& forall|i: int|
                0 <= i < text::words(settled).len() ==> !may_break(
                    #[trigger] text::words(settled)[i],
                )
        },
{
    let d0 = if id == d.id {
        d
    } else {
        blank(id)
    };
    let ws = text::words(heard);
    lemma_reliable_bounds(d0.previous, ws, true);
    let n = reliable(d0.previous, ws, true);
    text::lemma_words_are_words(heard);
    text::lemma_words_of_joined(ws.take(n as int));
    let settled = text::joined(ws.take(n as int));
    if commands::whole_phrase(commands::normalized(settled)) is Some {
        commands::law_commands_could_be_commands(settled);
    }
}

/// A new phrase starts from nothing, whatever was heard of the one before.
pub proof fn law_phrases_are_followed_apart(
    d: Draft,
    e: Draft,
    id: u64,
    heard: Seq<char>,
    voice_commands: bool,
)
    requires
        d.id != id,
        e.id != id,
    ensures
        updated(d, id, heard, voice_commands) == updated(e, id, heard, voice_commands),
        updated(d, id, heard, voice_commands).1 is None,
{
    law_only_agreed_words_settle(d, id, heard, voice_commands);
}

/// How many words can be typed: `n` words of the new transcript are in the one before too, but for
/// case and punctuation, not counting its newest word nor, while commands are understood, anything
/// from a possible line break on; and no more are.
pub open spec fn can_settle(
    previous: Seq<Seq<char>>,
    ws: Seq<Seq<char>>,
    voice_commands: bool,
    n: int,
) -> bool {
    &&& 0 <= n <= previous.len()
    &&& n == 0 || n < ws.len()
    &&& forall|i: int| 0 <= i < n ==> text::folded(#[trigger] previous[i]) == text::folded(ws[i])
    &&& voice_commands ==> forall|i: int|
        0 <= i < n ==> commands::normalized(#[trigger] ws[i]) != "new"@
}

proof fn lemma_agreed_stops(a: Seq<Seq<char>>, b: Seq<Seq<char>>, i: nat)
    requires
        i <= a.len(),
        i <= b.len(),
    ensures
        ({
            let k = agreed(a, b, i);
            k == a.len() || k == b.len() || !alike(a[k as int], b[k as int])
        }),
    decreases a.len() - i,
{
    if i < a.len() && i < b.len() && alike(a[i as int], b[i as int]) {
        lemma_agreed_stops(a, b, i + 1);
    }
}

proof fn lemma_first_break_stops(ws: Seq<Seq<char>>, i: nat, n: nat)
    requires
        i <= n,
    ensures
        first_break(ws, i, n) == n || may_break(ws[first_break(ws, i, n) as int]),
    decreases n - i,
{
    if i < n && !may_break(ws[i as int]) {
        lemma_first_break_stops(ws, i + 1, n);
    }
}

proof fn lemma_reliable_is_most(
    previous: Seq<Seq<char>>,
    ws: Seq<Seq<char>>,
    voice_commands: bool,
    n: int,
)
    requires
        can_settle(previous, ws, voice_commands, n),
    ensures
        n <= reliable(previous, ws, voice_commands),
        can_settle(
            previous,
            ws,
            voice_commands,
            reliable(previous, ws, voice_commands) as int,
        ),
{
    lemma_reliable_bounds(previous, ws, voice_commands);
    lemma_agreed_bounds(previous, ws, 0);
    lemma_agreed_stops(previous, ws, 0);
    let a = agreed(previous, ws, 0);
    let m = if ws.len() == 0 {
        0
    } else if a <= ws.len() - 1 {
        a
    } else {
        (ws.len() - 1) as nat
    };
    assert(n <= a) by {
        if a < n {
            assert(text::folded(previous[a as int]) == text::folded(ws[a as int]));
        }
    }
    lemma_first_break_bounds(ws, 0, m);
    lemma_first_break_stops(ws, 0, m);
    let k = reliable(previous, ws, voice_commands) as int;
    if voice_commands && k < n {
        assert(commands::normalized(ws[k]) != "new"@);
    }
    assert forall|i: int| 0 <= i < k implies text::folded(#[trigger] previous[i]) == text::folded(
        ws[i],
    ) by {
        assert(alike(previous[i], ws[i]));
    }
    if voice_commands {
        assert forall|i: int| 0 <= i < k implies commands::normalized(#[trigger] ws[i])
            != "new"@ by {
            assert(!may_break(ws[i]));
        }
    }
}

/// Words are typed as soon as two transcripts agree on them: the text given out is that of the
/// most words that can be typed, whenever it adds to what was given out before, unless it may
/// still become a command. Either way the transcript is the one that the next is held against.
pub proof fn law_agreed_words_are_given_out(
    d: Draft,
    heard: Seq<char>,
    voice_commands: bool,
    n: int,
)
    requires
        can_settle(d.previous, text::words(heard), voice_commands, n),
        !can_settle(d.previous, text::words(heard), voice_commands, n + 1),
    ensures
        ({
            let t = text::joined(text::words(heard).take(n));
            let (e, out) = updated(d, d.id, heard, voice_commands);
            let adds = t.len() > d.settled.len() && t.take(d.settled.len() as int) == d.settled;
            let waits = voice_commands && commands::begins_command(t);
            &&& adds && !waits ==> out == Some(t) && e.settled == t
            &&& !adds || waits ==> out is None && e.settled == d.settled
            &&& e.id == d.id
            &&& e.previous == text::words(heard)
        }),
{
    let ws = text::words(heard);
    lemma_reliable_is_most(d.previous, ws, voice_commands, n);
    let k = reliable(d.previous, ws, voice_commands) as int;
    assert(k == n) by {
        if n < k {
            assert(can_settle(d.previous, ws, voice_commands, n + 1)) by {
                assert(n + 1 <= k);
            }
        }
    }
    let t = text::joined(ws.take(n));
    if t.len() >= d.settled.len() {
        assert(t.take(d.settled.len() as int) =~= t.subrange(0, d.settled.len() as int));
    }
}

/// A phrase that was not followed yet starts from nothing.
pub proof fn law_a_new_phrase_starts_from_nothing(
    d: Draft,
    id: u64,
    heard: Seq<char>,
    voice_commands: bool,
)
    requires
        id != d.id,
    ensures
        updated(d, id, heard, voice_commands).1 is None,
        updated(d, id, heard, voice_commands).0 == (Draft {
            id,
            previous: text::words(heard),
            settled: Seq::empty(),
        }),
{
    law_only_agreed_words_settle(d, id, heard, voice_commands);
}

} // verus!
