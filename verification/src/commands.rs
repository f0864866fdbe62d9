//! Spoken editing commands.
//!
//! A phrase that is only a command ("scratch that", "select all") runs the command. "new line"
//! and "new paragraph" also work in the middle of a sentence, since that is how people naturally
//! dictate them.

use vstd::prelude::*;

use crate::text;
use crate::text::{
    fold_word, from_chars, join_words, same_text, split_words, starts_with, to_chars, trimmed,
};

verus! {

#[derive(Debug, Clone, Copy, PartialEq, Eq, Structural)]
pub enum NamedKey {
    Enter,
    Tab,
    Escape,
    Backspace,
    Char(char),
}

#[derive(Debug, Clone, Copy, PartialEq, Eq, Structural)]
pub struct KeyCombo {
    pub ctrl: bool,
    pub shift: bool,
    pub key: NamedKey,
}

#[derive(Debug, Clone, PartialEq)]
pub enum Action {
    Text(String),
    Key(KeyCombo),
    /// Erase the previously typed phrase.
    DeleteLast,
    StopListening,
}

/// An action with its text as a sequence of characters.
pub enum Deed {
    Text(Seq<char>),
    Key(KeyCombo),
    DeleteLast,
    StopListening,
}

impl View for Action {
    type V = Deed;

    open spec fn view(&self) -> Deed {
        match self {
            Action::Text(t) => Deed::Text(t@),
            Action::Key(k) => Deed::Key(*k),
            Action::DeleteLast => Deed::DeleteLast,
            Action::StopListening => Deed::StopListening,
        }
    }
}

/// What a list of actions asks for.
pub open spec fn deeds(actions: Seq<Action>) -> Seq<Deed> {
    actions.map_values(|a: Action| a@)
}

pub open spec fn plain_combo(key: NamedKey) -> KeyCombo {
    KeyCombo { ctrl: false, shift: false, key }
}

pub open spec fn ctrl_combo(c: char) -> KeyCombo {
    KeyCombo { ctrl: true, shift: false, key: NamedKey::Char(c) }
}

pub open spec fn enter() -> Deed {
    Deed::Key(plain_combo(NamedKey::Enter))
}

impl KeyCombo {
    pub fn plain(key: NamedKey) -> (r: Self)
        ensures
            r == plain_combo(key),
    {
        KeyCombo { ctrl: false, shift: false, key }
    }

    pub fn ctrl(c: char) -> (r: Self)
        ensures
            r == ctrl_combo(c),
    {
        KeyCombo { ctrl: true, shift: false, key: NamedKey::Char(c) }
    }
}

// ---------------------------------------------------------------------------
// Normalising
// ---------------------------------------------------------------------------

/// The words in small letters, with only letters and digits kept; words of which nothing is left
/// are dropped.
pub open spec fn plain_words(ws: Seq<Seq<char>>) -> Seq<Seq<char>>
    decreases ws.len(),
{
    if ws.len() == 0 {
        Seq::empty()
    } else {
        let before = plain_words(ws.drop_last());
        let w = text::folded(ws.last());
        if w.len() == 0 {
            before
        } else {
            before.push(w)
        }
    }
}

/// "Scratch that." becomes "scratch that".
pub open spec fn normalized(s: Seq<char>) -> Seq<char> {
    text::joined(plain_words(text::words(s)))
}

/// The phrase in small letters, letters and digits only, single spaces: "Scratch that." becomes
/// "scratch that".
pub fn normalize(s: &[char]) -> (r: Vec<char>)
    ensures
        r@ == normalized(s@),
{
    let ws = split_words(s);
    let mut out: Vec<Vec<char>> = Vec::new();
    let mut i: usize = 0;
    assert(text::texts(ws@).take(0) =~= Seq::empty());
    assert(text::texts(out@) =~= Seq::empty());
    while i < ws.len()
        invariant
            i <= ws.len(),
            text::texts(out@) == plain_words(text::texts(ws@).take(i as int)),
        decreases ws.len() - i,
    {
        let ghost now = text::texts(ws@).take(i + 1);
        assert(now.drop_last() =~= text::texts(ws@).take(i as int));
        assert(now.last() == ws@[i as int]@);
        let ghost before = out@;
        let w = fold_word(&ws[i]);
        if w.len() > 0 {
            let ghost text = w@;
            out.push(w);
            assert(text::texts(out@) =~= text::texts(before).push(text));
        }
        i += 1;
    }
    assert(text::texts(ws@).take(ws@.len() as int) =~= text::texts(ws@));
    join_words(&out)
}

// ---------------------------------------------------------------------------
// Commands
// ---------------------------------------------------------------------------

/// What a phrase does when it is nothing but a command.
pub open spec fn whole_phrase(norm: Seq<char>) -> Option<Deed> {
    if norm == "scratch that"@ || norm == "delete that"@ || norm == "erase that"@ {
        Some(Deed::DeleteLast)
    } else if norm == "stop listening"@ || norm == "stop dictation"@ || norm == "stop dictating"@ {
        Some(Deed::StopListening)
    } else if norm == "press enter"@ || norm == "press return"@ {
        Some(Deed::Key(plain_combo(NamedKey::Enter)))
    } else if norm == "press tab"@ {
        Some(Deed::Key(plain_combo(NamedKey::Tab)))
    } else if norm == "press escape"@ {
        Some(Deed::Key(plain_combo(NamedKey::Escape)))
    } else if norm == "backspace"@ || norm == "press backspace"@ {
        Some(Deed::Key(plain_combo(NamedKey::Backspace)))
    } else if norm == "undo"@ || norm == "undo that"@ {
        Some(Deed::Key(ctrl_combo('z')))
    } else if norm == "redo"@ || norm == "redo that"@ {
        Some(Deed::Key(KeyCombo { ctrl: true, shift: true, key: NamedKey::Char('z') }))
    } else if norm == "select all"@ {
        Some(Deed::Key(ctrl_combo('a')))
    } else if norm == "copy that"@ {
        Some(Deed::Key(ctrl_combo('c')))
    } else if norm == "cut that"@ {
        Some(Deed::Key(ctrl_combo('x')))
    } else if norm == "paste"@ || norm == "paste that"@ {
        Some(Deed::Key(ctrl_combo('v')))
    } else {
        None
    }
}

pub fn whole_phrase_command(norm: &str) -> (r: Option<Action>)
    ensures
        (match r {
            Some(a) => Some(a@),
            None => None,
        }) == whole_phrase(norm@),
{
    if same_text(norm, "scratch that") || same_text(norm, "delete that") || same_text(
        norm,
        "erase that",
    ) {
        Some(Action::DeleteLast)
    } else if same_text(norm, "stop listening") || same_text(norm, "stop dictation") || same_text(
        norm,
        "stop dictating",
    ) {
        Some(Action::StopListening)
    } else if same_text(norm, "press enter") || same_text(norm, "press return") {
        Some(Action::Key(KeyCombo::plain(NamedKey::Enter)))
    } else if same_text(norm, "press tab") {
        Some(Action::Key(KeyCombo::plain(NamedKey::Tab)))
    } else if same_text(norm, "press escape") {
        Some(Action::Key(KeyCombo::plain(NamedKey::Escape)))
    } else if same_text(norm, "backspace") || same_text(norm, "press backspace") {
        Some(Action::Key(KeyCombo::plain(NamedKey::Backspace)))
    } else if same_text(norm, "undo") || same_text(norm, "undo that") {
        Some(Action::Key(KeyCombo::ctrl('z')))
    } else if same_text(norm, "redo") || same_text(norm, "redo that") {
        Some(Action::Key(KeyCombo { ctrl: true, shift: true, key: NamedKey::Char('z') }))
    } else if same_text(norm, "select all") {
        Some(Action::Key(KeyCombo::ctrl('a')))
    } else if same_text(norm, "copy that") {
        Some(Action::Key(KeyCombo::ctrl('c')))
    } else if same_text(norm, "cut that") {
        Some(Action::Key(KeyCombo::ctrl('x')))
    } else if same_text(norm, "paste") || same_text(norm, "paste that") {
        Some(Action::Key(KeyCombo::ctrl('v')))
    } else {
        None
    }
}

/// How many line breaks two neighbouring words stand for.
pub open spec fn breaks(a: Seq<char>, b: Seq<char>) -> nat {
    let pair = normalized(text::joined(seq![a, b]));
    if pair == "new line"@ {
        1
    } else if pair == "new paragraph"@ {
        2
    } else {
        0
    }
}

/// `s` without the commas and semicolons at its end.
pub open spec fn without_comma(s: Seq<char>) -> Seq<char>
    decreases s.len(),
{
    if s.len() > 0 && (s.last() == ',' || s.last() == ';') {
        without_comma(s.drop_last())
    } else {
        s
    }
}

/// The text action for words gathered so far, if they leave any text.
pub open spec fn flushed(ws: Seq<Seq<char>>) -> Seq<Deed> {
    let t = without_comma(text::joined(ws));
    if t.len() == 0 {
        Seq::empty()
    } else {
        seq![Deed::Text(t)]
    }
}

pub open spec fn enters(n: nat) -> Seq<Deed> {
    Seq::new(n, |i: int| enter())
}

/// What the words `ws` come to when `held` are the words since the last line break.
pub open spec fn inline(held: Seq<Seq<char>>, ws: Seq<Seq<char>>) -> Seq<Deed>
    decreases ws.len(),
{
    if ws.len() == 0 {
        flushed(held)
    } else if ws.len() > 1 && breaks(ws[0], ws[1]) > 0 {
        flushed(held) + enters(breaks(ws[0], ws[1])) + inline(Seq::empty(), ws.skip(2))
    } else {
        inline(held.push(ws[0]), ws.skip(1))
    }
}

/// What a recognised phrase comes to.
pub open spec fn interpreted(text: Seq<char>, commands_enabled: bool) -> Seq<Deed> {
    let t = text::trim(text);
    if t.len() == 0 {
        Seq::empty()
    } else if !commands_enabled {
        seq![Deed::Text(t)]
    } else {
        match whole_phrase(normalized(t)) {
            Some(d) => seq![d],
            None => inline(Seq::empty(), text::words(t)),
        }
    }
}

fn break_count(a: &Vec<char>, b: &Vec<char>) -> (r: usize)
    ensures
        r == breaks(a@, b@),
{
    let mut pair: Vec<Vec<char>> = Vec::new();
    pair.push(a.clone());
    pair.push(b.clone());
    assert(text::texts(pair@) =~= seq![a@, b@]);
    let both = join_words(&pair);
    let norm = from_chars(&normalize(&both));
    if same_text(&norm, "new line") {
        1
    } else if same_text(&norm, "new paragraph") {
        2
    } else {
        0
    }
}

fn flush(buf: &mut Vec<Vec<char>>, actions: &mut Vec<Action>)
    ensures
        final(buf)@.len() == 0,
        deeds(final(actions)@) == deeds(old(actions)@) + flushed(text::texts(old(buf)@)),
{
    let mut line = join_words(buf);
    let ghost whole = line@;
    while line.len() > 0 && (line[line.len() - 1] == ',' || line[line.len() - 1] == ';')
        invariant
            without_comma(line@) == without_comma(whole),
        decreases line.len(),
    {
        assert(line@.take(line@.len() - 1) =~= line@.drop_last());
        let _ = line.pop();
    }
    let ghost before = actions@;
    if line.len() > 0 {
        let text = from_chars(&line);
        actions.push(Action::Text(text));
        assert(deeds(actions@) =~= deeds(before) + seq![Deed::Text(line@)]);
    } else {
        assert(deeds(actions@) =~= deeds(before) + Seq::empty());
    }
    buf.clear();
}

/// Turns a recognised phrase into things to type or do.
pub fn interpret(text: &str, commands_enabled: bool) -> (r: Vec<Action>)
    ensures
        deeds(r@) == interpreted(text@, commands_enabled),
{
    let text = trimmed(&to_chars(text));
    let mut actions: Vec<Action> = Vec::new();
    if text.len() == 0 {
        assert(deeds(actions@) =~= Seq::empty());
        return actions;
    }
    if !commands_enabled {
        actions.push(Action::Text(from_chars(&text)));
        assert(deeds(actions@) =~= seq![Deed::Text(text@)]);
        return actions;
    }
    let norm = from_chars(&normalize(&text));
    if let Some(cmd) = whole_phrase_command(&norm) {
        let ghost deed = cmd@;
        actions.push(cmd);
        assert(deeds(actions@) =~= seq![deed]);
        return actions;
    }
    let ws = split_words(&text);
    let mut buf: Vec<Vec<char>> = Vec::new();
    let mut i: usize = 0;
    let ghost all = text::texts(ws@);
    assert(all.skip(0) =~= all);
    assert(text::texts(buf@) =~= Seq::empty());
    assert(deeds(actions@) =~= Seq::empty());
    assert(Seq::<Deed>::empty() + inline(Seq::empty(), all) =~= inline(Seq::empty(), all));
    while i < ws.len()
        invariant
            i <= ws.len(),
            all == text::texts(ws@),
            deeds(actions@) + inline(text::texts(buf@), all.skip(i as int)) == inline(Seq::empty(), all),
        decreases ws.len() - i,
    {
        let ghost rest = all.skip(i as int);
        let ghost held = text::texts(buf@);
        let ghost done = deeds(actions@);
        let n: usize = if i + 1 < ws.len() {
            break_count(&ws[i], &ws[i + 1])
        } else {
            0
        };
        assert(rest[0] == ws@[i as int]@);
        if n > 0 {
            flush(&mut buf, &mut actions);
            let ghost flushed_so_far = deeds(actions@);
            let mut k: usize = 0;
            assert(flushed_so_far + enters(0) =~= flushed_so_far);
            while k < n
                invariant
                    k <= n,
                    deeds(actions@) == flushed_so_far + enters(k as nat),
                decreases n - k,
            {
                let ghost was = actions@;
                actions.push(Action::Key(KeyCombo::plain(NamedKey::Enter)));
                k += 1;
                assert(deeds(actions@) =~= deeds(was).push(enter()));
                assert(deeds(actions@) =~= flushed_so_far + enters(k as nat));
            }
            assert(rest.skip(2) =~= all.skip(i + 2));
            assert(text::texts(buf@) =~= Seq::empty());
            assert(deeds(actions@) + inline(Seq::empty(), rest.skip(2)) =~= done + (flushed(held)
                + enters(n as nat) + inline(Seq::empty(), rest.skip(2))));
            i += 2;
        } else {
            let w = ws[i].clone();
            assert(w@ =~= ws@[i as int]@);
            buf.push(w);
            assert(text::texts(buf@) =~= held.push(rest[0]));
            assert(rest.skip(1) =~= all.skip(i + 1));
            i += 1;
        }
    }
    assert(all.skip(i as int) =~= Seq::empty());
    flush(&mut buf, &mut actions);
    actions
}

// ---------------------------------------------------------------------------
// Phrases still being spoken
// ---------------------------------------------------------------------------

/// Every phrase that is a command on its own.
pub open spec fn command_phrases() -> Seq<Seq<char>> {
    seq![
        "scratch that"@,
        "delete that"@,
        "erase that"@,
        "stop listening"@,
        "stop dictation"@,
        "stop dictating"@,
        "press enter"@,
        "press return"@,
        "press tab"@,
        "press escape"@,
        "backspace"@,
        "press backspace"@,
        "undo"@,
        "undo that"@,
        "redo"@,
        "redo that"@,
        "select all"@,
        "copy that"@,
        "cut that"@,
        "paste"@,
        "paste that"@,
    ]
}

/// The text, once normalised, is how some command begins.
pub open spec fn begins_command(text: Seq<char>) -> bool {
    exists|i: int|
        0 <= i < command_phrases().len() && normalized(text).is_prefix_of(
            #[trigger] command_phrases()[i],
        )
}

fn phrase_list() -> (r: Vec<&'static str>)
    ensures
        r@.map_values(|p: &str| p@) == command_phrases(),
{
    let list: Vec<&'static str> = vec![
        "scratch that",
        "delete that",
        "erase that",
        "stop listening",
        "stop dictation",
        "stop dictating",
        "press enter",
        "press return",
        "press tab",
        "press escape",
        "backspace",
        "press backspace",
        "undo",
        "undo that",
        "redo",
        "redo that",
        "select all",
        "copy that",
        "cut that",
        "paste",
        "paste that",
    ];
    assert(list@.map_values(|p: &str| p@) =~= command_phrases());
    list
}

/// Whether what was heard so far may still turn out to be a command.
pub fn could_be_command(text: &str) -> (r: bool)
    ensures
        r == begins_command(text@),
{
    let norm = normalize(&to_chars(text));
    let list = phrase_list();
    let mut i: usize = 0;
    while i < list.len()
        invariant
            i <= list.len(),
            list@.map_values(|p: &str| p@) == command_phrases(),
            norm@ == normalized(text@),
            forall|j: int|
                0 <= j < i ==> !norm@.is_prefix_of(#[trigger] command_phrases()[j]),
        decreases list.len() - i,
    {
        let phrase = to_chars(list[i]);
        assert(phrase@ == command_phrases()[i as int]);
        if starts_with(&phrase, &norm) {
            return true;
        }
        i += 1;
    }
    assert(list@.len() == command_phrases().len());
    false
}

/// Whether the word may be the first of "new line" or "new paragraph".
pub fn may_start_inline_command(word: &str) -> (r: bool)
    ensures
        r == (normalized(word@) == "new"@),
{
    let norm = from_chars(&normalize(&to_chars(word)));
    same_text(&norm, "new")
}

// ---------------------------------------------------------------------------
// Laws
// ---------------------------------------------------------------------------

/// The phrases listed are exactly those that run a command.
pub proof fn law_phrases_are_the_commands(norm: Seq<char>)
    ensures
        whole_phrase(norm) is Some <==> command_phrases().contains(norm),
{
    let p = command_phrases();
    assert(p[0] == "scratch that"@ && p[1] == "delete that"@ && p[2] == "erase that"@);
    assert(p[3] == "stop listening"@ && p[4] == "stop dictation"@ && p[5] == "stop dictating"@);
    assert(p[6] == "press enter"@ && p[7] == "press return"@ && p[8] == "press tab"@);
    assert(p[9] == "press escape"@ && p[10] == "backspace"@ && p[11] == "press backspace"@);
    assert(p[12] == "undo"@ && p[13] == "undo that"@ && p[14] == "redo"@);
    assert(p[15] == "redo that"@ && p[16] == "select all"@ && p[17] == "copy that"@);
    assert(p[18] == "cut that"@ && p[19] == "paste"@ && p[20] == "paste that"@);
    if p.contains(norm) {
        let i = p.index_of(norm);
        assert(0 <= i < 21 && p[i] == norm);
    }
}

/// A phrase that is a command was possibly a command all along.
pub proof fn law_commands_could_be_commands(text: Seq<char>)
    requires
        whole_phrase(normalized(text)) is Some,
    ensures
        begins_command(text),
{
    let norm = normalized(text);
    law_phrases_are_the_commands(norm);
    let i = command_phrases().index_of(norm);
    assert(command_phrases()[i] == norm);
    assert(norm.subrange(0, norm.len() as int) =~= norm);
    assert(norm.is_prefix_of(command_phrases()[i]));
}

/// Nothing but non-empty text and line breaks comes out of the words of a sentence.
proof fn lemma_inline_deeds(held: Seq<Seq<char>>, ws: Seq<Seq<char>>)
    ensures
        forall|i: int|
            #![trigger inline(held, ws)[i]]
            0 <= i < inline(held, ws).len() ==> match inline(held, ws)[i] {
                Deed::Text(t) => t.len() > 0,
                d => d == enter(),
            },
    decreases ws.len(),
{
    if ws.len() == 0 {
    } else if ws.len() > 1 && breaks(ws[0], ws[1]) > 0 {
        lemma_inline_deeds(Seq::empty(), ws.skip(2));
        let tail = inline(Seq::empty(), ws.skip(2));
        let front = flushed(held) + enters(breaks(ws[0], ws[1]));
        assert forall|i: int| #![trigger inline(held, ws)[i]] 0 <= i < inline(held, ws).len() implies (
        match inline(held, ws)[i] {
            Deed::Text(t) => t.len() > 0,
            d => d == enter(),
        }) by {
            if i >= front.len() {
                assert(inline(held, ws)[i] == tail[i - front.len()]);
            }
        }
    } else {
        lemma_inline_deeds(held.push(ws[0]), ws.skip(1));
    }
}

/// No action ever asks for empty text to be typed.
pub proof fn law_no_empty_text(text: Seq<char>, commands_enabled: bool, i: int)
    requires
        0 <= i < interpreted(text, commands_enabled).len(),
    ensures
        interpreted(text, commands_enabled)[i] matches Deed::Text(t) ==> t.len() > 0,
{
    lemma_inline_deeds(Seq::empty(), text::words(text::trim(text)));
}

/// Erasing the last phrase and stopping are only ever asked for on their own.
pub proof fn law_phrase_commands_stand_alone(text: Seq<char>, commands_enabled: bool, i: int)
    requires
        0 <= i < interpreted(text, commands_enabled).len(),
        interpreted(text, commands_enabled)[i] is DeleteLast
            || interpreted(text, commands_enabled)[i] is StopListening,
    ensures
        interpreted(text, commands_enabled).len() == 1,
        commands_enabled,
{
    lemma_inline_deeds(Seq::empty(), text::words(text::trim(text)));
}

/// A phrase that is only a command runs the command and nothing else.
pub proof fn law_commands_run_alone(text: Seq<char>)
    ensures
        whole_phrase(normalized(text)) matches Some(d) ==> interpreted(text, true) == seq![d],
{
    reveal_strlit("scratch that");
    reveal_strlit("delete that");
    reveal_strlit("erase that");
    reveal_strlit("stop listening");
    reveal_strlit("stop dictation");
    reveal_strlit("stop dictating");
    reveal_strlit("press enter");
    reveal_strlit("press return");
    reveal_strlit("press tab");
    reveal_strlit("press escape");
    reveal_strlit("backspace");
    reveal_strlit("press backspace");
    reveal_strlit("undo");
    reveal_strlit("undo that");
    reveal_strlit("redo");
    reveal_strlit("redo that");
    reveal_strlit("select all");
    reveal_strlit("copy that");
    reveal_strlit("cut that");
    reveal_strlit("paste");
    reveal_strlit("paste that");
    text::lemma_words_trim(text);
    let none = text::joined(Seq::empty());
    assert(none.len() == 0);
    assert(whole_phrase(none) is None);
    assert(text::words(Seq::empty()).len() == 0);
}

/// A phrase that is no command comes to text and line breaks only.
pub proof fn law_sentences_are_text_and_line_breaks(
    text: Seq<char>,
    commands_enabled: bool,
    i: int,
)
    requires
        !commands_enabled || whole_phrase(normalized(text)) is None,
        0 <= i < interpreted(text, commands_enabled).len(),
    ensures
        interpreted(text, commands_enabled)[i] is Text || interpreted(text, commands_enabled)[i]
            == enter(),
{
    text::lemma_words_trim(text);
    lemma_inline_deeds(Seq::empty(), text::words(text::trim(text)));
}

/// With commands off a phrase is typed as it was heard, without the white space around it.
pub proof fn law_commands_off_types_everything(text: Seq<char>)
    ensures
        text::trim(text).len() > 0 ==> interpreted(text, false) == seq![
            Deed::Text(text::trim(text)),
        ],
        text::trim(text).len() == 0 ==> interpreted(text, false).len() == 0,
{
}

/// No two neighbouring words of `ws` stand for a line break.
pub open spec fn unbroken(ws: Seq<Seq<char>>) -> bool {
    forall|i: int| 0 <= i < ws.len() - 1 ==> #[trigger] breaks(ws[i], ws[i + 1]) == 0
}

/// Words among which no line break is spoken come out as one text.
pub proof fn law_unbroken_words_are_one_text(held: Seq<Seq<char>>, ws: Seq<Seq<char>>)
    requires
        unbroken(ws),
    ensures
        inline(held, ws) == flushed(held + ws),
    decreases ws.len(),
{
    if ws.len() == 0 {
        assert(held + ws =~= held);
    } else {
        if ws.len() > 1 {
            assert(breaks(ws[0], ws[0int + 1]) == 0);
        }
        let rest = ws.skip(1);
        assert forall|i: int| 0 <= i < rest.len() - 1 implies #[trigger] breaks(
            rest[i],
            rest[i + 1],
        ) == 0 by {
            assert(breaks(ws[i + 1], ws[(i + 1) + 1]) == 0);
        }
        law_unbroken_words_are_one_text(held.push(ws[0]), rest);
        assert(held.push(ws[0]) + rest =~= held + ws);
    }
}

/// "new line" and "new paragraph" work in the middle of a sentence: the words before the first
/// such pair are one text, the line breaks follow, and the words after it are read afresh.
pub proof fn law_line_breaks_work_mid_sentence(
    before: Seq<Seq<char>>,
    a: Seq<char>,
    b: Seq<char>,
    after: Seq<Seq<char>>,
)
    requires
        unbroken(before.push(a)),
        breaks(a, b) > 0,
    ensures
        inline(Seq::empty(), before + seq![a, b] + after) == flushed(before) + enters(breaks(a, b))
            + inline(Seq::empty(), after),
{
    lemma_first_break(Seq::empty(), before, a, b, after);
    assert(Seq::<Seq<char>>::empty() + before =~= before);
}

proof fn lemma_first_break(
    held: Seq<Seq<char>>,
    before: Seq<Seq<char>>,
    a: Seq<char>,
    b: Seq<char>,
    after: Seq<Seq<char>>,
)
    requires
        unbroken(before.push(a)),
        breaks(a, b) > 0,
    ensures
        inline(held, before + seq![a, b] + after) == flushed(held + before) + enters(breaks(a, b))
            + inline(Seq::empty(), after),
    decreases before.len(),
{
    let ws = before + seq![a, b] + after;
    if before.len() == 0 {
        assert(ws[0] == a && ws[1] == b);
        assert(ws.skip(2) =~= after);
        assert(held + before =~= held);
    } else {
        let marked = before.push(a);
        assert(breaks(marked[0], marked[0int + 1]) == 0);
        assert(ws[0] == marked[0] && ws[1] == marked[1]);
        let rest = before.skip(1);
        assert forall|i: int| 0 <= i < rest.push(a).len() - 1 implies #[trigger] breaks(
            rest.push(a)[i],
            rest.push(a)[i + 1],
        ) == 0 by {
            assert(breaks(marked[i + 1], marked[(i + 1) + 1]) == 0);
        }
        lemma_first_break(held.push(ws[0]), rest, a, b, after);
        assert(ws.skip(1) =~= rest + seq![a, b] + after);
        assert(held.push(ws[0]) + rest =~= held + before);
    }
}

/// `s` without its spaces.
pub open spec fn without_spaces(s: Seq<char>) -> Seq<char> {
    s.filter(|c: char| c != ' ')
}

/// The ASCII letters and digits of `s`.
pub open spec fn letters_and_digits(s: Seq<char>) -> Seq<char> {
    s.filter(|c: char| text::ascii_alphanumeric(c))
}

/// Small ASCII letters and digits and nothing else.
pub open spec fn is_bare(s: Seq<char>) -> bool {
    forall|i: int|
        0 <= i < s.len() ==> text::ascii_lower(#[trigger] s[i]) || text::ascii_digit(s[i])
}

/// The words with nothing between them.
spec fn run_together(ws: Seq<Seq<char>>) -> Seq<char>
    decreases ws.len(),
{
    if ws.len() == 0 {
        Seq::empty()
    } else {
        run_together(ws.drop_last()) + ws.last()
    }
}

/// In ASCII, folding keeps the letters and digits and makes them small.
proof fn lemma_folded_ascii(s: Seq<char>)
    requires
        text::all_ascii(s),
    ensures
        is_bare(text::folded(s)),
        text::folded(s) == letters_and_digits(text::ascii_lowercased(s)),
    decreases s.len(),
{
    reveal(Seq::filter);
    let low = text::ascii_lowercased(s);
    if s.len() > 0 {
        let c = s[s.len() - 1];
        assert(text::is_ascii(c));
        assert(text::all_ascii(s.drop_last()));
        lemma_folded_ascii(s.drop_last());
        assert(low.drop_last() =~= text::ascii_lowercased(s.drop_last()));
        assert(low.last() == text::lowered(c));
        assert(text::ascii_alphanumeric(text::lowered(c)) == text::ascii_alphanumeric(c));
        assert(text::folded(s) =~= letters_and_digits(low));
    } else {
        assert(low =~= Seq::empty());
    }
}

proof fn lemma_plain_words_push(ws: Seq<Seq<char>>, w: Seq<char>)
    ensures
        run_together(plain_words(ws.push(w))) == run_together(plain_words(ws)) + text::folded(w),
{
    let all = ws.push(w);
    assert(all.drop_last() =~= ws);
    let f = text::folded(w);
    if f.len() == 0 {
        assert(run_together(plain_words(ws)) + f =~= run_together(plain_words(ws)));
    } else {
        assert(plain_words(ws).push(f).drop_last() =~= plain_words(ws));
    }
}

/// Taking a text apart into words loses nothing but white space.
proof fn lemma_words_keep_all(s: Seq<char>)
    requires
        text::all_ascii(s),
    ensures
        run_together(plain_words(text::words(s))) == text::folded(s),
        forall|i: int|
            0 <= i < text::words(s).len() ==> text::all_ascii(#[trigger] text::words(s)[i]),
    decreases s.len(),
{
    if s.len() > 0 {
        let front = s.drop_last();
        let before = text::words(front);
        let c = s[s.len() - 1];
        assert(text::is_ascii(c));
        assert(text::all_ascii(front));
        lemma_words_keep_all(front);
        if text::whitespace(c) {
            assert(!text::alphanumeric(c));
        } else if s.len() > 1 && !text::whitespace(s[s.len() - 2]) {
            text::lemma_last_word(front);
            let old = before.last();
            let grown = old.push(c);
            assert(text::all_ascii(before[before.len() - 1]));
            assert(grown.drop_last() =~= old);
            lemma_plain_words_push(before.drop_last(), old);
            lemma_plain_words_push(before.drop_last(), grown);
            assert(before.drop_last().push(old) =~= before);
            assert(run_together(plain_words(text::words(s))) =~= text::folded(s));
        } else {
            lemma_plain_words_push(before, seq![c]);
            assert(seq![c].drop_last() =~= Seq::empty());
            reveal_with_fuel(text::folded, 2);
            assert(text::folded(seq![c]) =~= if text::alphanumeric(c) {
                text::lowercase(c)
            } else {
                Seq::empty()
            });
            assert(run_together(plain_words(text::words(s))) =~= text::folded(s));
        }
    }
}

proof fn lemma_plain_words_bare(ws: Seq<Seq<char>>)
    requires
        forall|i: int| 0 <= i < ws.len() ==> text::all_ascii(#[trigger] ws[i]),
    ensures
        forall|i: int|
            0 <= i < plain_words(ws).len() ==> is_bare(#[trigger] plain_words(ws)[i])
                && plain_words(ws)[i].len() > 0,
    decreases ws.len(),
{
    if ws.len() > 0 {
        let before = plain_words(ws.drop_last());
        lemma_plain_words_bare(ws.drop_last());
        assert(text::all_ascii(ws[ws.len() - 1]));
        lemma_folded_ascii(ws.last());
        assert forall|i: int| 0 <= i < plain_words(ws).len() implies is_bare(
            #[trigger] plain_words(ws)[i],
        ) && plain_words(ws)[i].len() > 0 by {
            if i < before.len() {
                assert(plain_words(ws)[i] == before[i]);
            }
        }
    }
}

proof fn lemma_bare_has_no_spaces(w: Seq<char>)
    requires
        is_bare(w),
    ensures
        without_spaces(w) == w,
    decreases w.len(),
{
    reveal(Seq::filter);
    if w.len() > 0 {
        assert(is_bare(w.drop_last()));
        lemma_bare_has_no_spaces(w.drop_last());
        assert(w[w.len() - 1] != ' ');
        assert(w.drop_last().push(w.last()) =~= w);
    }
}

/// Words with single spaces between them and none around them.
pub open spec fn is_spaced(s: Seq<char>) -> bool {
    &&& s.len() > 0 ==> s[0] != ' ' && s.last() != ' '
    &&& forall|i: int| 0 <= i < s.len() - 1 && s[i] == ' ' ==> #[trigger] s[i + 1] != ' '
}

proof fn lemma_joined_bare(ws: Seq<Seq<char>>)
    requires
        forall|i: int| 0 <= i < ws.len() ==> is_bare(#[trigger] ws[i]) && ws[i].len() > 0,
    ensures
        ({
            let t = text::joined(ws);
            &&& forall|i: int|
                0 <= i < t.len() ==> text::ascii_lower(#[trigger] t[i]) || text::ascii_digit(t[i])
                    || t[i] == ' '
            &&& is_spaced(t)
            &&& without_spaces(t) == run_together(ws)
            &&& ws.len() > 0 ==> t.len() > 0
        }),
    decreases ws.len(),
{
    reveal(Seq::filter);
    if ws.len() == 1 {
        let w = ws[0];
        lemma_bare_has_no_spaces(w);
        assert(ws.drop_last() =~= Seq::empty());
        assert(run_together(ws.drop_last()) =~= Seq::empty());
        assert(run_together(ws) =~= w);
    } else if ws.len() > 1 {
        let front = ws.drop_last();
        lemma_joined_bare(front);
        let a = text::joined(front);
        let w = ws[ws.len() - 1];
        let t = a.push(' ') + w;
        lemma_bare_has_no_spaces(w);
        assert(a.push(' ').drop_last() =~= a);
        Seq::filter_distributes_over_add(a.push(' '), w, |c: char| c != ' ');
        assert(without_spaces(a.push(' ')) == without_spaces(a));
        assert(t.last() == w[w.len() - 1]);
        assert forall|i: int| 0 <= i < t.len() - 1 && t[i] == ' ' implies #[trigger] t[i + 1]
            != ' ' by {
            if i < a.len() {
                assert(t[i] == a[i]);
                if i + 1 < a.len() {
                    assert(a[i + 1] != ' ');
                }
            } else {
                assert(t[i + 1] == w[i + 1 - a.len() - 1]);
            }
        }
    }
}

/// Of ASCII text exactly the letters and digits are kept, as small letters and with single spaces
/// between the words.
pub proof fn law_normalized_text_is_letters_and_digits(s: Seq<char>)
    requires
        text::all_ascii(s),
    ensures
        forall|i: int|
            0 <= i < normalized(s).len() ==> text::ascii_lower(#[trigger] normalized(s)[i])
                || text::ascii_digit(normalized(s)[i]) || normalized(s)[i] == ' ',
        is_spaced(normalized(s)),
        without_spaces(normalized(s)) == letters_and_digits(text::ascii_lowercased(s)),
{
    lemma_words_keep_all(s);
    lemma_plain_words_bare(text::words(s));
    lemma_joined_bare(plain_words(text::words(s)));
    lemma_folded_ascii(s);
}

/// The spoken commands and what each does; no other phrase is a command.
pub proof fn law_each_command_does_its_thing(norm: Seq<char>)
    ensures
        ({
            let key = |k: NamedKey| Deed::Key(KeyCombo { ctrl: false, shift: false, key: k });
            let ctrl = |c: char, shift: bool|
                Deed::Key(KeyCombo { ctrl: true, shift, key: NamedKey::Char(c) });
            let erase = norm == "scratch that"@ || norm == "delete that"@ || norm == "erase that"@;
            let stop = norm == "stop listening"@ || norm == "stop dictation"@ || norm
                == "stop dictating"@;
            let enter = norm == "press enter"@ || norm == "press return"@;
            let back = norm == "backspace"@ || norm == "press backspace"@;
            let undo = norm == "undo"@ || norm == "undo that"@;
            let redo = norm == "redo"@ || norm == "redo that"@;
            let paste = norm == "paste"@ || norm == "paste that"@;
            &&& erase ==> whole_phrase(norm) == Some(Deed::DeleteLast)
            &&& stop ==> whole_phrase(norm) == Some(Deed::StopListening)
            &&& enter ==> whole_phrase(norm) == Some(key(NamedKey::Enter))
            &&& norm == "press tab"@ ==> whole_phrase(norm) == Some(key(NamedKey::Tab))
            &&& norm == "press escape"@ ==> whole_phrase(norm) == Some(key(NamedKey::Escape))
            &&& back ==> whole_phrase(norm) == Some(key(NamedKey::Backspace))
            &&& undo ==> whole_phrase(norm) == Some(ctrl('z', false))
            &&& redo ==> whole_phrase(norm) == Some(ctrl('z', true))
            &&& norm == "select all"@ ==> whole_phrase(norm) == Some(ctrl('a', false))
            &&& norm == "copy that"@ ==> whole_phrase(norm) == Some(ctrl('c', false))
            &&& norm == "cut that"@ ==> whole_phrase(norm) == Some(ctrl('x', false))
            &&& paste ==> whole_phrase(norm) == Some(ctrl('v', false))
            &&& whole_phrase(norm) is Some ==> erase || stop || enter || norm == "press tab"@
                || norm == "press escape"@ || back || undo || redo || norm == "select all"@ || norm
                == "copy that"@ || norm == "cut that"@ || paste
        }),
{
    reveal_strlit("scratch that");
    reveal_strlit("delete that");
    reveal_strlit("erase that");
    reveal_strlit("stop listening");
    reveal_strlit("stop dictation");
    reveal_strlit("stop dictating");
    reveal_strlit("press enter");
    reveal_strlit("press return");
    reveal_strlit("press tab");
    reveal_strlit("press escape");
    reveal_strlit("backspace");
    reveal_strlit("press backspace");
    reveal_strlit("undo");
    reveal_strlit("undo that");
    reveal_strlit("redo");
    reveal_strlit("redo that");
    reveal_strlit("select all");
    reveal_strlit("copy that");
    reveal_strlit("cut that");
    reveal_strlit("paste");
    reveal_strlit("paste that");
    // Phrases of one length differ in one of these places.
    let places = (norm[0], norm[1], norm[5], norm[6], norm[7], norm[8], norm[13]);
}

/// What was heard may become a command exactly when it is how a command begins.
pub proof fn law_beginnings_of_commands(text: Seq<char>, phrase: Seq<char>)
    ensures
        whole_phrase(phrase) is Some && normalized(text) == phrase.take(
            normalized(text).len() as int,
        ) && normalized(text).len() <= phrase.len() ==> begins_command(text),
        begins_command(text) ==> exists|p: Seq<char>|
            #![trigger whole_phrase(p)]
            whole_phrase(p) is Some && normalized(text).len() <= p.len() && normalized(text)
                == p.take(normalized(text).len() as int),
{
    let n = normalized(text);
    if whole_phrase(phrase) is Some && n.len() <= phrase.len() && n == phrase.take(n.len() as int) {
        law_phrases_are_the_commands(phrase);
        let i = command_phrases().index_of(phrase);
        assert(n.is_prefix_of(command_phrases()[i])) by {
            assert(phrase.subrange(0, n.len() as int) =~= n);
        }
    }
    if begins_command(text) {
        let i = choose|i: int|
            0 <= i < command_phrases().len() && n.is_prefix_of(#[trigger] command_phrases()[i]);
        let p = command_phrases()[i];
        law_phrases_are_the_commands(p);
        assert(command_phrases().contains(p));
        assert(p.take(n.len() as int) =~= n);
        assert(whole_phrase(p) is Some);
    }
}

/// "New line" is one line break, "new paragraph" two, and no other pair of words is any.
pub proof fn law_spoken_line_breaks(a: Seq<char>, b: Seq<char>)
    ensures
        normalized(a + seq![' '] + b) == "new line"@ ==> breaks(a, b) == 1,
        normalized(a + seq![' '] + b) == "new paragraph"@ ==> breaks(a, b) == 2,
        normalized(a + seq![' '] + b) != "new line"@ && normalized(a + seq![' '] + b)
            != "new paragraph"@ ==> breaks(a, b) == 0,
{
    reveal_strlit("new line");
    reveal_strlit("new paragraph");
    assert("new line"@.len() != "new paragraph"@.len());
    text::law_joined_with_single_spaces(seq![a], seq![b], a);
    text::law_joined_with_single_spaces(seq![a], seq![b], b);
    assert(seq![a] + seq![b] =~= seq![a, b]);
}

/// Each line break is the Enter key, pressed alone.
pub proof fn law_line_breaks_press_enter(n: nat, i: int)
    requires
        0 <= i < n,
    ensures
        enters(n).len() == n,
        enters(n)[i] == Deed::Key(KeyCombo { ctrl: false, shift: false, key: NamedKey::Enter }),
{
}

/// `d` is one text, which is `t` without some commas and semicolons at its end and with none left
/// there, or nothing where no text is left.
pub open spec fn types_all_of(d: Seq<Deed>, t: Seq<char>) -> bool {
    exists|n: int| #[trigger] typed_up_to(d, t, n)
}

pub open spec fn typed_up_to(d: Seq<Deed>, t: Seq<char>, n: int) -> bool {
    &&& 0 <= n <= t.len()
    &&& forall|i: int| n <= i < t.len() ==> #[trigger] t[i] == ',' || t[i] == ';'
    &&& n > 0 ==> t[n - 1] != ',' && t[n - 1] != ';' && d == seq![Deed::Text(t.take(n))]
    &&& n == 0 ==> d.len() == 0
}

proof fn lemma_commas_go(s: Seq<char>) -> (n: int)
    ensures
        0 <= n <= s.len(),
        without_comma(s) == s.take(n),
        forall|i: int| n <= i < s.len() ==> #[trigger] s[i] == ',' || s[i] == ';',
        n > 0 ==> s[n - 1] != ',' && s[n - 1] != ';',
    decreases s.len(),
{
    if s.len() > 0 && (s.last() == ',' || s.last() == ';') {
        let n = lemma_commas_go(s.drop_last());
        assert(s.drop_last().take(n) =~= s.take(n));
        assert forall|i: int| n <= i < s.len() implies #[trigger] s[i] == ',' || s[i] == ';' by {
            if i < s.len() - 1 {
                assert(s.drop_last()[i] == s[i]);
            }
        }
        assert(n > 0 ==> s.drop_last()[n - 1] == s[n - 1]);
        n
    } else {
        assert(s.take(s.len() as int) =~= s);
        s.len() as int
    }
}

/// Between line breaks the words are typed as they are, with single spaces; only commas and
/// semicolons at the end are dropped.
pub proof fn law_only_commas_at_the_end_are_dropped(ws: Seq<Seq<char>>)
    ensures
        types_all_of(flushed(ws), text::joined(ws)),
{
    let t = text::joined(ws);
    let n = lemma_commas_go(t);
    assert(typed_up_to(flushed(ws), t, n));
}

/// A sentence that is no command, and in which no line break is spoken, is typed word for word.
pub proof fn law_sentences_are_typed_word_for_word(text: Seq<char>)
    requires
        whole_phrase(normalized(text)) is None,
        unbroken(text::words(text)),
    ensures
        types_all_of(interpreted(text, true), text::joined(text::words(text))),
{
    text::lemma_words_trim(text);
    let ws = text::words(text);
    law_only_commas_at_the_end_are_dropped(ws);
    law_unbroken_words_are_one_text(Seq::empty(), ws);
    assert(Seq::<Seq<char>>::empty() + ws =~= ws);
    if text::trim(text).len() == 0 {
        assert(text::trim(text) =~= Seq::empty());
        assert(ws =~= Seq::empty());
        assert(typed_up_to(interpreted(text, true), text::joined(ws), 0));
    }
}

/// A sentence that is no command and does not end in a comma or a semicolon loses nothing.
pub proof fn law_nothing_of_a_sentence_is_lost(text: Seq<char>)
    requires
        whole_phrase(normalized(text)) is None,
        unbroken(text::words(text)),
        text::words(text).len() > 0,
        text::words(text).last().last() != ',',
        text::words(text).last().last() != ';',
    ensures
        interpreted(text, true) == seq![Deed::Text(text::joined(text::words(text)))],
{
    let ws = text::words(text);
    let t = text::joined(ws);
    law_sentences_are_typed_word_for_word(text);
    text::lemma_words_are_words(text);
    assert(text::is_word(ws[ws.len() - 1]));
    assert(t.len() > 0 && t.last() == ws.last().last());
    let n = choose|n: int| typed_up_to(interpreted(text, true), t, n);
    assert(typed_up_to(interpreted(text, true), t, n));
    assert(n == t.len()) by {
        if n < t.len() {
            assert(t[t.len() - 1] == ',' || t[t.len() - 1] == ';');
        }
    }
    assert(t.take(n) =~= t);
}

/// A sentence that is no command is read word by word, from nothing.
pub proof fn law_sentences_are_read_by_their_words(text: Seq<char>)
    requires
        whole_phrase(normalized(text)) is None,
        text::words(text).len() > 0,
    ensures
        interpreted(text, true) == inline(Seq::empty(), text::words(text)),
        interpreted(text, false).len() == 1,
{
    text::lemma_words_trim(text);
    if text::trim(text).len() == 0 {
        assert(text::trim(text) =~= Seq::empty());
    }
}

/// A phrase is compared by its words, each in small letters and with its letters and digits only;
/// words of which nothing is left do not count.
pub proof fn law_phrases_are_compared_by_letters(a: Seq<char>, c: char, b: Seq<char>)
    requires
        text::whitespace(c),
    ensures
        normalized(Seq::empty()).len() == 0,
        text::is_word(a) ==> normalized(a) == text::folded(a),
        normalized(a).len() == 0 ==> normalized(a.push(c) + b) == normalized(b),
        normalized(b).len() == 0 ==> normalized(a.push(c) + b) == normalized(a),
        normalized(a).len() > 0 && normalized(b).len() > 0 ==> normalized(a.push(c) + b)
            == normalized(a) + seq![' '] + normalized(b),
{
    text::law_words_end_at_white_space(a, c, b);
    let x = text::words(a);
    let y = text::words(b);
    lemma_plain_words_add(x, y);
    lemma_plain_words_some(x);
    lemma_plain_words_some(y);
    lemma_joined_some(plain_words(x));
    lemma_joined_some(plain_words(y));
    text::law_joined_with_single_spaces(plain_words(x), plain_words(y), a);
    if plain_words(x).len() == 0 {
        assert(plain_words(x) + plain_words(y) =~= plain_words(y));
    }
    if plain_words(y).len() == 0 {
        assert(plain_words(x) + plain_words(y) =~= plain_words(x));
    }
    if text::is_word(a) {
        assert(seq![a].drop_last() =~= Seq::empty());
        reveal_with_fuel(plain_words, 2);
        let f = text::folded(a);
        if f.len() > 0 {
            assert(plain_words(seq![a]) =~= seq![f]);
        } else {
            assert(f =~= Seq::empty());
        }
    }
    assert(plain_words(text::words(Seq::empty())).len() == 0);
}

proof fn lemma_plain_words_add(x: Seq<Seq<char>>, y: Seq<Seq<char>>)
    ensures
        plain_words(x + y) == plain_words(x) + plain_words(y),
    decreases y.len(),
{
    if y.len() == 0 {
        assert(x + y =~= x);
        assert(plain_words(x) + plain_words(y) =~= plain_words(x));
    } else {
        lemma_plain_words_add(x, y.drop_last());
        assert((x + y).drop_last() =~= x + y.drop_last());
        assert(plain_words(x + y) =~= plain_words(x) + plain_words(y));
    }
}

proof fn lemma_plain_words_some(x: Seq<Seq<char>>)
    ensures
        forall|i: int| 0 <= i < plain_words(x).len() ==> (#[trigger] plain_words(x)[i]).len() > 0,
    decreases x.len(),
{
    if x.len() > 0 {
        lemma_plain_words_some(x.drop_last());
        let before = plain_words(x.drop_last());
        assert forall|i: int| 0 <= i < plain_words(x).len() implies (#[trigger] plain_words(
            x,
        )[i]).len() > 0 by {
            if i < before.len() {
                assert(plain_words(x)[i] == before[i]);
            }
        }
    }
}

proof fn lemma_joined_some(ws: Seq<Seq<char>>)
    requires
        forall|i: int| 0 <= i < ws.len() ==> (#[trigger] ws[i]).len() > 0,
    ensures
        text::joined(ws).len() == 0 <==> ws.len() == 0,
{
    if ws.len() == 1 {
        assert(ws[0].len() > 0);
    }
}

/// Actions keep their order and what they hold.
pub proof fn law_actions_keep_their_order(actions: Seq<Action>, i: int, t: String, k: KeyCombo)
    ensures
        deeds(actions).len() == actions.len(),
        0 <= i < actions.len() ==> deeds(actions)[i] == actions[i]@,
        Action::Text(t)@ == Deed::Text(t@),
        Action::Key(k)@ == Deed::Key(k),
        Action::DeleteLast@ is DeleteLast,
        Action::StopListening@ is StopListening,
{
}

} // verus!
