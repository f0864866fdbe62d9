//! Turns dictated text into key strokes for whichever app has focus.
//!
//! The typer keeps track of what it has typed: of the last phrase, so that it can be erased, and
//! of the words of a phrase that is still being spoken, so that they can be corrected.

use vstd::prelude::*;

use crate::commands;
use crate::commands::{Action, KeyCombo, NamedKey};
use crate::text;
use crate::text::{copy_chars, extend_chars, is_whitespace, numeral_chars, starts_with, to_chars};

pub use crate::keys::{key_for, KeyCode};

verus! {

/// The name of our own virtual keyboard.
pub const DEVICE_NAME: &'static str = "RavenVoice virtual keyboard";

// ---------------------------------------------------------------------------
// Held modifiers
// ---------------------------------------------------------------------------

/// Modifier keys physically held right now, as (device index, key code). Typing while the user
/// still holds Ctrl from a shortcut would turn "hello" into Ctrl+H, Ctrl+E and so on.
pub struct HeldModifiers {
    pub held: Vec<(usize, u16)>,
}

impl HeldModifiers {
    /// No pair is listed twice.
    pub open spec fn wf(&self) -> bool {
        self.held@.no_duplicates()
    }

    /// The held keys.
    pub open spec fn keys(&self) -> Set<(usize, u16)> {
        self.held@.to_set()
    }

    pub fn new() -> (r: Self)
        ensures
            r.wf(),
            r.keys() == Set::<(usize, u16)>::empty(),
            r.held@.len() == 0,
    {
        let r = HeldModifiers { held: Vec::new() };
        assert(r.keys() =~= Set::empty());
        r
    }

    fn find(&self, dev: usize, code: u16) -> (r: Option<usize>)
        ensures
            match r {
                Some(i) => i < self.held@.len() && self.held@[i as int] == (dev, code),
                None => !self.held@.contains((dev, code)),
            },
    {
        let mut i: usize = 0;
        while i < self.held.len()
            invariant
                i <= self.held.len(),
                forall|j: int| 0 <= j < i ==> self.held@[j] != (dev, code),
            decreases self.held.len() - i,
        {
            let (d, c) = self.held[i];
            if d == dev && c == code {
                return Some(i);
            }
            i += 1;
        }
        None
    }

    /// Notes that a key went down or up.
    pub fn set(&mut self, dev: usize, code: u16, down: bool)
        requires
            old(self).wf(),
        ensures
            final(self).wf(),
            down ==> final(self).keys() == old(self).keys().insert((dev, code)),
            !down ==> final(self).keys() == old(self).keys().remove((dev, code)),
    {
        let at = self.find(dev, code);
        let ghost was = self.held@;
        if down {
            if at.is_none() {
                self.held.push((dev, code));
                assert forall|k: (usize, u16)| self.held@.contains(k) implies was.contains(k) || k
                    == (dev, code) by {}
                assert(self.held@[was.len() as int] == (dev, code));
                assert forall|k: (usize, u16)| was.contains(k) implies self.held@.contains(k) by {
                    let j = was.index_of(k);
                    assert(self.held@[j] == k);
                }
            } else {
                assert(was.contains((dev, code)));
            }
            assert(self.keys() =~= old(self).keys().insert((dev, code)));
        } else {
            if let Some(i) = at {
                let _ = self.held.remove(i);
                assert forall|k: (usize, u16)| self.held@.contains(k) <==> was.contains(k) && k != (
                    dev,
                    code,
                ) by {
                    if self.held@.contains(k) {
                        let j = self.held@.index_of(k);
                        if j < i {
                            assert(was[j] == k);
                        } else {
                            assert(was[j + 1] == k);
                        }
                    }
                    if was.contains(k) && k != (dev, code) {
                        let j = was.index_of(k);
                        if j < i {
                            assert(self.held@[j] == k);
                        } else {
                            assert(self.held@[j - 1] == k);
                        }
                    }
                }
            }
            assert(self.keys() =~= old(self).keys().remove((dev, code)));
        }
    }

    /// Drops every key of a keyboard that went away.
    pub fn forget_device(&mut self, dev: usize)
        requires
            old(self).wf(),
        ensures
            final(self).wf(),
            final(self).keys() == old(self).keys().filter(|k: (usize, u16)| k.0 != dev),
    {
        let ghost was = self.held@;
        let mut kept: Vec<(usize, u16)> = Vec::new();
        let mut i: usize = 0;
        while i < self.held.len()
            invariant
                i <= self.held.len(),
                self.held@ == was,
                was.no_duplicates(),
                kept@.no_duplicates(),
                forall|j: int|
                    #![trigger kept@[j]]
                    0 <= j < kept@.len() ==> kept@[j].0 != dev && was.take(i as int).contains(
                        kept@[j],
                    ),
                forall|j: int|
                    #![trigger was[j]]
                    0 <= j < i && was[j].0 != dev ==> kept@.contains(was[j]),
            decreases self.held.len() - i,
        {
            let k = self.held[i];
            let ghost before = kept@;
            assert(was.take(i + 1) =~= was.take(i as int).push(k));
            assert(was.take(i + 1)[i as int] == k);
            assert forall|x: (usize, u16)| was.take(i as int).contains(x) implies was.take(
                i + 1,
            ).contains(x) && x != k by {
                let j = was.take(i as int).index_of(x);
                assert(was.take(i + 1)[j] == x);
            }
            if k.0 != dev {
                kept.push(k);
                assert(kept@[before.len() as int] == k);
                assert forall|x: (usize, u16)| before.contains(x) implies kept@.contains(x) by {
                    let j = before.index_of(x);
                    assert(kept@[j] == x);
                }
            }
            i += 1;
        }
        assert(was.take(i as int) =~= was);
        self.held = kept;
        assert(self.keys() =~= old(self).keys().filter(|k: (usize, u16)| k.0 != dev)) by {
            assert forall|x: (usize, u16)| was.contains(x) && x.0 != dev implies kept@.contains(
                x,
            ) by {
                let j = was.index_of(x);
                assert(was[j] == x);
            }
        }
    }

    /// The codes of the held keys, once for each keyboard that holds them.
    pub fn codes(&self) -> (r: Vec<u16>)
        ensures
            r@ == self.held@.map_values(|k: (usize, u16)| k.1),
    {
        let mut out: Vec<u16> = Vec::new();
        let mut i: usize = 0;
        while i < self.held.len()
            invariant
                i <= self.held.len(),
                out@ == self.held@.take(i as int).map_values(|k: (usize, u16)| k.1),
            decreases self.held.len() - i,
        {
            out.push(self.held[i].1);
            i += 1;
            assert(out@ =~= self.held@.take(i as int).map_values(|k: (usize, u16)| k.1));
        }
        assert(self.held@.take(i as int) =~= self.held@);
        out
    }

    /// Whether any modifier is held.
    pub fn any(&self) -> (r: bool)
        ensures
            r == (self.keys() != Set::<(usize, u16)>::empty()),
    {
        let some = self.held.len() > 0;
        proof {
            if some {
                assert(self.held@.contains(self.held@[0]));
                assert(self.keys().contains(self.held@[0]));
            } else {
                assert(self.keys() =~= Set::empty());
            }
        }
        some
    }
}

impl Default for HeldModifiers {
    fn default() -> (r: Self)
        ensures
            r.wf(),
            r.keys() == Set::<(usize, u16)>::empty(),
    {
        HeldModifiers::new()
    }
}

// ---------------------------------------------------------------------------
// Strokes
// ---------------------------------------------------------------------------

/// One step of typing.
#[derive(Debug, Clone, Copy, PartialEq, Eq, Structural)]
pub enum Stroke {
    /// A character, by the key that has it.
    Char(char),
    /// A character with no key, by GTK's code point entry.
    Unicode(char),
    /// A named key or a shortcut.
    Combo(KeyCombo),
}

/// One key pressed and released, with the modifiers held round it.
#[derive(Debug, Clone, Copy, PartialEq, Eq, Structural)]
pub struct Press {
    pub key: KeyCode,
    pub shift: bool,
    pub ctrl: bool,
}

/// A key going down (1) or up (0).
#[derive(Debug, Clone, Copy, PartialEq, Eq, Structural)]
pub struct KeyEvent {
    pub code: u16,
    pub value: i32,
}

pub open spec fn down(code: u16) -> KeyEvent {
    KeyEvent { code, value: 1 }
}

pub open spec fn up(code: u16) -> KeyEvent {
    KeyEvent { code, value: 0 }
}

impl Press {
    /// Ctrl, then Shift, then the key, each released in the opposite order.
    pub open spec fn event_seq(self) -> Seq<KeyEvent> {
        let key = seq![down(self.key.0), up(self.key.0)];
        let shifted = if self.shift {
            seq![down(crate::keys::KEY_LEFTSHIFT)] + key + seq![up(crate::keys::KEY_LEFTSHIFT)]
        } else {
            key
        };
        if self.ctrl {
            seq![down(crate::keys::KEY_LEFTCTRL)] + shifted + seq![up(crate::keys::KEY_LEFTCTRL)]
        } else {
            shifted
        }
    }

    pub fn events(&self) -> (r: Vec<KeyEvent>)
        ensures
            r@ == self.event_seq(),
    {
        let mut out: Vec<KeyEvent> = Vec::new();
        if self.ctrl {
            out.push(KeyEvent { code: crate::keys::KEY_LEFTCTRL, value: 1 });
        }
        if self.shift {
            out.push(KeyEvent { code: crate::keys::KEY_LEFTSHIFT, value: 1 });
        }
        out.push(KeyEvent { code: self.key.0, value: 1 });
        out.push(KeyEvent { code: self.key.0, value: 0 });
        if self.shift {
            out.push(KeyEvent { code: crate::keys::KEY_LEFTSHIFT, value: 0 });
        }
        if self.ctrl {
            out.push(KeyEvent { code: crate::keys::KEY_LEFTCTRL, value: 0 });
        }
        assert(out@ =~= self.event_seq());
        out
    }
}

/// The press that a key combination stands for, unless its character has no key.
pub open spec fn combo_press(k: KeyCombo) -> Option<Press> {
    let found = match k.key {
        NamedKey::Enter => Some((KeyCode(crate::keys::KEY_ENTER), false)),
        NamedKey::Tab => Some((KeyCode(crate::keys::KEY_TAB), false)),
        NamedKey::Escape => Some((KeyCode(crate::keys::KEY_ESC), false)),
        NamedKey::Backspace => Some((KeyCode(crate::keys::KEY_BACKSPACE), false)),
        NamedKey::Char(c) => crate::keys::key_of(c),
    };
    match found {
        Some((key, shift)) => Some(Press { key, shift: shift || k.shift, ctrl: k.ctrl }),
        None => None,
    }
}

pub open spec fn char_press(c: char) -> Option<Press> {
    match crate::keys::key_of(c) {
        Some((key, shift)) => Some(Press { key, shift, ctrl: false }),
        None => None,
    }
}

/// Ctrl+Shift+U, the code point in hexadecimal, a space.
pub open spec fn unicode_presses(c: char) -> Seq<Press> {
    let u = Press { key: KeyCode(crate::keys::glyph_code('u')), shift: true, ctrl: true };
    let space = Press { key: KeyCode(crate::keys::KEY_SPACE), shift: false, ctrl: false };
    seq![u] + text::hexadecimal(c as nat).map_values(|h: char| char_press(h)->0) + seq![space]
}

impl Stroke {
    /// The presses that make the stroke, unless it needs a key that there is none of.
    pub open spec fn press_seq(self) -> Option<Seq<Press>> {
        match self {
            Stroke::Char(c) => match char_press(c) {
                Some(p) => Some(seq![p]),
                None => None,
            },
            Stroke::Unicode(c) => Some(unicode_presses(c)),
            Stroke::Combo(k) => match combo_press(k) {
                Some(p) => Some(seq![p]),
                None => None,
            },
        }
    }

    pub fn presses(&self) -> (r: Option<Vec<Press>>)
        ensures
            r is Some <==> self.press_seq() is Some,
            r matches Some(v) ==> v@ == self.press_seq()->0,
    {
        match self {
            Stroke::Char(c) => {
                match key_for(*c) {
                    Some((key, shift)) => {
                        let v: Vec<Press> = vec![Press { key, shift, ctrl: false }];
                        assert(v@ =~= self.press_seq()->0);
                        Some(v)
                    },
                    None => None,
                }
            },
            Stroke::Unicode(c) => Some(unicode_entry(*c)),
            Stroke::Combo(k) => {
                match tap(*k) {
                    Some(p) => {
                        let v: Vec<Press> = vec![p];
                        assert(v@ =~= self.press_seq()->0);
                        Some(v)
                    },
                    None => None,
                }
            },
        }
    }
}

/// The press for a named key or a shortcut.
pub fn tap(combo: KeyCombo) -> (r: Option<Press>)
    ensures
        r == combo_press(combo),
{
    let found = match combo.key {
        NamedKey::Enter => Some((KeyCode(crate::keys::KEY_ENTER), false)),
        NamedKey::Tab => Some((KeyCode(crate::keys::KEY_TAB), false)),
        NamedKey::Escape => Some((KeyCode(crate::keys::KEY_ESC), false)),
        NamedKey::Backspace => Some((KeyCode(crate::keys::KEY_BACKSPACE), false)),
        NamedKey::Char(c) => key_for(c),
    };
    match found {
        Some((key, shift)) => Some(Press { key, shift: shift || combo.shift, ctrl: combo.ctrl }),
        None => None,
    }
}

/// The character has a key that needs no Shift.
spec fn unshifted(c: char) -> bool {
    match crate::keys::key_of(c) {
        Some((key, shift)) => !shift,
        None => false,
    }
}

proof fn lemma_hex_digits_have_keys(n: nat)
    ensures
        forall|i: int|
            #![trigger text::hexadecimal(n)[i]]
            0 <= i < text::hexadecimal(n).len() ==> unshifted(text::hexadecimal(n)[i]),
    decreases n,
{
    if n >= 16 {
        assert(n / 16 < n);
        lemma_hex_digits_have_keys(n / 16);
        let front = text::hexadecimal(n / 16);
        assert(text::hexadecimal(n) == front.push(text::digit(n % 16)));
        assert forall|i: int|
            #![trigger text::hexadecimal(n)[i]]
            0 <= i < text::hexadecimal(n).len() implies unshifted(text::hexadecimal(n)[i]) by {
            if i < front.len() {
                assert(text::hexadecimal(n)[i] == front[i]);
            }
        }
    }
}

/// GTK's unicode entry.
pub fn unicode_entry(c: char) -> (r: Vec<Press>)
    ensures
        r@ == unicode_presses(c),
{
    let mut out: Vec<Press> = Vec::new();
    let u = tap(KeyCombo { ctrl: true, shift: true, key: NamedKey::Char('u') });
    out.push(u.unwrap());
    let hex = numeral_chars(c as u64, 16);
    proof {
        lemma_hex_digits_have_keys(c as nat);
        assert(hex@ == text::hexadecimal(c as nat));
    }
    let ghost head = out@;
    let mut i: usize = 0;
    while i < hex.len()
        invariant
            i <= hex.len(),
            hex@ == text::hexadecimal(c as nat),
            forall|j: int|
                #![trigger hex@[j]]
                0 <= j < hex@.len() ==> unshifted(hex@[j]),
            out@ == head + hex@.take(i as int).map_values(|h: char| char_press(h)->0),
        decreases hex.len() - i,
    {
        assert(unshifted(hex@[i as int]));
        let (key, _) = key_for(hex[i]).unwrap();
        out.push(Press { key, shift: false, ctrl: false });
        assert(hex@.take(i + 1) =~= hex@.take(i as int).push(hex@[i as int]));
        i += 1;
        assert(out@ =~= head + hex@.take(i as int).map_values(|h: char| char_press(h)->0));
    }
    assert(hex@.take(i as int) =~= hex@);
    out.push(Press { key: KeyCode(crate::keys::KEY_SPACE), shift: false, ctrl: false });
    assert(out@ =~= unicode_presses(c));
    out
}

// ---------------------------------------------------------------------------
// Text to strokes
// ---------------------------------------------------------------------------

/// The keyboard's stand-in for a typographic character.
pub open spec fn plain_char(c: char) -> Seq<char> {
    match c {
        '\u{2018}' | '\u{2019}' | '\u{201B}' | '\u{2032}' => seq!['\''],
        '\u{201C}' | '\u{201D}' | '\u{201E}' | '\u{2033}' => seq!['"'],
        '\u{2013}' | '\u{2014}' | '\u{2212}' => seq!['-'],
        '\u{2026}' => seq!['.', '.', '.'],
        '\u{00A0}' | '\u{2009}' | '\u{202F}' => seq![' '],
        _ => seq![c],
    }
}

/// The text with every typographic character replaced.
pub open spec fn plain(s: Seq<char>) -> Seq<char>
    decreases s.len(),
{
    if s.len() == 0 {
        Seq::empty()
    } else {
        plain(s.drop_last()) + plain_char(s.last())
    }
}

fn plain_text(s: &[char]) -> (r: Vec<char>)
    ensures
        r@ == plain(s@),
{
    let mut out: Vec<char> = Vec::new();
    let mut i: usize = 0;
    while i < s.len()
        invariant
            i <= s.len(),
            out@ == plain(s@.take(i as int)),
        decreases s.len() - i,
    {
        assert(s@.take(i + 1).drop_last() =~= s@.take(i as int));
        let ghost before = out@;
        let c = s[i];
        match c {
            '\u{2018}' | '\u{2019}' | '\u{201B}' | '\u{2032}' => out.push('\''),
            '\u{201C}' | '\u{201D}' | '\u{201E}' | '\u{2033}' => out.push('"'),
            '\u{2013}' | '\u{2014}' | '\u{2212}' => out.push('-'),
            '\u{2026}' => {
                out.push('.');
                out.push('.');
                out.push('.');
            },
            '\u{00A0}' | '\u{2009}' | '\u{202F}' => out.push(' '),
            _ => out.push(c),
        }
        assert(out@ =~= before + plain_char(c));
        i += 1;
    }
    assert(s@.take(s@.len() as int) =~= s@);
    out
}

/// Swaps typographic characters Whisper likes for ones on the keyboard.
pub fn normalize_punctuation(text: &str) -> (r: String)
    ensures
        r@ == plain(text@),
{
    text::from_chars(&plain_text(&to_chars(text)))
}

/// Whether a space belongs between what was typed last and a text that starts with `first`.
pub open spec fn wants_space(last: Option<char>, t: Seq<char>) -> bool {
    match last {
        Some(prev) => t.len() > 0 && !text::whitespace(prev) && !text::whitespace(t[0]) && !(t[0]
            == '.' || t[0] == ',' || t[0] == '!' || t[0] == '?' || t[0] == ';' || t[0] == ':'
            || t[0] == ')'),
        None => false,
    }
}

/// The text with the joining space it needs after `last`.
pub open spec fn spaced(last: Option<char>, t: Seq<char>) -> Seq<char> {
    if wants_space(last, t) {
        seq![' '] + t
    } else {
        t
    }
}

/// How a character is typed: by its key, by code point entry, or not at all.
pub open spec fn char_strokes(c: char, fallback: bool) -> Seq<Stroke> {
    if crate::keys::key_of(c) is Some {
        seq![Stroke::Char(c)]
    } else if fallback {
        seq![Stroke::Unicode(c)]
    } else {
        Seq::empty()
    }
}

pub open spec fn strokes_of(t: Seq<char>, fallback: bool) -> Seq<Stroke>
    decreases t.len(),
{
    if t.len() == 0 {
        Seq::empty()
    } else {
        strokes_of(t.drop_last(), fallback) + char_strokes(t.last(), fallback)
    }
}

/// The character typed last, after `t` has been typed.
pub open spec fn last_after(last: Option<char>, t: Seq<char>) -> Option<char> {
    if t.len() == 0 {
        last
    } else {
        Some(t.last())
    }
}

pub open spec fn backspace_stroke() -> Stroke {
    Stroke::Combo(commands::plain_combo(NamedKey::Backspace))
}

pub open spec fn backspaces(n: nat) -> Seq<Stroke> {
    Seq::new(n, |i: int| backspace_stroke())
}

// ---------------------------------------------------------------------------
// The typer
// ---------------------------------------------------------------------------

/// Words typed while their phrase is still being spoken.
pub struct LivePhrase {
    pub id: u64,
    /// Exactly what has been typed for this phrase (without the joining space).
    pub text: Vec<char>,
    pub keystrokes: u128,
    /// What preceded the phrase, to restore spacing if it is retyped.
    pub char_before: Option<char>,
}

pub struct Typer {
    pub unicode_fallback: bool,
    /// Keystrokes that made up the last phrase, for "scratch that".
    pub last_len: u128,
    pub last_char: Option<char>,
    /// Words typed while the current phrase is still being spoken.
    pub live: Option<LivePhrase>,
}

/// A shortcut asks for a character that no key types.
#[derive(Debug, Clone, Copy, PartialEq, Eq, Structural)]
pub struct Unmappable(pub char);

/// A live phrase with its text as a sequence.
pub struct LiveSheet {
    pub id: u64,
    pub text: Seq<char>,
    pub keystrokes: nat,
    pub char_before: Option<char>,
}

/// What a typer remembers.
pub struct Sheet {
    pub fallback: bool,
    pub last_len: nat,
    pub last_char: Option<char>,
    pub live: Option<LiveSheet>,
}

impl View for LivePhrase {
    type V = LiveSheet;

    open spec fn view(&self) -> LiveSheet {
        LiveSheet {
            id: self.id,
            text: self.text@,
            keystrokes: self.keystrokes as nat,
            char_before: self.char_before,
        }
    }
}

impl View for Typer {
    type V = Sheet;

    open spec fn view(&self) -> Sheet {
        Sheet {
            fallback: self.unicode_fallback,
            last_len: self.last_len as nat,
            last_char: self.last_char,
            live: match self.live {
                Some(l) => Some(l@),
                None => None,
            },
        }
    }
}

impl Sheet {
    /// The live words took at least one keystroke for each character that can be typed, and at
    /// most one more, for the joining space.
    pub open spec fn wf(self) -> bool {
        self.live matches Some(l) ==> {
            &&& strokes_of(l.text, self.fallback).len() <= l.keystrokes <= l.text.len() + 1
            &&& l.text.len() == 0 ==> l.keystrokes == 0
        }
    }
}

/// What comes of carrying out some actions.
pub struct Run {
    pub strokes: Seq<Stroke>,
    /// The strokes that produced characters.
    pub typed: nat,
    pub last: Option<char>,
    pub failed: Option<char>,
}

/// One more action after `r`.
pub open spec fn run_one(r: Run, d: commands::Deed, fallback: bool) -> Run {
    match d {
        commands::Deed::Text(t) => {
            let x = spaced(r.last, plain(t));
            Run {
                strokes: r.strokes + strokes_of(x, fallback),
                typed: r.typed + strokes_of(x, fallback).len(),
                last: last_after(r.last, x),
                failed: None,
            }
        },
        commands::Deed::Key(k) => if combo_press(k) is None {
            Run { failed: Some(k.key->Char_0), ..r }
        } else {
            Run {
                strokes: r.strokes.push(Stroke::Combo(k)),
                typed: if !k.ctrl && (k.key is Enter || k.key is Tab) {
                    r.typed + 1
                } else {
                    r.typed
                },
                last: if !k.ctrl && k.key is Enter {
                    Some('\n')
                } else if !k.ctrl && k.key is Tab {
                    Some('\t')
                } else {
                    r.last
                },
                failed: None,
            }
        },
        _ => r,
    }
}

/// The actions one after the other, up to the first that fails.
pub open spec fn run_of(ds: Seq<commands::Deed>, last: Option<char>, fallback: bool) -> Run
    decreases ds.len(),
{
    if ds.len() == 0 {
        Run { strokes: Seq::empty(), typed: 0, last, failed: None }
    } else {
        let r = run_of(ds.drop_last(), last, fallback);
        if r.failed is Some {
            r
        } else {
            run_one(r, ds.last(), fallback)
        }
    }
}

/// What a call of the typer leads to: what it remembers after it, and what is typed.
pub struct Outcome {
    pub sheet: Sheet,
    pub strokes: Seq<Stroke>,
    pub failed: Option<char>,
}

/// A whole phrase at once.
pub open spec fn performed(s: Sheet, ds: Seq<commands::Deed>) -> Outcome {
    if ds == seq![commands::Deed::DeleteLast] {
        Outcome {
            sheet: Sheet { last_len: 0, last_char: None, ..s },
            strokes: backspaces(s.last_len),
            failed: None,
        }
    } else {
        let r = run_of(ds, s.last_char, s.fallback);
        Outcome {
            sheet: Sheet {
                last_char: r.last,
                last_len: if r.failed is None && r.typed > 0 {
                    r.typed
                } else {
                    s.last_len
                },
                ..s
            },
            strokes: r.strokes,
            failed: r.failed,
        }
    }
}

/// The live phrase with the given number: the present one, or a new one with nothing typed.
pub open spec fn live_for(s: Sheet, id: u64) -> LiveSheet {
    match s.live {
        Some(l) if l.id == id => l,
        _ => LiveSheet { id, text: Seq::empty(), keystrokes: 0, char_before: s.last_char },
    }
}

/// More of phrase `id` has settled. Only the start of a phrase is joined to what precedes it; what
/// settles later follows the live words as it stands, so that a word can grow.
pub open spec fn streamed(s: Sheet, id: u64, settled: Seq<char>) -> Outcome {
    let words = plain(settled);
    let live = live_for(s, id);
    if !live.text.is_prefix_of(words) || live.text.len() == words.len() {
        Outcome {
            sheet: Sheet { live: Some(live), ..s },
            strokes: Seq::empty(),
            failed: None,
        }
    } else {
        let x = if live.text.len() == 0 {
            spaced(s.last_char, words)
        } else {
            words.skip(live.text.len() as int)
        };
        let strokes = strokes_of(x, s.fallback);
        Outcome {
            sheet: Sheet {
                last_char: last_after(s.last_char, x),
                live: Some(
                    LiveSheet { text: words, keystrokes: live.keystrokes + strokes.len(), ..live },
                ),
                ..s
            },
            strokes,
            failed: None,
        }
    }
}

/// How many characters two texts share at their start.
pub open spec fn common(a: Seq<char>, b: Seq<char>) -> nat
    decreases a.len(),
{
    if a.len() == 0 || b.len() == 0 || a[0] != b[0] {
        0
    } else {
        1 + common(a.drop_first(), b.drop_first())
    }
}

/// The live words corrected from the first character that differs from `first`, then the rest
/// of the actions.
pub open spec fn corrected(
    s: Sheet,
    live: LiveSheet,
    first: Seq<char>,
    rest: Seq<commands::Deed>,
) -> Outcome {
    let kept = common(live.text, first);
    let erase = strokes_of(live.text.skip(kept as int), s.fallback).len();
    let tail = first.skip(kept as int);
    let added = strokes_of(tail, s.fallback);
    let r = run_of(rest, last_after(Some(live.text[kept - 1]), tail), s.fallback);
    Outcome {
        sheet: Sheet {
            last_char: r.last,
            last_len: if r.failed is None {
                (live.keystrokes - erase + added.len() + r.typed) as nat
            } else {
                s.last_len
            },
            live: None,
            ..s
        },
        strokes: backspaces(erase) + added + r.strokes,
        failed: r.failed,
    }
}

/// Phrase `id` is complete and came to the actions `ds`.
pub open spec fn finished(s: Sheet, id: u64, ds: Seq<commands::Deed>) -> Outcome {
    let plainly = Sheet { live: None, ..s };
    match s.live {
        Some(live) if live.id == id && live.keystrokes > 0 => {
            if ds.len() > 0 && ds[0] is Text && common(live.text, plain(ds[0]->Text_0)) > 0 {
                corrected(s, live, plain(ds[0]->Text_0), ds.skip(1))
            } else {
                let o = performed(Sheet { last_char: live.char_before, ..plainly }, ds);
                Outcome { strokes: backspaces(live.keystrokes) + o.strokes, ..o }
            }
        },
        _ => performed(plainly, ds),
    }
}

pub open spec fn as_result(failed: Option<char>) -> Result<(), Unmappable> {
    match failed {
        Some(c) => Err(Unmappable(c)),
        None => Ok(()),
    }
}

fn common_len(a: &[char], b: &[char]) -> (r: usize)
    ensures
        r == common(a@, b@),
        r <= a.len(),
        r <= b.len(),
{
    let mut n: usize = 0;
    assert(a@.skip(0) =~= a@);
    assert(b@.skip(0) =~= b@);
    while n < a.len() && n < b.len() && a[n] == b[n]
        invariant
            n <= a.len(),
            n <= b.len(),
            common(a@, b@) == n + common(a@.skip(n as int), b@.skip(n as int)),
        decreases a.len() - n,
    {
        assert(a@.skip(n as int).drop_first() =~= a@.skip(n + 1));
        assert(b@.skip(n as int).drop_first() =~= b@.skip(n + 1));
        n += 1;
    }
    n
}

/// The number of strokes that typing `s` takes.
fn count_strokes(s: &[char], fallback: bool) -> (r: usize)
    ensures
        r == strokes_of(s@, fallback).len(),
        r <= s.len(),
{
    let mut n: usize = 0;
    let mut i: usize = 0;
    while i < s.len()
        invariant
            i <= s.len(),
            n <= i,
            n == strokes_of(s@.take(i as int), fallback).len(),
        decreases s.len() - i,
    {
        assert(s@.take(i + 1).drop_last() =~= s@.take(i as int));
        if key_for(s[i]).is_some() || fallback {
            n += 1;
        }
        i += 1;
    }
    assert(s@.take(s@.len() as int) =~= s@);
    n
}

fn backspace(times: u128, out: &mut Vec<Stroke>)
    ensures
        final(out)@ == old(out)@ + backspaces(times as nat),
{
    let mut n: u128 = 0;
    assert(out@ =~= old(out)@ + backspaces(0));
    while n < times
        invariant
            n <= times,
            out@ == old(out)@ + backspaces(n as nat),
        decreases times - n,
    {
        out.push(Stroke::Combo(KeyCombo::plain(NamedKey::Backspace)));
        n += 1;
        assert(out@ =~= old(out)@ + backspaces(n as nat));
    }
}

proof fn lemma_strokes_len(t: Seq<char>, fallback: bool)
    ensures
        strokes_of(t, fallback).len() <= t.len(),
    decreases t.len(),
{
    if t.len() > 0 {
        lemma_strokes_len(t.drop_last(), fallback);
    }
}

pub proof fn lemma_strokes_append(a: Seq<char>, b: Seq<char>, fallback: bool)
    ensures
        strokes_of(a + b, fallback) == strokes_of(a, fallback) + strokes_of(b, fallback),
    decreases b.len(),
{
    if b.len() == 0 {
        assert(a + b =~= a);
        assert(strokes_of(a, fallback) + strokes_of(b, fallback) =~= strokes_of(a, fallback));
    } else {
        lemma_strokes_append(a, b.drop_last(), fallback);
        assert((a + b).drop_last() =~= a + b.drop_last());
        assert(strokes_of(a + b, fallback) =~= strokes_of(a, fallback) + strokes_of(b, fallback));
    }
}

/// Characters that the keyboard's stand-ins leave as they are.
pub open spec fn is_plain(s: Seq<char>) -> bool {
    forall|i: int| 0 <= i < s.len() ==> plain_char(#[trigger] s[i]) == seq![s[i]]
}

proof fn lemma_plain_is_plain(s: Seq<char>)
    ensures
        is_plain(plain(s)),
    decreases s.len(),
{
    if s.len() > 0 {
        lemma_plain_is_plain(s.drop_last());
        let last = plain_char(s.last());
        assert(is_plain(last));
        assert forall|i: int| 0 <= i < plain(s).len() implies plain_char(#[trigger] plain(s)[i])
            == seq![plain(s)[i]] by {
            let front = plain(s.drop_last());
            if i < front.len() {
                assert(plain(s)[i] == front[i]);
            } else {
                assert(plain(s)[i] == last[i - front.len()]);
            }
        }
    }
}

proof fn lemma_plain_stays(s: Seq<char>)
    requires
        is_plain(s),
    ensures
        plain(s) == s,
    decreases s.len(),
{
    if s.len() > 0 {
        assert(is_plain(s.drop_last()));
        lemma_plain_stays(s.drop_last());
        assert(plain_char(s[s.len() - 1]) == seq![s.last()]);
        assert(plain(s) =~= s);
    }
}

/// Replacing typographic characters twice changes nothing more.
pub proof fn law_plain_is_idempotent(s: Seq<char>)
    ensures
        plain(plain(s)) == plain(s),
{
    lemma_plain_is_plain(s);
    lemma_plain_stays(plain(s));
}

impl Typer {
    pub open spec fn wf(&self) -> bool {
        self@.wf()
    }

    /// A typer that has typed nothing yet.
    pub fn new(cfg: &crate::config::TypingConfig) -> (r: Self)
        ensures
            r.wf(),
            r@ == (Sheet {
                fallback: cfg.unicode_fallback@ == "ctrl-shift-u"@,
                last_len: 0,
                last_char: None,
                live: None,
            }),
    {
        Typer {
            unicode_fallback: text::same_text(&cfg.unicode_fallback, "ctrl-shift-u"),
            last_len: 0,
            last_char: None,
            live: None,
        }
    }

    /// Forgets spacing context, e.g. when dictation restarts in another field.
    pub fn reset(&mut self)
        ensures
            final(self).wf(),
            final(self)@ == (Sheet {
                fallback: old(self)@.fallback,
                last_len: 0,
                last_char: None,
                live: None,
            }),
    {
        self.last_char = None;
        self.last_len = 0;
        self.live = None;
    }

    /// Types `t` exactly, with no joining space. Returns the strokes it took.
    fn type_raw(&mut self, t: &[char], out: &mut Vec<Stroke>) -> (r: usize)
        ensures
            final(out)@ == old(out)@ + strokes_of(t@, old(self).unicode_fallback),
            r == strokes_of(t@, old(self).unicode_fallback).len(),
            r <= t.len(),
            final(self)@ == (Sheet { last_char: last_after(old(self)@.last_char, t@), ..old(self)@ }),
    {
        let mut count: usize = 0;
        let mut i: usize = 0;
        assert(out@ =~= old(out)@ + strokes_of(t@.take(0), old(self).unicode_fallback));
        while i < t.len()
            invariant
                i <= t.len(),
                count <= i,
                self.unicode_fallback == old(self).unicode_fallback,
                out@ == old(out)@ + strokes_of(t@.take(i as int), old(self).unicode_fallback),
                count == strokes_of(t@.take(i as int), old(self).unicode_fallback).len(),
                self@ == (Sheet {
                    last_char: last_after(old(self)@.last_char, t@.take(i as int)),
                    ..old(self)@
                }),
            decreases t.len() - i,
        {
            assert(t@.take(i + 1).drop_last() =~= t@.take(i as int));
            let c = t[i];
            let ghost before = out@;
            if key_for(c).is_some() {
                out.push(Stroke::Char(c));
                count += 1;
            } else if self.unicode_fallback {
                out.push(Stroke::Unicode(c));
                count += 1;
            }
            assert(out@ =~= before + char_strokes(c, old(self).unicode_fallback));
            assert(out@ =~= old(out)@ + strokes_of(t@.take(i + 1), old(self).unicode_fallback));
            self.last_char = Some(c);
            i += 1;
        }
        assert(t@.take(t@.len() as int) =~= t@);
        count
    }

    /// Types `t`, adding a joining space after earlier dictation. Returns the strokes it took.
    fn type_text(&mut self, t: &[char], out: &mut Vec<Stroke>) -> (r: usize)
        ensures
            ({
                let x = spaced(old(self)@.last_char, plain(t@));
                &&& final(out)@ == old(out)@ + strokes_of(x, old(self).unicode_fallback)
                &&& r == strokes_of(x, old(self).unicode_fallback).len()
                &&& final(self)@ == (Sheet {
                    last_char: last_after(old(self)@.last_char, x),
                    ..old(self)@
                })
            }),
    {
        let t = plain_text(t);
        let needs_space = match self.last_char {
            Some(prev) => t.len() > 0 && !is_whitespace(prev) && !is_whitespace(t[0]) && !(t[0]
                == '.' || t[0] == ',' || t[0] == '!' || t[0] == '?' || t[0] == ';' || t[0] == ':'
                || t[0] == ')'),
            None => false,
        };
        let mut x: Vec<char> = Vec::new();
        if needs_space {
            x.push(' ');
        }
        extend_chars(&mut x, &t);
        assert(x@ =~= spaced(self@.last_char, t@));
        self.type_raw(&x, out)
    }

    /// Carries out `actions[from..]`, returning the strokes that produced characters.
    fn run(&mut self, actions: &[Action], from: usize, out: &mut Vec<Stroke>) -> (r: Result<
        u128,
        Unmappable,
    >)
        requires
            from <= actions.len(),
        ensures
            ({
                let ds = commands::deeds(actions@).skip(from as int);
                let run = run_of(ds, old(self)@.last_char, old(self).unicode_fallback);
                &&& final(out)@ == old(out)@ + run.strokes
                &&& r == (match run.failed {
                    Some(c) => Err(Unmappable(c)),
                    None => Ok(run.typed as u128),
                })
                &&& run.typed <= usize::MAX
                &&& final(self)@ == (Sheet { last_char: run.last, ..old(self)@ })
            }),
    {
        let ghost ds = commands::deeds(actions@).skip(from as int);
        let ghost last = self@.last_char;
        let ghost fallback = self.unicode_fallback;
        let mut typed: usize = 0;
        let mut i: usize = from;
        assert(out@ =~= old(out)@ + run_of(ds.take(0), last, fallback).strokes);
        while i < actions.len()
            invariant
                from <= i <= actions.len(),
                ds == commands::deeds(actions@).skip(from as int),
                fallback == self.unicode_fallback,
                fallback == old(self).unicode_fallback,
                last == old(self)@.last_char,
                ({
                    let run = run_of(ds.take(i - from), last, fallback);
                    &&& run.failed is None
                    &&& out@ == old(out)@ + run.strokes
                    &&& typed == run.typed
                    &&& run.typed <= run.strokes.len()
                    &&& self@ == (Sheet { last_char: run.last, ..old(self)@ })
                }),
            decreases actions.len() - i,
        {
            let ghost was = run_of(ds.take(i - from), last, fallback);
            let ghost now = run_of(ds.take(i - from + 1), last, fallback);
            assert(ds.take(i - from + 1).drop_last() =~= ds.take(i - from));
            assert(ds.take(i - from + 1).last() == actions@[i as int]@);
            assert(now == run_one(was, actions@[i as int]@, fallback));
            proof {
                lemma_run_prefix(ds, i - from + 1, last, fallback);
            }
            match &actions[i] {
                Action::Text(t) => {
                    let chars = to_chars(t);
                    let n = self.type_text(&chars, out);
                    assert(out@ =~= old(out)@ + now.strokes);
                    assert(typed + n <= out@.len());
                    assert(out.len() == out@.len());
                    typed += n;
                },
                Action::Key(combo) => {
                    match tap(*combo) {
                        Some(_) => {},
                        None => {
                            let c = match combo.key {
                                NamedKey::Char(c) => c,
                                _ => ' ',
                            };
                            return Err(Unmappable(c));
                        },
                    }
                    out.push(Stroke::Combo(*combo));
                    assert(out@ =~= old(out)@ + now.strokes);
                    assert(typed + 1 <= out@.len());
                    assert(out.len() == out@.len());
                    match combo.key {
                        NamedKey::Enter => if !combo.ctrl {
                            typed += 1;
                            self.last_char = Some('\n');
                        },
                        NamedKey::Tab => if !combo.ctrl {
                            typed += 1;
                            self.last_char = Some('\t');
                        },
                        _ => {},
                    }
                },
                Action::DeleteLast => {},
                Action::StopListening => {},
            }
            i += 1;
        }
        assert(ds.take(i - from) =~= ds);
        assert(run_of(ds, last, fallback).typed <= usize::MAX);
        Ok(typed as u128)
    }
}

/// Once the first `n` actions have failed, the rest changes nothing.
proof fn lemma_run_prefix(ds: Seq<commands::Deed>, n: int, last: Option<char>, fallback: bool)
    requires
        0 <= n <= ds.len(),
    ensures
        run_of(ds.take(n), last, fallback).failed is Some ==> run_of(ds, last, fallback) == run_of(
            ds.take(n),
            last,
            fallback,
        ),
    decreases ds.len(),
{
    if n == ds.len() {
        assert(ds.take(n) =~= ds);
    } else {
        assert(ds.drop_last().take(n) =~= ds.take(n));
        lemma_run_prefix(ds.drop_last(), n, last, fallback);
    }
}

impl Typer {
    /// Types a whole phrase.
    pub fn perform(&mut self, actions: &[Action]) -> (r: (Vec<Stroke>, Result<(), Unmappable>))
        requires
            old(self).wf(),
        ensures
            ({
                let o = performed(old(self)@, commands::deeds(actions@));
                &&& r.0@ == o.strokes
                &&& r.1 == as_result(o.failed)
                &&& final(self)@ == o.sheet
            }),
            final(self).wf(),
    {
        let mut out: Vec<Stroke> = Vec::new();
        let r = self.perform_into(actions, &mut out);
        assert(Seq::<Stroke>::empty() + out@ =~= out@);
        (out, r)
    }

    fn perform_into(&mut self, actions: &[Action], out: &mut Vec<Stroke>) -> (r: Result<
        (),
        Unmappable,
    >)
        ensures
            ({
                let o = performed(old(self)@, commands::deeds(actions@));
                &&& final(out)@ == old(out)@ + o.strokes
                &&& r == as_result(o.failed)
                &&& final(self)@ == o.sheet
            }),
    {
        let ghost ds = commands::deeds(actions@);
        let only_delete = actions.len() == 1 && match &actions[0] {
            Action::DeleteLast => true,
            _ => false,
        };
        assert(only_delete == (ds == seq![commands::Deed::DeleteLast])) by {
            if only_delete {
                assert(ds =~= seq![commands::Deed::DeleteLast]);
            } else if ds == seq![commands::Deed::DeleteLast] {
                assert(ds.len() == 1 && ds[0] is DeleteLast);
                assert(actions@[0]@ is DeleteLast);
            }
        }
        if only_delete {
            backspace(self.last_len, out);
            self.last_len = 0;
            self.last_char = None;
            return Ok(());
        }
        assert(ds.skip(0) =~= ds);
        match self.run(actions, 0, out) {
            Ok(typed) => {
                if typed > 0 {
                    self.last_len = typed;
                }
                Ok(())
            },
            Err(e) => Err(e),
        }
    }

    /// Types the words of phrase `id` that have settled so far. `settled` is everything settled
    /// for the phrase; only what is new gets typed.
    pub fn stream(&mut self, id: u64, settled: &str) -> (r: Vec<Stroke>)
        requires
            old(self).wf(),
        ensures
            r@ == streamed(old(self)@, id, settled@).strokes,
            final(self)@ == streamed(old(self)@, id, settled@).sheet,
            final(self).wf(),
    {
        let mut out: Vec<Stroke> = Vec::new();
        let words = plain_text(&to_chars(settled));
        let ghost s = self@;
        let ghost target = streamed(s, id, settled@);
        let live = match self.live.take() {
            Some(l) => if l.id == id {
                l
            } else {
                LivePhrase { id, text: Vec::new(), keystrokes: 0, char_before: self.last_char }
            },
            None => LivePhrase { id, text: Vec::new(), keystrokes: 0, char_before: self.last_char },
        };
        assert(live@.text =~= live_for(s, id).text);
        assert(live@ == live_for(s, id));
        // If earlier words were revised, they are left for the final pass.
        if !starts_with(&words, &live.text) || words.len() == live.text.len() {
            self.live = Some(live);
            assert(out@ =~= target.strokes);
            return out;
        }
        let delta = copy_chars(&words, live.text.len(), words.len());
        assert(delta@ =~= words@.skip(live.text@.len() as int));
        proof {
            law_plain_is_idempotent(settled@);
            assert(live.text@.len() == 0 ==> delta@ =~= words@);
        }
        let typed = if live.text.len() == 0 {
            self.type_text(&delta, &mut out)
        } else {
            self.type_raw(&delta, &mut out)
        };
        assert(Seq::<Stroke>::empty() + target.strokes =~= target.strokes);
        proof {
            lemma_strokes_len(spaced(s.last_char, delta@), s.fallback);
            assert(live.text@ + delta@ =~= words@);
            lemma_strokes_append(live.text@, delta@, s.fallback);
            if wants_space(s.last_char, delta@) {
                lemma_strokes_append(seq![' '], delta@, s.fallback);
            }
        }
        assert(live.keystrokes + typed <= words@.len() + 1);
        assert(words@.len() <= usize::MAX) by {
            assert(words.len() == words@.len());
        }
        self.live = Some(
            LivePhrase {
                id: live.id,
                text: words,
                keystrokes: live.keystrokes + typed as u128,
                char_before: live.char_before,
            },
        );
        out
    }

    /// Phrase `id` is complete: adds whatever the final transcript has beyond the words typed
    /// live, or takes those back and types it afresh if the transcript changed.
    pub fn finish(&mut self, id: u64, actions: &[Action]) -> (r: (
        Vec<Stroke>,
        Result<(), Unmappable>,
    ))
        requires
            old(self).wf(),
        ensures
            ({
                let o = finished(old(self)@, id, commands::deeds(actions@));
                &&& r.0@ == o.strokes
                &&& r.1 == as_result(o.failed)
                &&& final(self)@ == o.sheet
            }),
            final(self).wf(),
    {
        let mut out: Vec<Stroke> = Vec::new();
        let ghost s = self@;
        let ghost ds = commands::deeds(actions@);
        let ghost target = finished(s, id, ds);
        let live = match self.live.take() {
            Some(l) => if l.id == id && l.keystrokes > 0 {
                l
            } else {
                let r = self.perform_into(actions, &mut out);
                assert(out@ =~= target.strokes);
                return (out, r);
            },
            None => {
                let r = self.perform_into(actions, &mut out);
                assert(out@ =~= target.strokes);
                return (out, r);
            },
        };
        if actions.len() > 0 {
            if let Action::Text(first) = &actions[0] {
                assert(ds[0] == commands::Deed::Text(first@));
                let first = plain_text(&to_chars(first));
                // Keep what the live words and the final transcript share and correct only from
                // the first difference.
                let kept = common_len(&live.text, &first);
                if kept > 0 {
                    let old_tail = copy_chars(&live.text, kept, live.text.len());
                    assert(old_tail@ =~= live.text@.skip(kept as int));
                    let erase = count_strokes(&old_tail, self.unicode_fallback);
                    proof {
                        assert(live.text@.take(kept as int) + old_tail@ =~= live.text@);
                        lemma_strokes_append(live.text@.take(kept as int), old_tail@, s.fallback);
                    }
                    backspace(erase as u128, &mut out);
                    self.last_char = Some(live.text[kept - 1]);
                    let tail = copy_chars(&first, kept, first.len());
                    assert(tail@ =~= first@.skip(kept as int));
                    let added = self.type_raw(&tail, &mut out);
                    let rest = self.run(actions, 1, &mut out);
                    assert(out@ =~= target.strokes);
                    match rest {
                        Ok(n) => {
                            assert(live.text@.len() <= usize::MAX) by {
                                assert(live.text.len() == live.text@.len());
                            }
                            self.last_len = live.keystrokes - erase as u128 + added as u128 + n;
                            return (out, Ok(()));
                        },
                        Err(e) => {
                            return (out, Err(e));
                        },
                    }
                }
            }
        }
        backspace(live.keystrokes, &mut out);
        self.last_char = live.char_before;
        let r = self.perform_into(actions, &mut out);
        assert(out@ =~= target.strokes);
        (out, r)
    }
}

// ---------------------------------------------------------------------------
// What appears in the focused field
// ---------------------------------------------------------------------------

/// The text before the cursor after one stroke. Shortcuts are the app's business and leave it.
pub open spec fn shown_one(field: Seq<char>, s: Stroke) -> Seq<char> {
    match s {
        Stroke::Char(c) => field.push(c),
        Stroke::Unicode(c) => field.push(c),
        Stroke::Combo(k) => if k.ctrl {
            field
        } else if k.key is Enter {
            field.push('\n')
        } else if k.key is Tab {
            field.push('\t')
        } else if k.key is Backspace && field.len() > 0 {
            field.drop_last()
        } else {
            field
        },
    }
}

/// The text before the cursor after some strokes.
pub open spec fn shown(field: Seq<char>, strokes: Seq<Stroke>) -> Seq<char>
    decreases strokes.len(),
{
    if strokes.len() == 0 {
        field
    } else {
        shown_one(shown(field, strokes.drop_last()), strokes.last())
    }
}

/// The characters of `t` that can be typed.
pub open spec fn visible(t: Seq<char>, fallback: bool) -> Seq<char> {
    t.filter(|c: char| crate::keys::key_of(c) is Some || fallback)
}

proof fn lemma_shown_append(field: Seq<char>, a: Seq<Stroke>, b: Seq<Stroke>)
    ensures
        shown(field, a + b) == shown(shown(field, a), b),
    decreases b.len(),
{
    if b.len() == 0 {
        assert(a + b =~= a);
    } else {
        lemma_shown_append(field, a, b.drop_last());
        assert((a + b).drop_last() =~= a + b.drop_last());
    }
}

proof fn lemma_shown_text(field: Seq<char>, t: Seq<char>, fallback: bool)
    ensures
        shown(field, strokes_of(t, fallback)) == field + visible(t, fallback),
        visible(t, fallback).len() == strokes_of(t, fallback).len(),
    decreases t.len(),
{
    reveal(Seq::filter);
    if t.len() == 0 {
        assert(field + visible(t, fallback) =~= field);
    } else {
        lemma_shown_text(field, t.drop_last(), fallback);
        let last = char_strokes(t.last(), fallback);
        let front = strokes_of(t.drop_last(), fallback);
        lemma_shown_append(field, front, last);
        reveal_with_fuel(shown, 2);
        assert(last.len() > 0 ==> last.drop_last() =~= Seq::empty());
        assert(shown(field, strokes_of(t, fallback)) =~= field + visible(t, fallback));
    }
}

proof fn lemma_visible_append(a: Seq<char>, b: Seq<char>, fallback: bool)
    ensures
        visible(a + b, fallback) == visible(a, fallback) + visible(b, fallback),
{
    lemma_shown_text(Seq::empty(), a + b, fallback);
    lemma_shown_text(Seq::empty(), a, fallback);
    lemma_shown_text(visible(a, fallback), b, fallback);
    lemma_strokes_append(a, b, fallback);
    lemma_shown_append(Seq::empty(), strokes_of(a, fallback), strokes_of(b, fallback));
    assert(Seq::<char>::empty() + visible(a + b, fallback) =~= visible(a + b, fallback));
    assert(Seq::<char>::empty() + visible(a, fallback) =~= visible(a, fallback));
}

proof fn lemma_shown_backspaces(field: Seq<char>, n: nat)
    requires
        n <= field.len(),
    ensures
        shown(field, backspaces(n)) == field.take(field.len() - n),
    decreases n,
{
    if n == 0 {
        assert(field.take(field.len() as int) =~= field);
    } else {
        lemma_shown_backspaces(field, (n - 1) as nat);
        assert(backspaces(n).drop_last() =~= backspaces((n - 1) as nat));
        assert(backspaces(n).last() == backspace_stroke());
        assert(field.take(field.len() - n + 1).drop_last() =~= field.take(field.len() - n));
    }
}

proof fn lemma_shown_erases(base: Seq<char>, w: Seq<char>)
    ensures
        shown(base + w, backspaces(w.len())) == base,
{
    lemma_shown_backspaces(base + w, w.len());
    assert((base + w).take(base.len() as int) =~= base);
}

/// The field holds `base` and after it exactly the live words, with their joining space.
pub open spec fn live_on(s: Sheet, base: Seq<char>, field: Seq<char>) -> bool {
    match s.live {
        Some(l) => {
            let w = visible(spaced(l.char_before, l.text), s.fallback);
            &&& field == base + w
            &&& l.keystrokes == w.len()
            &&& s.last_char == last_after(l.char_before, l.text)
        },
        None => false,
    }
}

/// Live words appear in the field as they settle, each once, after what was there before: the
/// field reads as if everything settled had been typed at once. Where earlier words were revised,
/// it is left as it is.
pub proof fn law_live_words_appear(
    s: Sheet,
    id: u64,
    settled: Seq<char>,
    base: Seq<char>,
    field: Seq<char>,
)
    requires
        s.live matches Some(l) && l.id == id ==> live_on(s, base, field),
        !(s.live matches Some(l) && l.id == id) ==> base == field,
    ensures
        live_on(
            streamed(s, id, settled).sheet,
            base,
            shown(field, streamed(s, id, settled).strokes),
        ),
        live_for(s, id).text.is_prefix_of(plain(settled)) ==> shown(
            field,
            streamed(s, id, settled).strokes,
        ) == base + visible(
            spaced(live_for(s, id).char_before, plain(settled)),
            s.fallback,
        ),
        !live_for(s, id).text.is_prefix_of(plain(settled)) ==> shown(
            field,
            streamed(s, id, settled).strokes,
        ) == field,
{
    let live = live_for(s, id);
    let words = plain(settled);
    let n = live.text.len() as int;
    reveal(Seq::filter);
    assert(live_on(Sheet { live: Some(live), ..s }, base, field)) by {
        if live.text.len() == 0 {
            assert(spaced(live.char_before, live.text) =~= Seq::empty());
            assert(base + visible(Seq::empty(), s.fallback) =~= base);
        }
    }
    if !live.text.is_prefix_of(words) {
    } else if n == words.len() {
        assert(words =~= live.text);
    } else {
        let delta = words.skip(n);
        if n == 0 {
            lemma_shown_text(field, spaced(s.last_char, words), s.fallback);
            assert(base + visible(spaced(live.char_before, live.text), s.fallback) =~= base) by {
                assert(spaced(live.char_before, live.text) =~= Seq::empty());
            }
        } else {
            lemma_shown_text(field, delta, s.fallback);
            assert(live.text + delta =~= words);
            assert(words[0] == live.text[0]);
            assert(spaced(live.char_before, live.text) + delta =~= spaced(live.char_before, words));
            lemma_visible_append(spaced(live.char_before, live.text), delta, s.fallback);
            assert(base + visible(spaced(live.char_before, live.text), s.fallback) + visible(
                delta,
                s.fallback,
            ) =~= base + (visible(spaced(live.char_before, live.text), s.fallback) + visible(
                delta,
                s.fallback,
            )));
        }
    }
}

/// The shared start of two texts is the longest there is.
pub proof fn law_common_is_longest(a: Seq<char>, b: Seq<char>)
    ensures
        common(a, b) <= a.len(),
        common(a, b) <= b.len(),
        a.take(common(a, b) as int) == b.take(common(a, b) as int),
        common(a, b) < a.len() && common(a, b) < b.len() ==> a[common(a, b) as int] != b[common(
            a,
            b,
        ) as int],
    decreases a.len(),
{
    if a.len() == 0 || b.len() == 0 || a[0] != b[0] {
        assert(a.take(0) =~= b.take(0));
    } else {
        law_common_is_longest(a.drop_first(), b.drop_first());
        let n = common(a.drop_first(), b.drop_first()) as int;
        let ta = a.take(n + 1);
        let tb = b.take(n + 1);
        assert forall|i: int| 0 <= i < n + 1 implies #[trigger] ta[i] == tb[i] by {
            if i > 0 {
                assert(a.drop_first().take(n)[i - 1] == b.drop_first().take(n)[i - 1]);
            }
        }
        assert(ta =~= tb);
    }
}

/// Everything of a run after some strokes: `all` is `first` and then `rest`.
spec fn continues(all: Run, first: Run, rest: Run) -> bool {
    &&& all.strokes == first.strokes + rest.strokes
    &&& all.typed == first.typed + rest.typed
    &&& all.last == rest.last
    &&& all.failed == rest.failed
}

proof fn lemma_run_one_continues(
    all: Run,
    first: Run,
    rest: Run,
    d: commands::Deed,
    fallback: bool,
)
    requires
        continues(all, first, rest),
    ensures
        continues(run_one(all, d, fallback), first, run_one(rest, d, fallback)),
{
    let a = run_one(all, d, fallback);
    let b = run_one(rest, d, fallback);
    assert(a.strokes =~= first.strokes + b.strokes);
}

/// Carrying out a first action and then the others is carrying out all of them.
proof fn lemma_run_first(ds: Seq<commands::Deed>, last: Option<char>, fallback: bool)
    requires
        ds.len() > 0,
    ensures
        ({
            let first = run_one(run_of(Seq::empty(), last, fallback), ds[0], fallback);
            let rest = run_of(ds.skip(1), first.last, fallback);
            let all = run_of(ds, last, fallback);
            first.failed is None ==> continues(all, first, rest)
        }),
    decreases ds.len(),
{
    let first = run_one(run_of(Seq::empty(), last, fallback), ds[0], fallback);
    if ds.len() == 1 {
        assert(ds.drop_last() =~= Seq::empty());
        assert(ds.skip(1) =~= Seq::empty());
        assert(first.strokes + Seq::empty() =~= first.strokes);
    } else {
        lemma_run_first(ds.drop_last(), last, fallback);
        assert(ds.drop_last().skip(1) =~= ds.skip(1).drop_last());
        assert(ds.drop_last()[0] == ds[0]);
        assert(ds.skip(1).last() == ds.last());
        let all = run_of(ds.drop_last(), last, fallback);
        let rest = run_of(ds.skip(1).drop_last(), first.last, fallback);
        if first.failed is None && rest.failed is None {
            lemma_run_one_continues(all, first, rest, ds.last(), fallback);
        }
    }
}

/// What the live words and the final transcript share, with their joining space, is the start of
/// both.
proof fn lemma_shared_start(before: Option<char>, live: Seq<char>, first: Seq<char>)
    requires
        common(live, first) > 0,
    ensures
        ({
            let kept = common(live, first) as int;
            let head = spaced(before, live.take(kept));
            &&& 0 < kept <= live.len()
            &&& kept <= first.len()
            &&& head + live.skip(kept) == spaced(before, live)
            &&& head + first.skip(kept) == spaced(before, first)
            &&& last_after(Some(live[kept - 1]), first.skip(kept)) == last_after(
                before,
                spaced(before, first),
            )
        }),
{
    let kept = common(live, first) as int;
    law_common_is_longest(live, first);
    let head = spaced(before, live.take(kept));
    let tail = first.skip(kept);
    assert(live.take(kept)[0] == first.take(kept)[0]);
    assert(live[kept - 1] == live.take(kept)[kept - 1]);
    assert(first[kept - 1] == first.take(kept)[kept - 1]);
    assert(head + live.skip(kept) =~= spaced(before, live));
    assert(first.take(kept) + tail =~= first);
    assert(head + tail =~= spaced(before, first));
    assert(spaced(before, first).last() == first.last());
    if tail.len() > 0 {
        assert(tail.last() == first.last());
    } else {
        assert(first.len() == kept);
    }
}

/// Taking back the end of the live words and typing the new one leaves the field as if the final
/// transcript had been typed at once.
proof fn lemma_correction_shows(
    base: Seq<char>,
    head: Seq<char>,
    old_tail: Seq<char>,
    tail: Seq<char>,
    fallback: bool,
)
    ensures
        shown(
            base + visible(head + old_tail, fallback),
            backspaces(strokes_of(old_tail, fallback).len()) + strokes_of(tail, fallback),
        ) == shown(base, strokes_of(head + tail, fallback)),
        visible(head + old_tail, fallback).len() - strokes_of(old_tail, fallback).len()
            + strokes_of(tail, fallback).len() == strokes_of(head + tail, fallback).len(),
{
    let held = base + visible(head, fallback);
    let gone = visible(old_tail, fallback);
    let field = base + visible(head + old_tail, fallback);
    lemma_visible_append(head, old_tail, fallback);
    lemma_visible_append(head, tail, fallback);
    lemma_shown_text(Seq::empty(), old_tail, fallback);
    lemma_shown_text(held, tail, fallback);
    lemma_shown_text(base, head + tail, fallback);
    assert(field =~= held + gone);
    lemma_shown_erases(held, gone);
    lemma_shown_append(field, backspaces(gone.len()), strokes_of(tail, fallback));
    assert(held + visible(tail, fallback) =~= base + visible(head + tail, fallback));
}

/// A phrase whose final transcript shares its start with the live words.
proof fn lemma_corrected_as_afresh(
    s: Sheet,
    ds: Seq<commands::Deed>,
    base: Seq<char>,
    field: Seq<char>,
)
    requires
        live_on(s, base, field),
        ds.len() > 0,
        ds[0] is Text,
        common(s.live->0.text, plain(ds[0]->Text_0)) > 0,
    ensures
        ({
            let o = corrected(s, s.live->0, plain(ds[0]->Text_0), ds.skip(1));
            let afresh = run_of(ds, s.live->0.char_before, s.fallback);
            &&& shown(field, o.strokes) == shown(base, afresh.strokes)
            &&& o.failed == afresh.failed
            &&& o.sheet.last_char == afresh.last
            &&& afresh.failed is None ==> o.sheet.last_len == afresh.typed
        }),
{
    let live = s.live->0;
    let before = live.char_before;
    let first = plain(ds[0]->Text_0);
    let kept = common(live.text, first) as int;
    let old_tail = live.text.skip(kept);
    let tail = first.skip(kept);
    let head = spaced(before, live.text.take(kept));
    lemma_shared_start(before, live.text, first);
    lemma_correction_shows(base, head, old_tail, tail, s.fallback);
    lemma_run_first(ds, before, s.fallback);
    let fresh = run_one(run_of(Seq::empty(), before, s.fallback), ds[0], s.fallback);
    assert(fresh.strokes =~= strokes_of(spaced(before, first), s.fallback));
    let r = run_of(ds.skip(1), fresh.last, s.fallback);
    let mend = backspaces(strokes_of(old_tail, s.fallback).len()) + strokes_of(tail, s.fallback);
    lemma_shown_append(field, mend, r.strokes);
    lemma_shown_append(base, fresh.strokes, r.strokes);
}

/// Whatever was typed live, a finished phrase leaves the field as if its final transcript had
/// been typed at once. Only the part of the live words from the first difference on is retyped.
///
/// Left out are live words of which not one character could be typed.
pub proof fn law_finish_shows_the_final_transcript(
    s: Sheet,
    id: u64,
    ds: Seq<commands::Deed>,
    base: Seq<char>,
    field: Seq<char>,
)
    requires
        live_on(s, base, field),
        s.live->0.id == id,
        s.live->0.keystrokes > 0 || s.live->0.text.len() == 0,
    ensures
        ({
            let afresh = performed(
                Sheet { live: None, last_char: s.live->0.char_before, ..s },
                ds,
            );
            &&& shown(field, finished(s, id, ds).strokes) == shown(base, afresh.strokes)
            &&& finished(s, id, ds).failed == afresh.failed
            &&& finished(s, id, ds).sheet.last_char == afresh.sheet.last_char
            &&& afresh.failed is None && run_of(ds, s.live->0.char_before, s.fallback).typed > 0
                ==> finished(s, id, ds).sheet.last_len == afresh.sheet.last_len
        }),
{
    let live = s.live->0;
    let before = live.char_before;
    if live.keystrokes == 0 {
        reveal(Seq::filter);
        assert(spaced(before, live.text) =~= Seq::empty());
        assert(base + visible(Seq::empty(), s.fallback) =~= base);
    } else if ds.len() > 0 && ds[0] is Text && common(live.text, plain(ds[0]->Text_0)) > 0 {
        lemma_corrected_as_afresh(s, ds, base, field);
        assert(ds != seq![commands::Deed::DeleteLast]) by {
            if ds == seq![commands::Deed::DeleteLast] {
                assert(ds[0] is DeleteLast);
            }
        }
    } else {
        let afresh = performed(Sheet { live: None, last_char: before, ..s }, ds);
        lemma_shown_erases(base, visible(spaced(before, live.text), s.fallback));
        lemma_shown_append(field, backspaces(live.keystrokes), afresh.strokes);
    }
}

/// Nothing is left in the field of a phrase that turned out to be nothing.
pub proof fn law_empty_phrases_are_taken_back(
    s: Sheet,
    id: u64,
    base: Seq<char>,
    field: Seq<char>,
)
    requires
        live_on(s, base, field),
        s.live->0.id == id,
    ensures
        shown(field, finished(s, id, Seq::empty()).strokes) == base,
{
    reveal(Seq::filter);
    let live = s.live->0;
    let none = Seq::<commands::Deed>::empty();
    assert(none != seq![commands::Deed::DeleteLast]) by {
        assert(seq![commands::Deed::DeleteLast].len() == 1);
    }
    if live.keystrokes == 0 {
        assert(base + visible(spaced(live.char_before, live.text), s.fallback) =~= base);
    } else {
        law_finish_shows_the_final_transcript(s, id, none, base, field);
    }
}

/// The actions type text, line breaks and tabs and do nothing else.
pub open spec fn only_types(ds: Seq<commands::Deed>) -> bool {
    forall|i: int|
        0 <= i < ds.len() ==> match #[trigger] ds[i] {
            commands::Deed::Key(k) => !k.ctrl && (k.key is Enter || k.key is Tab),
            _ => true,
        }
}

proof fn lemma_run_adds(
    field: Seq<char>,
    ds: Seq<commands::Deed>,
    last: Option<char>,
    fallback: bool,
) -> (w: Seq<char>)
    requires
        only_types(ds),
    ensures
        shown(field, run_of(ds, last, fallback).strokes) == field + w,
        w.len() == run_of(ds, last, fallback).typed,
        run_of(ds, last, fallback).failed is None,
    decreases ds.len(),
{
    if ds.len() == 0 {
        assert(field + Seq::empty() =~= field);
        Seq::empty()
    } else {
        let before = lemma_run_adds(field, ds.drop_last(), last, fallback);
        let was = run_of(ds.drop_last(), last, fallback);
        match ds.last() {
            commands::Deed::Text(t) => {
                let x = spaced(was.last, plain(t));
                lemma_shown_append(field, was.strokes, strokes_of(x, fallback));
                lemma_shown_text(field + before, x, fallback);
                assert(field + before + visible(x, fallback) =~= field + (before + visible(
                    x,
                    fallback,
                )));
                before + visible(x, fallback)
            },
            commands::Deed::Key(k) => {
                assert(ds[ds.len() - 1] == ds.last());
                let c = if k.key is Enter {
                    '\n'
                } else {
                    '\t'
                };
                assert(was.strokes.push(Stroke::Combo(k)).drop_last() =~= was.strokes);
                assert((field + before).push(c) =~= field + before.push(c));
                before.push(c)
            },
            _ => before,
        }
    }
}

/// "Scratch that" erases the last phrase: the field is as it was before the phrase.
pub proof fn law_scratch_that_erases_the_last_phrase(
    s: Sheet,
    ds: Seq<commands::Deed>,
    field: Seq<char>,
)
    requires
        only_types(ds),
        ds != seq![commands::Deed::DeleteLast],
        run_of(ds, s.last_char, s.fallback).typed > 0,
    ensures
        ({
            let o = performed(s, ds);
            let scratch = performed(o.sheet, seq![commands::Deed::DeleteLast]);
            shown(shown(field, o.strokes), scratch.strokes) == field
        }),
{
    let w = lemma_run_adds(field, ds, s.last_char, s.fallback);
    lemma_shown_erases(field, w);
}

/// Whatever sentence is dictated, if any of it can be typed, "scratch that" erases it again.
pub proof fn law_dictated_sentences_can_be_scratched(
    s: Sheet,
    sentence: Seq<char>,
    voice_commands: bool,
    field: Seq<char>,
)
    requires
        !voice_commands || commands::whole_phrase(commands::normalized(sentence)) is None,
        run_of(
            commands::interpreted(sentence, voice_commands),
            s.last_char,
            s.fallback,
        ).typed > 0,
    ensures
        ({
            let o = performed(s, commands::interpreted(sentence, voice_commands));
            let scratch = performed(o.sheet, seq![commands::Deed::DeleteLast]);
            shown(shown(field, o.strokes), scratch.strokes) == field
        }),
{
    let ds = commands::interpreted(sentence, voice_commands);
    assert forall|i: int| 0 <= i < ds.len() implies (match #[trigger] ds[i] {
        commands::Deed::Key(k) => !k.ctrl && (k.key is Enter || k.key is Tab),
        _ => true,
    }) by {
        commands::law_sentences_are_text_and_line_breaks(sentence, voice_commands, i);
    }
    if ds == seq![commands::Deed::DeleteLast] {
        commands::law_sentences_are_text_and_line_breaks(sentence, voice_commands, 0);
        assert(ds[0] is DeleteLast);
    }
    law_scratch_that_erases_the_last_phrase(s, ds, field);
}

/// The same holds of a phrase whose words were typed while it was being spoken.
pub proof fn law_scratch_that_erases_a_live_phrase(
    s: Sheet,
    id: u64,
    ds: Seq<commands::Deed>,
    base: Seq<char>,
    field: Seq<char>,
)
    requires
        live_on(s, base, field),
        s.live->0.id == id,
        s.live->0.keystrokes > 0,
        only_types(ds),
        ds != seq![commands::Deed::DeleteLast],
        run_of(ds, s.live->0.char_before, s.fallback).typed > 0,
    ensures
        ({
            let o = finished(s, id, ds);
            let scratch = performed(o.sheet, seq![commands::Deed::DeleteLast]);
            shown(shown(field, o.strokes), scratch.strokes) == base
        }),
{
    law_finish_shows_the_final_transcript(s, id, ds, base, field);
    let w = lemma_run_adds(base, ds, s.live->0.char_before, s.fallback);
    lemma_shown_erases(base, w);
}

/// "Scratch that" spoken while its own words stand in the field takes those back and erases the
/// phrase before.
pub proof fn law_scratch_that_takes_back_its_own_words(
    s: Sheet,
    id: u64,
    before: Seq<char>,
    phrase: Seq<char>,
    field: Seq<char>,
)
    requires
        live_on(s, before + phrase, field),
        s.live->0.id == id,
        s.live->0.keystrokes > 0,
        s.last_len == phrase.len(),
    ensures
        shown(field, finished(s, id, seq![commands::Deed::DeleteLast]).strokes) == before,
{
    law_finish_shows_the_final_transcript(
        s,
        id,
        seq![commands::Deed::DeleteLast],
        before + phrase,
        field,
    );
    lemma_shown_erases(before, phrase);
}

/// Every stroke can be made with the keys that there are.
pub open spec fn makeable(strokes: Seq<Stroke>) -> bool {
    forall|i: int| 0 <= i < strokes.len() ==> (#[trigger] strokes[i]).press_seq() is Some
}

proof fn lemma_strokes_makeable(t: Seq<char>, fallback: bool)
    ensures
        makeable(strokes_of(t, fallback)),
    decreases t.len(),
{
    if t.len() > 0 {
        lemma_strokes_makeable(t.drop_last(), fallback);
    }
}

proof fn lemma_run_makeable(ds: Seq<commands::Deed>, last: Option<char>, fallback: bool)
    ensures
        makeable(run_of(ds, last, fallback).strokes),
    decreases ds.len(),
{
    if ds.len() > 0 {
        lemma_run_makeable(ds.drop_last(), last, fallback);
        let r = run_of(ds.drop_last(), last, fallback);
        if let commands::Deed::Text(t) = ds.last() {
            lemma_strokes_makeable(spaced(r.last, plain(t)), fallback);
        }
    }
}

/// Whatever is typed, for whatever phrase, there are keys for it.
pub proof fn law_every_stroke_can_be_made(
    s: Sheet,
    id: u64,
    settled: Seq<char>,
    ds: Seq<commands::Deed>,
)
    ensures
        makeable(streamed(s, id, settled).strokes),
        makeable(performed(s, ds).strokes),
        makeable(finished(s, id, ds).strokes),
{
    let live = live_for(s, id);
    lemma_strokes_makeable(spaced(s.last_char, plain(settled)), s.fallback);
    lemma_strokes_makeable(plain(settled).skip(live.text.len() as int), s.fallback);
    lemma_run_makeable(ds, s.last_char, s.fallback);
    lemma_run_makeable(ds, live.char_before, s.fallback);
    if ds.len() > 0 && ds[0] is Text {
        let first = plain(ds[0]->Text_0);
        let kept = common(live.text, first);
        let tail = first.skip(kept as int);
        lemma_strokes_makeable(tail, s.fallback);
        lemma_run_makeable(
            ds.skip(1),
            last_after(Some(live.text[kept - 1]), tail),
            s.fallback,
        );
    }
}

/// A character that has a stand-in on the keyboard.
pub open spec fn is_typographic(c: char) -> bool {
    let n = c as u32;
    ||| n == 0x2018 || n == 0x2019 || n == 0x201b || n == 0x2032
    ||| n == 0x201c || n == 0x201d || n == 0x201e || n == 0x2033
    ||| n == 0x2013 || n == 0x2014 || n == 0x2212
    ||| n == 0x2026
    ||| n == 0xa0 || n == 0x2009 || n == 0x202f
}

/// A text without typographic characters is left as it is, whatever else it holds.
pub proof fn law_ordinary_text_is_left_as_it_is(s: Seq<char>)
    requires
        forall|i: int| 0 <= i < s.len() ==> !is_typographic(#[trigger] s[i]),
    ensures
        plain(s) == s,
{
    assert forall|i: int| 0 <= i < s.len() implies plain_char(#[trigger] s[i]) == seq![s[i]] by {
        assert(!is_typographic(s[i]));
    }
    lemma_plain_stays(s);
}

/// Typographic characters are replaced where they stand: single quotes and primes by an
/// apostrophe, double ones by a double quote, dashes by a hyphen, an ellipsis by three dots, and
/// the fixed spaces by a space.
pub proof fn law_typographic_characters_are_replaced(a: Seq<char>, c: char, b: Seq<char>)
    ensures
        ({
            let n = c as u32;
            let p = plain(a.push(c) + b);
            &&& n == 0x2018 || n == 0x2019 || n == 0x201b || n == 0x2032 ==> p == plain(a) + seq![
                '\'',
            ] + plain(b)
            &&& n == 0x201c || n == 0x201d || n == 0x201e || n == 0x2033 ==> p == plain(a) + seq![
                '"',
            ] + plain(b)
            &&& n == 0x2013 || n == 0x2014 || n == 0x2212 ==> p == plain(a) + seq!['-'] + plain(b)
            &&& n == 0x2026 ==> p == plain(a) + seq!['.', '.', '.'] + plain(b)
            &&& n == 0xa0 || n == 0x2009 || n == 0x202f ==> p == plain(a) + seq![' '] + plain(b)
            &&& !is_typographic(c) ==> p == plain(a) + seq![c] + plain(b)
        }),
    decreases b.len(),
{
    let t = a.push(c) + b;
    if b.len() == 0 {
        assert(t =~= a.push(c));
        assert(t.drop_last() =~= a);
        assert(plain(t) =~= plain(a) + plain_char(c) + plain(b));
    } else {
        law_typographic_characters_are_replaced(a, c, b.drop_last());
        assert(t.drop_last() =~= a.push(c) + b.drop_last());
        assert(plain(t) == plain(t.drop_last()) + plain_char(b.last()));
        assert(plain(b) == plain(b.drop_last()) + plain_char(b.last()));
        let x = plain_char(c);
        assert(plain(a) + x + plain(b.drop_last()) + plain_char(b.last()) =~= plain(a) + x + plain(
            b,
        ));
    }
}

/// Dictated text is joined to what was typed before by one space, unless white space precedes it,
/// nothing was typed before, or the text itself starts with white space or closing punctuation.
pub proof fn law_dictation_is_joined_by_a_space(last: Option<char>, t: Seq<char>)
    requires
        t.len() > 0,
    ensures
        last is None ==> spaced(last, t) == t,
        last is Some && text::whitespace(last->0) ==> spaced(last, t) == t,
        text::whitespace(t[0]) ==> spaced(last, t) == t,
        t[0] == '.' || t[0] == ',' || t[0] == '!' || t[0] == '?' || t[0] == ';' || t[0] == ':'
            || t[0] == ')' ==> spaced(last, t) == t,
        last is Some && !text::whitespace(last->0) && !text::whitespace(t[0]) && t[0] != '.' && t[0]
            != ',' && t[0] != '!' && t[0] != '?' && t[0] != ';' && t[0] != ':' && t[0] != ')'
            ==> spaced(last, t) == seq![' '] + t,
        spaced(last, Seq::empty()).len() == 0,
{
}

/// Characters that the keyboard has.
pub open spec fn on_keyboard(t: Seq<char>) -> bool {
    forall|i: int|
        0 <= i < t.len() ==> ' ' <= #[trigger] t[i] <= '~' || t[i] == '\n' || t[i] == '\t'
}

proof fn lemma_keyboard_text_is_visible(t: Seq<char>, fallback: bool)
    requires
        on_keyboard(t),
    ensures
        visible(t, fallback) == t,
        plain(t) == t,
    decreases t.len(),
{
    reveal(Seq::filter);
    assert forall|i: int| 0 <= i < t.len() implies !is_typographic(#[trigger] t[i]) by {
        assert(' ' <= t[i] <= '~' || t[i] == '\n' || t[i] == '\t');
    }
    law_ordinary_text_is_left_as_it_is(t);
    if t.len() > 0 {
        let front = t.drop_last();
        assert forall|i: int| 0 <= i < front.len() implies ' ' <= #[trigger] front[i] <= '~'
            || front[i] == '\n' || front[i] == '\t' by {
            assert(front[i] == t[i]);
        }
        lemma_keyboard_text_is_visible(front, fallback);
        let c = t[t.len() - 1];
        assert(' ' <= c <= '~' || c == '\n' || c == '\t');
        crate::keys::law_ascii_has_keys(c);
        assert(front.push(c) =~= t);
    }
}

proof fn lemma_text_alone(t: Seq<char>, last: Option<char>, fallback: bool)
    ensures
        ({
            let r = run_of(seq![commands::Deed::Text(t)], last, fallback);
            let x = spaced(last, plain(t));
            &&& r.strokes == strokes_of(x, fallback)
            &&& r.last == last_after(last, x)
            &&& r.failed is None
            &&& r.typed == strokes_of(x, fallback).len()
        }),
        seq![commands::Deed::Text(t)] != seq![commands::Deed::DeleteLast],
{
    let ds = seq![commands::Deed::Text(t)];
    assert(ds.drop_last() =~= Seq::empty());
    reveal_with_fuel(run_of, 2);
    let x = spaced(last, plain(t));
    assert(Seq::<Stroke>::empty() + strokes_of(x, fallback) =~= strokes_of(x, fallback));
    assert(ds[0] is Text);
    assert(seq![commands::Deed::DeleteLast][0] is DeleteLast);
}

proof fn lemma_text_shows(t: Seq<char>, field: Seq<char>, fallback: bool)
    requires
        on_keyboard(t),
    ensures
        shown(field, strokes_of(t, fallback)) == field + t,
{
    lemma_keyboard_text_is_visible(t, fallback);
    lemma_shown_text(field, t, fallback);
}

proof fn lemma_joined_text_shows(t: Seq<char>, field: Seq<char>, fallback: bool)
    requires
        on_keyboard(t),
    ensures
        shown(field, strokes_of(seq![' '] + t, fallback)) == field + seq![' '] + t,
{
    let x = seq![' '] + t;
    assert(on_keyboard(x)) by {
        assert forall|i: int| 0 <= i < x.len() implies ' ' <= #[trigger] x[i] <= '~' || x[i]
            == '\n' || x[i] == '\t' by {
            if i > 0 {
                assert(x[i] == t[i - 1]);
            }
        }
    }
    lemma_text_shows(x, field, fallback);
    assert(field + x =~= field + seq![' '] + t);
}

/// Dictated text that the keyboard has all characters of appears in the field exactly as it is,
/// after the space that joins it, if any.
pub proof fn law_dictated_text_appears(s: Sheet, t: Seq<char>, field: Seq<char>)
    requires
        on_keyboard(t),
        t.len() > 0,
    ensures
        ({
            let o = performed(s, seq![commands::Deed::Text(t)]);
            let joint = text::whitespace(t[0]) || t[0] == '.' || t[0] == ',' || t[0] == '!' || t[0]
                == '?' || t[0] == ';' || t[0] == ':' || t[0] == ')';
            &&& o.failed is None
            &&& o.sheet.last_char == Some(t.last())
            &&& o.sheet.live == s.live
            &&& s.last_char is None || text::whitespace(s.last_char->0) || joint ==> shown(
                field,
                o.strokes,
            ) == field + t
            &&& s.last_char is Some && !text::whitespace(s.last_char->0) && !joint ==> shown(
                field,
                o.strokes,
            ) == field + seq![' '] + t
        }),
{
    lemma_keyboard_text_is_visible(t, s.fallback);
    lemma_text_alone(t, s.last_char, s.fallback);
    law_dictation_is_joined_by_a_space(s.last_char, t);
    lemma_text_shows(t, field, s.fallback);
    lemma_joined_text_shows(t, field, s.fallback);
    assert(spaced(s.last_char, t).last() == t.last());
}

/// A character without a key is entered by its code point where that is asked for, and otherwise
/// left out; one with a key is always typed by it.
pub proof fn law_each_character_is_one_stroke(t: Seq<char>, c: char, fallback: bool)
    ensures
        ({
            let on = ' ' <= c <= '~' || c == '\n' || c == '\t';
            &&& strokes_of(Seq::empty(), fallback).len() == 0
            &&& on ==> strokes_of(t.push(c), fallback) == strokes_of(t, fallback).push(
                Stroke::Char(c),
            )
            &&& !on && fallback ==> strokes_of(t.push(c), fallback) == strokes_of(
                t,
                fallback,
            ).push(Stroke::Unicode(c))
            &&& !on && !fallback ==> strokes_of(t.push(c), fallback) == strokes_of(t, fallback)
        }),
{
    crate::keys::law_ascii_has_keys(c);
    assert(t.push(c).drop_last() =~= t);
    assert(strokes_of(t, fallback) + char_strokes(c, fallback) =~= if ' ' <= c <= '~' || c == '\n'
        || c == '\t' {
        strokes_of(t, fallback).push(Stroke::Char(c))
    } else if fallback {
        strokes_of(t, fallback).push(Stroke::Unicode(c))
    } else {
        strokes_of(t, fallback)
    });
}

/// Actions are carried out in their order, each from where the one before left off, up to the
/// first that fails.
pub proof fn law_actions_are_carried_out_in_order(
    a: Seq<commands::Deed>,
    b: Seq<commands::Deed>,
    last: Option<char>,
    fallback: bool,
)
    ensures
        ({
            let x = run_of(a, last, fallback);
            let y = run_of(b, x.last, fallback);
            let all = run_of(a + b, last, fallback);
            &&& x.failed is Some ==> all == x
            &&& x.failed is None ==> all.strokes == x.strokes + y.strokes && all.typed == x.typed
                + y.typed && all.last == y.last && all.failed == y.failed
        }),
    decreases b.len(),
{
    let x = run_of(a, last, fallback);
    if b.len() == 0 {
        assert(a + b =~= a);
        assert(x.strokes + Seq::empty() =~= x.strokes);
    } else {
        law_actions_are_carried_out_in_order(a, b.drop_last(), last, fallback);
        assert((a + b).drop_last() =~= a + b.drop_last());
        let y = run_of(b.drop_last(), x.last, fallback);
        let all = run_of(a + b.drop_last(), last, fallback);
        if x.failed is None && y.failed is None {
            lemma_run_one_continues(all, x, y, b.last(), fallback);
        }
    }
}

/// A shortcut is one stroke and leaves what was typed as it is; Enter and Tab type their
/// character; one whose character has no key fails, and nothing is typed for it. Erasing and
/// stopping among other actions do nothing.
pub proof fn law_keys_are_pressed_once(k: KeyCombo, last: Option<char>, fallback: bool)
    ensures
        ({
            let r = run_of(seq![commands::Deed::Key(k)], last, fallback);
            let missing = k.key is Char && !(' ' <= k.key->Char_0 <= '~' || k.key->Char_0 == '\n'
                || k.key->Char_0 == '\t');
            &&& missing ==> r.failed == Some(k.key->Char_0) && r.strokes.len() == 0 && r.typed == 0
                && r.last == last
            &&& !missing ==> r.failed is None && r.strokes == seq![Stroke::Combo(k)]
            &&& !missing && !k.ctrl && k.key is Enter ==> r.typed == 1 && r.last == Some('\n')
            &&& !missing && !k.ctrl && k.key is Tab ==> r.typed == 1 && r.last == Some('\t')
            &&& !missing && (k.ctrl || !(k.key is Enter || k.key is Tab)) ==> r.typed == 0 && r.last
                == last
        }),
        run_of(seq![commands::Deed::DeleteLast], last, fallback).strokes.len() == 0,
        run_of(seq![commands::Deed::DeleteLast], last, fallback).last == last,
        run_of(seq![commands::Deed::DeleteLast], last, fallback).failed is None,
        run_of(seq![commands::Deed::StopListening], last, fallback).strokes.len() == 0,
        run_of(seq![commands::Deed::StopListening], last, fallback).last == last,
        run_of(seq![commands::Deed::StopListening], last, fallback).failed is None,
        run_of(Seq::empty(), last, fallback).strokes.len() == 0,
        run_of(Seq::empty(), last, fallback).last == last,
{
    reveal_with_fuel(run_of, 2);
    let a = seq![commands::Deed::Key(k)];
    let b = seq![commands::Deed::DeleteLast];
    let c = seq![commands::Deed::StopListening];
    assert(a.drop_last() =~= Seq::empty());
    assert(b.drop_last() =~= Seq::empty());
    assert(c.drop_last() =~= Seq::empty());
    assert(Seq::<Stroke>::empty().push(Stroke::Combo(k)) =~= seq![Stroke::Combo(k)]);
    if k.key is Char {
        crate::keys::law_ascii_has_keys(k.key->Char_0);
    }
}

/// A phrase at once: the strokes are those of its actions, what it typed becomes the last phrase,
/// and one that typed nothing, or failed, leaves the last phrase to be scratched.
pub proof fn law_the_last_phrase_is_the_last_typed(s: Sheet, ds: Seq<commands::Deed>)
    requires
        ds != seq![commands::Deed::DeleteLast],
    ensures
        ({
            let o = performed(s, ds);
            let r = run_of(ds, s.last_char, s.fallback);
            &&& o.strokes == r.strokes
            &&& o.failed == r.failed
            &&& o.sheet.last_char == r.last
            &&& o.sheet.fallback == s.fallback
            &&& o.sheet.live == s.live
            &&& r.failed is None && r.typed > 0 ==> o.sheet.last_len == r.typed
            &&& r.failed is Some || r.typed == 0 ==> o.sheet.last_len == s.last_len
        }),
{
}

/// Scratching erases exactly the keystrokes of the last phrase, and after it there is nothing left
/// to scratch and nothing to join to.
pub proof fn law_scratching_happens_once(s: Sheet)
    ensures
        ({
            let o = performed(s, seq![commands::Deed::DeleteLast]);
            let again = performed(o.sheet, seq![commands::Deed::DeleteLast]);
            &&& o.strokes.len() == s.last_len
            &&& forall|i: int|
                0 <= i < o.strokes.len() ==> #[trigger] o.strokes[i] == Stroke::Combo(
                    KeyCombo { ctrl: false, shift: false, key: NamedKey::Backspace },
                )
            &&& o.failed is None
            &&& o.sheet == (Sheet { last_len: 0, last_char: None, ..s })
            &&& again.strokes.len() == 0
        }),
{
}

/// A phrase of which nothing was typed live is carried out as if there were no live words.
pub proof fn law_unseen_phrases_are_typed_at_once(s: Sheet, id: u64, ds: Seq<commands::Deed>)
    requires
        s.live is None || s.live->0.id != id || s.live->0.keystrokes == 0,
    ensures
        finished(s, id, ds) == performed(Sheet { live: None, ..s }, ds),
{
}

/// The live words of a finished phrase are forgotten with it.
pub proof fn law_finished_phrases_are_forgotten(
    s: Sheet,
    id: u64,
    ds: Seq<commands::Deed>,
    settled: Seq<char>,
)
    ensures
        finished(s, id, ds).sheet.live is None,
        finished(s, id, ds).sheet.fallback == s.fallback,
        streamed(s, id, settled).sheet.live is Some,
        streamed(s, id, settled).sheet.live->0.id == id,
        streamed(s, id, settled).sheet.last_len == s.last_len,
        streamed(s, id, settled).failed is None,
        !(s.live is Some && s.live->0.id == id) ==> streamed(
            s,
            id,
            settled,
        ).sheet.live->0.char_before == s.last_char,
{
}

/// Modifiers are pressed before the key and released after it, in the opposite order, and nothing
/// is left held down.
pub proof fn law_modifiers_enclose_the_key(p: Press)
    ensures
        ({
            let e = p.event_seq();
            let code = p.key.0;
            let on = |c: u16| KeyEvent { code: c, value: 1 };
            let off = |c: u16| KeyEvent { code: c, value: 0 };
            &&& !p.shift && !p.ctrl ==> e == seq![on(code), off(code)]
            &&& p.shift && !p.ctrl ==> e == seq![on(42), on(code), off(code), off(42)]
            &&& !p.shift && p.ctrl ==> e == seq![on(29), on(code), off(code), off(29)]
            &&& p.shift && p.ctrl ==> e == seq![
                on(29),
                on(42),
                on(code),
                off(code),
                off(42),
                off(29),
            ]
        }),
{
    let e = p.event_seq();
    let code = p.key.0;
    let k = seq![down(code), up(code)];
    let s = seq![down(42), down(code), up(code), up(42)];
    assert(seq![down(42)] + k + seq![up(42)] =~= s);
    assert(seq![down(29)] + k + seq![up(29)] =~= seq![down(29), down(code), up(code), up(29)]);
    assert(seq![down(29)] + s + seq![up(29)] =~= seq![
        down(29),
        down(42),
        down(code),
        up(code),
        up(42),
        up(29),
    ]);
}

/// Every stroke presses the keys it stands for: a character the key that writes it, a shortcut its
/// key with its modifiers, and a code point Ctrl+Shift+U, its hexadecimal digits, and a space.
pub proof fn law_strokes_press_their_keys(c: char, k: KeyCombo)
    ensures
        ({
            let p = Stroke::Char(c).press_seq();
            &&& p is Some <==> ' ' <= c <= '~' || c == '\n' || c == '\t'
            &&& p is Some ==> p->0.len() == 1 && !p->0[0].ctrl && crate::keys::written(
                p->0[0].key,
                p->0[0].shift,
            ) == Some(c)
        }),
        ({
            let p = Stroke::Combo(k).press_seq();
            &&& p is Some ==> p->0.len() == 1 && p->0[0].ctrl == k.ctrl
            &&& k.key is Enter ==> p is Some && p->0[0].key.0 == 28 && p->0[0].shift == k.shift
            &&& k.key is Tab ==> p is Some && p->0[0].key.0 == 15 && p->0[0].shift == k.shift
            &&& k.key is Escape ==> p is Some && p->0[0].key.0 == 1 && p->0[0].shift == k.shift
            &&& k.key is Backspace ==> p is Some && p->0[0].key.0 == 14 && p->0[0].shift == k.shift
            &&& k.key is Char ==> (p is Some <==> crate::keys::key_of(k.key->Char_0) is Some)
            &&& k.key is Char && p is Some ==> p->0[0].key == (crate::keys::key_of(
                k.key->Char_0,
            )->0).0 && p->0[0].shift == (k.shift || (crate::keys::key_of(k.key->Char_0)->0).1)
        }),
        ({
            let p = Stroke::Unicode(c).press_seq()->0;
            let hex = text::hexadecimal(c as nat);
            &&& Stroke::Unicode(c).press_seq() is Some
            &&& p.len() == hex.len() + 2
            &&& p[0].ctrl && p[0].shift && crate::keys::written(p[0].key, false) == Some('u')
            &&& p.last() == (Press { key: KeyCode(57), shift: false, ctrl: false })
            &&& forall|i: int|
                0 <= i < hex.len() ==> {
                    let q = #[trigger] p[i + 1];
                    !q.ctrl && !q.shift && crate::keys::written(q.key, false) == Some(hex[i])
                }
        }),
{
    crate::keys::law_ascii_has_keys(c);
    crate::keys::law_keys_write_their_character(c);
    crate::keys::law_keys_write_their_character('u');
    let hex = text::hexadecimal(c as nat);
    lemma_hex_digits_have_keys(c as nat);
    let p = unicode_presses(c);
    assert forall|i: int| 0 <= i < hex.len() implies ({
        let q = #[trigger] p[i + 1];
        !q.ctrl && !q.shift && crate::keys::written(q.key, false) == Some(hex[i])
    }) by {
        crate::keys::law_keys_write_their_character(hex[i]);
        assert(unshifted(hex[i]));
        assert(p[i + 1] == char_press(hex[i])->0);
    }
}

/// A finished phrase that begins as its live words do is only retyped from the first difference
/// on: what differs of the live words is erased, the rest of the text is typed, and then the other
/// actions follow as after that text.
pub proof fn law_only_what_differs_is_retyped(
    s: Sheet,
    id: u64,
    t: Seq<char>,
    rest: Seq<commands::Deed>,
    n: int,
)
    requires
        s.live is Some,
        s.live->0.id == id,
        s.live->0.keystrokes > 0,
        0 < n <= s.live->0.text.len(),
        n <= plain(t).len(),
        s.live->0.text.take(n) == plain(t).take(n),
        n < s.live->0.text.len() && n < plain(t).len() ==> s.live->0.text[n] != plain(t)[n],
    ensures
        ({
            let o = finished(s, id, seq![commands::Deed::Text(t)] + rest);
            let erased = strokes_of(s.live->0.text.skip(n), s.fallback).len() as int;
            let added = strokes_of(plain(t).skip(n), s.fallback);
            let r = run_of(rest, Some(plain(t).last()), s.fallback);
            &&& o.strokes.skip(erased) == added + r.strokes
            &&& forall|i: int|
                0 <= i < erased ==> #[trigger] o.strokes[i] == Stroke::Combo(
                    KeyCombo { ctrl: false, shift: false, key: NamedKey::Backspace },
                )
            &&& o.failed == r.failed
            &&& o.sheet.last_char == r.last
        }),
{
    let live = s.live->0;
    let first = plain(t);
    let ds = seq![commands::Deed::Text(t)] + rest;
    let kept = common(live.text, first) as int;
    law_common_is_longest(live.text, first);
    if kept < n {
        assert(live.text[kept] == live.text.take(n)[kept]);
        assert(first[kept] == first.take(n)[kept]);
    }
    if n < kept {
        assert(live.text[n] == live.text.take(kept)[n]);
        assert(first[n] == first.take(kept)[n]);
    }
    assert(kept == n);
    assert(ds[0] == commands::Deed::Text(t));
    assert(ds.skip(1) =~= rest);
    assert(live.text[n - 1] == live.text.take(n)[n - 1]);
    assert(first[n - 1] == first.take(n)[n - 1]);
    let tail = first.skip(n);
    assert(last_after(Some(live.text[n - 1]), tail) == Some(first.last()));
    let erased = strokes_of(live.text.skip(n), s.fallback).len();
    let o = finished(s, id, ds);
    let added = strokes_of(tail, s.fallback);
    let r = run_of(rest, Some(first.last()), s.fallback);
    assert(o.strokes == backspaces(erased) + added + r.strokes);
    assert(o.strokes.skip(erased as int) =~= added + r.strokes);
}

} // verus!
