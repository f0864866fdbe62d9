//! Global shortcuts, read straight from the keyboards.

use vstd::prelude::*;

use crate::config::HotkeyConfig;
use crate::engine::Cmd;
use crate::keys::{
    KeyCode, KEY_A, KEY_ENTER, KEY_LEFTALT, KEY_LEFTCTRL, KEY_LEFTMETA, KEY_LEFTSHIFT,
    KEY_RIGHTALT, KEY_RIGHTCTRL, KEY_RIGHTMETA, KEY_RIGHTSHIFT,
};
use crate::text;
use crate::text::{
    append, ascii_lower_chars, ascii_upper_chars, concat, debug_quote, from_chars, same_text,
    split_chars, starts_with, to_chars, trimmed,
};
use crate::typer::{HeldModifiers, DEVICE_NAME};

verus! {

#[derive(Debug, Clone, Copy, PartialEq, Eq, Structural)]
pub struct Mods {
    pub ctrl: bool,
    pub alt: bool,
    pub shift: bool,
    pub logo: bool,
}

impl Mods {
    pub open spec fn none() -> Mods {
        Mods { ctrl: false, alt: false, shift: false, logo: false }
    }
}

impl Default for Mods {
    fn default() -> (r: Self)
        ensures
            r == Mods::none(),
    {
        Mods { ctrl: false, alt: false, shift: false, logo: false }
    }
}

#[derive(Debug, Clone, Copy, PartialEq, Eq, Structural)]
pub struct Hotkey {
    pub mods: Mods,
    pub key: KeyCode,
}

#[derive(Debug, Clone, Copy, PartialEq, Eq, Structural)]
pub enum HotkeyEvent {
    Toggle,
    PushToTalkDown,
    PushToTalkUp,
    SpeakLast,
    StopSpeaking,
}

impl HotkeyEvent {
    /// What a shortcut asks of the engine.
    pub fn command(self) -> (r: Cmd)
        ensures
            r == (match self {
                HotkeyEvent::Toggle => Cmd::Toggle,
                HotkeyEvent::PushToTalkDown => Cmd::PushToTalkDown,
                HotkeyEvent::PushToTalkUp => Cmd::PushToTalkUp,
                HotkeyEvent::SpeakLast => Cmd::SpeakLast,
                HotkeyEvent::StopSpeaking => Cmd::StopSpeaking,
            }),
    {
        match self {
            HotkeyEvent::Toggle => Cmd::Toggle,
            HotkeyEvent::PushToTalkDown => Cmd::PushToTalkDown,
            HotkeyEvent::PushToTalkUp => Cmd::PushToTalkUp,
            HotkeyEvent::SpeakLast => Cmd::SpeakLast,
            HotkeyEvent::StopSpeaking => Cmd::StopSpeaking,
        }
    }
}

// ---------------------------------------------------------------------------
// Modifiers
// ---------------------------------------------------------------------------

pub open spec fn is_ctrl(code: u16) -> bool {
    code == KEY_LEFTCTRL || code == KEY_RIGHTCTRL
}

pub open spec fn is_alt(code: u16) -> bool {
    code == KEY_LEFTALT || code == KEY_RIGHTALT
}

pub open spec fn is_shift(code: u16) -> bool {
    code == KEY_LEFTSHIFT || code == KEY_RIGHTSHIFT
}

pub open spec fn is_logo(code: u16) -> bool {
    code == KEY_LEFTMETA || code == KEY_RIGHTMETA
}

pub open spec fn is_modifier(code: u16) -> bool {
    is_ctrl(code) || is_alt(code) || is_shift(code) || is_logo(code)
}

/// The modifier that a key is, if it is one.
pub fn modifier_of(code: KeyCode) -> (r: Option<Mods>)
    ensures
        r == (if is_modifier(code.0) {
            Some(
                Mods {
                    ctrl: is_ctrl(code.0),
                    alt: is_alt(code.0),
                    shift: is_shift(code.0),
                    logo: is_logo(code.0),
                },
            )
        } else {
            None
        }),
{
    let c = code.0;
    if c == KEY_LEFTCTRL || c == KEY_RIGHTCTRL {
        Some(Mods { ctrl: true, alt: false, shift: false, logo: false })
    } else if c == KEY_LEFTALT || c == KEY_RIGHTALT {
        Some(Mods { ctrl: false, alt: true, shift: false, logo: false })
    } else if c == KEY_LEFTSHIFT || c == KEY_RIGHTSHIFT {
        Some(Mods { ctrl: false, alt: false, shift: true, logo: false })
    } else if c == KEY_LEFTMETA || c == KEY_RIGHTMETA {
        Some(Mods { ctrl: false, alt: false, shift: false, logo: true })
    } else {
        None
    }
}

/// A key of this kind, other than `except`, is held on some keyboard.
pub open spec fn holds(held: Set<(usize, u16)>, except: u16, kind: spec_fn(u16) -> bool) -> bool {
    exists|k: (usize, u16)| #[trigger] held.contains(k) && k.1 != except && kind(k.1)
}

/// The modifiers that are held on any keyboard by keys other than `except`.
pub open spec fn mods_of(held: Set<(usize, u16)>, except: u16) -> Mods {
    Mods {
        ctrl: holds(held, except, |c: u16| is_ctrl(c)),
        alt: holds(held, except, |c: u16| is_alt(c)),
        shift: holds(held, except, |c: u16| is_shift(c)),
        logo: holds(held, except, |c: u16| is_logo(c)),
    }
}

/// One of the first `n` codes is of this kind and not `except`.
spec fn seen(codes: Seq<u16>, n: int, except: u16, kind: spec_fn(u16) -> bool) -> bool {
    exists|j: int| 0 <= j < n && #[trigger] codes[j] != except && kind(codes[j])
}

proof fn lemma_seen_next(codes: Seq<u16>, n: int, except: u16, kind: spec_fn(u16) -> bool)
    requires
        0 <= n < codes.len(),
    ensures
        seen(codes, n + 1, except, kind) == (seen(codes, n, except, kind) || (codes[n] != except
            && kind(codes[n]))),
{
    if seen(codes, n, except, kind) {
        let j = choose|j: int| 0 <= j < n && #[trigger] codes[j] != except && kind(codes[j]);
        assert(codes[j] != except && kind(codes[j]));
    }
    if codes[n] != except && kind(codes[n]) {
        assert(seen(codes, n + 1, except, kind));
    }
}

proof fn lemma_seen_is_held(held: Seq<(usize, u16)>, except: u16, kind: spec_fn(u16) -> bool)
    ensures
        ({
            let codes = held.map_values(|k: (usize, u16)| k.1);
            seen(codes, codes.len() as int, except, kind) == holds(held.to_set(), except, kind)
        }),
{
    let codes = held.map_values(|k: (usize, u16)| k.1);
    if seen(codes, codes.len() as int, except, kind) {
        let j = choose|j: int|
            0 <= j < codes.len() && #[trigger] codes[j] != except && kind(codes[j]);
        assert(held.to_set().contains(held[j]));
    }
    if holds(held.to_set(), except, kind) {
        let k = choose|k: (usize, u16)|
            #[trigger] held.to_set().contains(k) && k.1 != except && kind(k.1);
        let j = held.index_of(k);
        assert(codes[j] == k.1);
    }
}

/// Current modifiers across every keyboard, not counting `except` itself (so a bare "RightCtrl"
/// push-to-talk key matches with no modifiers).
pub fn current_mods(held: &HeldModifiers, except: KeyCode) -> (r: Mods)
    ensures
        r == mods_of(held.keys(), except.0),
{
    let mut mods = Mods::default();
    let codes = held.codes();
    let mut i: usize = 0;
    while i < codes.len()
        invariant
            i <= codes.len(),
            mods.ctrl == seen(codes@, i as int, except.0, |c: u16| is_ctrl(c)),
            mods.alt == seen(codes@, i as int, except.0, |c: u16| is_alt(c)),
            mods.shift == seen(codes@, i as int, except.0, |c: u16| is_shift(c)),
            mods.logo == seen(codes@, i as int, except.0, |c: u16| is_logo(c)),
        decreases codes.len() - i,
    {
        let code = codes[i];
        proof {
            lemma_seen_next(codes@, i as int, except.0, |c: u16| is_ctrl(c));
            lemma_seen_next(codes@, i as int, except.0, |c: u16| is_alt(c));
            lemma_seen_next(codes@, i as int, except.0, |c: u16| is_shift(c));
            lemma_seen_next(codes@, i as int, except.0, |c: u16| is_logo(c));
        }
        if code != except.0 {
            if let Some(m) = modifier_of(KeyCode(code)) {
                mods = Mods {
                    ctrl: mods.ctrl || m.ctrl,
                    alt: mods.alt || m.alt,
                    shift: mods.shift || m.shift,
                    logo: mods.logo || m.logo,
                };
            }
        }
        i += 1;
    }
    proof {
        lemma_seen_is_held(held.held@, except.0, |c: u16| is_ctrl(c));
        lemma_seen_is_held(held.held@, except.0, |c: u16| is_alt(c));
        lemma_seen_is_held(held.held@, except.0, |c: u16| is_shift(c));
        lemma_seen_is_held(held.held@, except.0, |c: u16| is_logo(c));
    }
    mods
}

// ---------------------------------------------------------------------------
// Reading shortcuts
// ---------------------------------------------------------------------------

/// Why a shortcut is not understood.
#[derive(Debug)]
pub enum HotkeyError {
    UnknownModifier { name: String, spec: String },
    UnknownKey { name: String, spec: String },
}

impl HotkeyError {
    pub open spec fn text(self) -> Seq<char> {
        match self {
            HotkeyError::UnknownModifier { name, spec } => "unknown modifier "@ + text::debug_text(
                name@,
            ) + " in hotkey "@ + text::debug_text(spec@),
            HotkeyError::UnknownKey { name, spec } => "unknown key "@ + text::debug_text(name@)
                + " in hotkey "@ + text::debug_text(spec@),
        }
    }

    /// The error in words.
    pub fn message(&self) -> (r: String)
        ensures
            r@ == self.text(),
    {
        let (what, name, spec) = match self {
            HotkeyError::UnknownModifier { name, spec } => ("unknown modifier ", name, spec),
            HotkeyError::UnknownKey { name, spec } => ("unknown key ", name, spec),
        };
        let mut out = concat(what, &debug_quote(name));
        append(&mut out, " in hotkey ");
        append(&mut out, &debug_quote(spec));
        out
    }
}

/// A modifier's name, in small letters.
pub open spec fn with_modifier(mods: Mods, name: Seq<char>) -> Option<Mods> {
    if name == "ctrl"@ || name == "control"@ {
        Some(Mods { ctrl: true, ..mods })
    } else if name == "alt"@ {
        Some(Mods { alt: true, ..mods })
    } else if name == "shift"@ {
        Some(Mods { shift: true, ..mods })
    } else if name == "super"@ || name == "logo"@ || name == "meta"@ || name == "win"@ {
        Some(Mods { logo: true, ..mods })
    } else {
        None
    }
}

/// The modifiers that the names ask for, or the first name that asks for none, in small letters.
pub open spec fn modifiers(names: Seq<Seq<char>>) -> Result<Mods, Seq<char>>
    decreases names.len(),
{
    if names.len() == 0 {
        Ok(Mods::none())
    } else {
        match modifiers(names.drop_last()) {
            Err(name) => Err(name),
            Ok(mods) => {
                let name = text::ascii_lowercased(names.last());
                match with_modifier(mods, name) {
                    Some(m) => Ok(m),
                    None => Err(name),
                }
            },
        }
    }
}

/// What the kernel calls the key that `name`, in small letters, stands for.
pub open spec fn kernel_name(name: Seq<char>) -> Seq<char> {
    if name == "esc"@ || name == "escape"@ {
        "KEY_ESC"@
    } else if name == "return"@ {
        "KEY_ENTER"@
    } else if name == "del"@ {
        "KEY_DELETE"@
    } else if name == "pgup"@ {
        "KEY_PAGEUP"@
    } else if name == "pgdn"@ {
        "KEY_PAGEDOWN"@
    } else if name == "menu"@ {
        "KEY_COMPOSE"@
    } else if name == "rightctrl"@ || name == "rctrl"@ {
        "KEY_RIGHTCTRL"@
    } else if name == "rightalt"@ || name == "altgr"@ {
        "KEY_RIGHTALT"@
    } else if name == "rightshift"@ {
        "KEY_RIGHTSHIFT"@
    } else if name == "rightsuper"@ {
        "KEY_RIGHTMETA"@
    } else if "key_"@.is_prefix_of(name) {
        text::ascii_uppercased(name)
    } else {
        "KEY_"@ + text::ascii_uppercased(name)
    }
}

/// The parts of a shortcut: the modifiers' names, and the key's name last.
pub open spec fn spec_parts(spec: Seq<char>) -> Seq<Seq<char>> {
    text::trimmed_parts(text::trim(spec), '+')
}

/// A shortcut taken apart: the modifiers, the key's name as it is written, and what the kernel
/// calls it.
pub struct Wanted {
    pub mods: Mods,
    pub name: String,
    pub kernel: String,
}

/// What a shortcut reads as.
pub open spec fn is_reading(r: Result<Option<Wanted>, HotkeyError>, spec: Seq<char>) -> bool {
    let t = text::trim(spec);
    let parts = spec_parts(spec);
    if t.len() == 0 {
        r matches Ok(w) && w is None
    } else {
        match modifiers(parts.drop_last()) {
            Err(bad) => is_unknown_modifier(r, bad, t),
            Ok(mods) => match r {
                Ok(Some(w)) => {
                    &&& w.mods == mods
                    &&& w.name@ == parts.last()
                    &&& w.kernel@ == kernel_name(text::ascii_lowercased(parts.last()))
                },
                _ => false,
            },
        }
    }
}

pub open spec fn is_unknown_modifier<T>(
    r: Result<T, HotkeyError>,
    bad: Seq<char>,
    spec: Seq<char>,
) -> bool {
    match r {
        Err(HotkeyError::UnknownModifier { name, spec: s }) => name@ == bad && s@ == spec,
        _ => false,
    }
}

pub open spec fn is_unknown_key<T>(
    r: Result<T, HotkeyError>,
    bad: Seq<char>,
    spec: Seq<char>,
) -> bool {
    match r {
        Err(HotkeyError::UnknownKey { name, spec: s }) => name@ == bad && s@ == spec,
        _ => false,
    }
}

fn add_modifier(mods: Mods, name: &str) -> (r: Option<Mods>)
    ensures
        r == with_modifier(mods, name@),
{
    if same_text(name, "ctrl") || same_text(name, "control") {
        Some(Mods { ctrl: true, ..mods })
    } else if same_text(name, "alt") {
        Some(Mods { alt: true, ..mods })
    } else if same_text(name, "shift") {
        Some(Mods { shift: true, ..mods })
    } else if same_text(name, "super") || same_text(name, "logo") || same_text(name, "meta")
        || same_text(name, "win") {
        Some(Mods { logo: true, ..mods })
    } else {
        None
    }
}

fn to_kernel_name(name: &str) -> (r: String)
    ensures
        r@ == kernel_name(name@),
{
    if same_text(name, "esc") || same_text(name, "escape") {
        "KEY_ESC".to_owned()
    } else if same_text(name, "return") {
        "KEY_ENTER".to_owned()
    } else if same_text(name, "del") {
        "KEY_DELETE".to_owned()
    } else if same_text(name, "pgup") {
        "KEY_PAGEUP".to_owned()
    } else if same_text(name, "pgdn") {
        "KEY_PAGEDOWN".to_owned()
    } else if same_text(name, "menu") {
        "KEY_COMPOSE".to_owned()
    } else if same_text(name, "rightctrl") || same_text(name, "rctrl") {
        "KEY_RIGHTCTRL".to_owned()
    } else if same_text(name, "rightalt") || same_text(name, "altgr") {
        "KEY_RIGHTALT".to_owned()
    } else if same_text(name, "rightshift") {
        "KEY_RIGHTSHIFT".to_owned()
    } else if same_text(name, "rightsuper") {
        "KEY_RIGHTMETA".to_owned()
    } else {
        let upper = from_chars(&ascii_upper_chars(&to_chars(name)));
        if starts_with(&to_chars(name), &to_chars("key_")) {
            upper
        } else {
            concat("KEY_", &upper)
        }
    }
}

/// Takes a shortcut apart.
pub fn read_spec(spec: &str) -> (r: Result<Option<Wanted>, HotkeyError>)
    ensures
        is_reading(r, spec@),
{
    let t = trimmed(&to_chars(spec));
    if t.len() == 0 {
        return Ok(None);
    }
    let pieces = split_chars(&t, '+');
    let ghost parts = spec_parts(spec@);
    let ghost split = text::split_at(t@, '+');
    assert(split.len() == pieces@.len());
    assert(parts.len() == pieces@.len());
    let last: usize = pieces.len() - 1;
    let mut mods = Mods::default();
    let mut i: usize = 0;
    assert(parts.drop_last().take(0) =~= Seq::empty());
    while i < last
        invariant
            i <= last,
            last == pieces.len() - 1,
            t@ == text::trim(spec@),
            t@.len() > 0,
            text::texts(pieces@) == text::split_at(t@, '+'),
            parts == spec_parts(spec@),
            parts.len() == pieces@.len(),
            modifiers(parts.drop_last().take(i as int)) == Ok::<Mods, Seq<char>>(mods),
        decreases last - i,
    {
        let ghost names = parts.drop_last();
        assert(names.take(i + 1).drop_last() =~= names.take(i as int));
        let name = from_chars(&ascii_lower_chars(&trimmed(&pieces[i])));
        assert(text::texts(pieces@)[i as int] == pieces@[i as int]@);
        assert(names.take(i + 1).last() == text::trim(pieces@[i as int]@));
        match add_modifier(mods, &name) {
            Some(m) => {
                mods = m;
            },
            None => {
                proof {
                    lemma_bad_modifier(names, i + 1);
                }
                return Err(HotkeyError::UnknownModifier { name, spec: from_chars(&t) });
            },
        }
        i += 1;
    }
    assert(parts.drop_last().take(last as int) =~= parts.drop_last());
    assert(text::texts(pieces@)[last as int] == pieces@[last as int]@);
    let key = trimmed(&pieces[last]);
    let kernel = to_kernel_name(&from_chars(&ascii_lower_chars(&key)));
    Ok(Some(Wanted { mods, name: from_chars(&key), kernel }))
}

/// A name that is no modifier decides, whatever follows it.
proof fn lemma_bad_modifier(names: Seq<Seq<char>>, n: int)
    requires
        0 <= n <= names.len(),
        modifiers(names.take(n)) is Err,
    ensures
        modifiers(names) == modifiers(names.take(n)),
    decreases names.len(),
{
    if n == names.len() {
        assert(names.take(n) =~= names);
    } else {
        assert(names.drop_last().take(n) =~= names.take(n));
        lemma_bad_modifier(names.drop_last(), n);
    }
}

/// The code that evdev knows a key by, if it knows the name.
pub uninterp spec fn evdev_key(name: Seq<char>) -> Option<u16>;

/// `<evdev::KeyCode as FromStr>::from_str`: the code of the key whose kernel name is exactly
/// `name`, from a fixed table, or nothing. Which name has which code is only named.
#[verifier::external_body]
pub(crate) fn key_named(name: &str) -> (r: Option<u16>)
    ensures
        r == evdev_key(name@),
{
    name.parse::<evdev::KeyCode>().ok().map(|k: evdev::KeyCode| k.0)
}

/// What a shortcut comes to, once it is known whether its key exists.
pub open spec fn is_bound(
    r: Result<Option<Hotkey>, HotkeyError>,
    w: Wanted,
    code: Option<u16>,
    spec: Seq<char>,
) -> bool {
    match code {
        Some(c) => r matches Ok(h) && h == Some(Hotkey { mods: w.mods, key: KeyCode(c) }),
        None => is_unknown_key(r, w.name@, text::trim(spec)),
    }
}

/// The shortcut, given the code of its key.
pub fn bind(w: Wanted, code: Option<u16>, spec: &str) -> (r: Result<Option<Hotkey>, HotkeyError>)
    ensures
        is_bound(r, w, code, spec@),
{
    match code {
        Some(c) => Ok(Some(Hotkey { mods: w.mods, key: KeyCode(c) })),
        None => Err(
            HotkeyError::UnknownKey { name: w.name, spec: from_chars(&trimmed(&to_chars(spec))) },
        ),
    }
}

/// What a shortcut comes to.
pub open spec fn is_parsed(r: Result<Option<Hotkey>, HotkeyError>, spec: Seq<char>) -> bool {
    let t = text::trim(spec);
    let parts = spec_parts(spec);
    if t.len() == 0 {
        r matches Ok(h) && h is None
    } else {
        match modifiers(parts.drop_last()) {
            Err(bad) => is_unknown_modifier(r, bad, t),
            Ok(mods) => match evdev_key(kernel_name(text::ascii_lowercased(parts.last()))) {
                Some(c) => r matches Ok(h) && h == Some(Hotkey { mods, key: KeyCode(c) }),
                None => is_unknown_key(r, parts.last(), t),
            },
        }
    }
}

/// Parses "Ctrl+Alt+D", "Super+Space", "F9", "RightCtrl". Empty means unset.
pub fn parse(spec: &str) -> (r: Result<Option<Hotkey>, HotkeyError>)
    ensures
        is_parsed(r, spec@),
{
    match read_spec(spec) {
        Err(e) => Err(e),
        Ok(None) => Ok(None),
        Ok(Some(w)) => {
            let code = key_named(&w.kernel);
            bind(w, code, spec)
        },
    }
}

/// What is wrong with a shortcut, in words, if anything is.
pub open spec fn problem(spec: Seq<char>) -> Option<Seq<char>> {
    let t = text::trim(spec);
    let parts = spec_parts(spec);
    if t.len() == 0 {
        None
    } else {
        match modifiers(parts.drop_last()) {
            Err(bad) => Some(
                "unknown modifier "@ + text::debug_text(bad) + " in hotkey "@ + text::debug_text(t),
            ),
            Ok(_) => match evdev_key(kernel_name(text::ascii_lowercased(parts.last()))) {
                Some(_) => None,
                None => Some(
                    "unknown key "@ + text::debug_text(parts.last()) + " in hotkey "@
                        + text::debug_text(t),
                ),
            },
        }
    }
}

/// Says what is wrong with a shortcut, if anything is.
pub fn check(spec: &str) -> (r: Option<String>)
    ensures
        r is Some <==> problem(spec@) is Some,
        r matches Some(m) ==> m@ == problem(spec@)->0,
{
    match parse(spec) {
        Ok(_) => None,
        Err(e) => Some(e.message()),
    }
}

// ---------------------------------------------------------------------------
// Shortcuts in use
// ---------------------------------------------------------------------------

#[derive(Debug, Clone, Copy)]
pub struct Bindings {
    pub toggle: Option<Hotkey>,
    pub ptt: Option<Hotkey>,
    pub speak_last: Option<Hotkey>,
    pub stop_speaking: Option<Hotkey>,
}

impl Bindings {
    /// The bindings are those that the settings ask for.
    pub open spec fn follows(self, cfg: HotkeyConfig) -> bool {
        &&& is_parsed(Ok(self.toggle), cfg.toggle@)
        &&& is_parsed(Ok(self.ptt), cfg.push_to_talk@)
        &&& is_parsed(Ok(self.speak_last), cfg.speak_last@)
        &&& is_parsed(Ok(self.stop_speaking), cfg.stop_speaking@)
    }

    /// The shortcuts of the settings, or why the first that is not understood is not.
    pub fn from_config(cfg: &HotkeyConfig) -> (r: Result<Self, HotkeyError>)
        ensures
            match r {
                Ok(b) => b.follows(*cfg),
                Err(e) => {
                    let e = Err(e);
                    ||| is_parsed(e, cfg.toggle@)
                    ||| understood(cfg.toggle@) && is_parsed(e, cfg.push_to_talk@)
                    ||| understood(cfg.toggle@) && understood(cfg.push_to_talk@) && is_parsed(
                        e,
                        cfg.speak_last@,
                    )
                    ||| understood(cfg.toggle@) && understood(cfg.push_to_talk@) && understood(
                        cfg.speak_last@,
                    ) && is_parsed(e, cfg.stop_speaking@)
                },
            },
    {
        let toggle = match parse(&cfg.toggle) {
            Ok(h) => h,
            Err(e) => return Err(e),
        };
        let ptt = match parse(&cfg.push_to_talk) {
            Ok(h) => h,
            Err(e) => return Err(e),
        };
        let speak_last = match parse(&cfg.speak_last) {
            Ok(h) => h,
            Err(e) => return Err(e),
        };
        let stop_speaking = match parse(&cfg.stop_speaking) {
            Ok(h) => h,
            Err(e) => return Err(e),
        };
        Ok(Bindings { toggle, ptt, speak_last, stop_speaking })
    }

    pub open spec fn bound_keys(self) -> Seq<KeyCode> {
        key_list(self.toggle) + key_list(self.ptt) + key_list(self.speak_last) + key_list(
            self.stop_speaking,
        )
    }

    /// The keys that have a shortcut.
    pub fn keys(&self) -> (r: Vec<KeyCode>)
        ensures
            r@ == self.bound_keys(),
    {
        let mut out: Vec<KeyCode> = Vec::new();
        if let Some(h) = self.toggle {
            out.push(h.key);
        }
        if let Some(h) = self.ptt {
            out.push(h.key);
        }
        if let Some(h) = self.speak_last {
            out.push(h.key);
        }
        if let Some(h) = self.stop_speaking {
            out.push(h.key);
        }
        assert(out@ =~= self.bound_keys());
        out
    }

    /// One of the codes has a shortcut.
    pub open spec fn binds_any(self, supported: Seq<u16>) -> bool {
        exists|i: int|
            0 <= i < self.bound_keys().len() && supported.contains(
                (#[trigger] self.bound_keys()[i]).0,
            )
    }

    fn has_binding(&self, supported: &[u16]) -> (r: bool)
        ensures
            r == self.binds_any(supported@),
    {
        let keys = self.keys();
        let mut i: usize = 0;
        while i < keys.len()
            invariant
                i <= keys.len(),
                keys@ == self.bound_keys(),
                forall|j: int| 0 <= j < i ==> !supported@.contains((#[trigger] keys@[j]).0),
            decreases keys.len() - i,
        {
            if lists(supported, keys[i].0) {
                return true;
            }
            i += 1;
        }
        false
    }

    /// Whether a device is watched: a keyboard, or anything with a key that has a shortcut, but
    /// not our own virtual keyboard.
    pub fn watches(&self, name: Option<&str>, supported: &[u16]) -> (r: bool)
        ensures
            r == {
                let ours = match name {
                    Some(n) => n@ == DEVICE_NAME@,
                    None => false,
                };
                let keyboard = supported@.contains(KEY_A) && supported@.contains(KEY_ENTER);
                !ours && (keyboard || self.binds_any(supported@))
            },
    {
        let ours = match name {
            Some(n) => same_text(n, DEVICE_NAME),
            None => false,
        };
        !ours && ((lists(supported, KEY_A) && lists(supported, KEY_ENTER)) || self.has_binding(
            supported,
        ))
    }
}

pub open spec fn understood(spec: Seq<char>) -> bool {
    exists|h: Option<Hotkey>| is_parsed(Ok(h), spec)
}

pub open spec fn key_list(h: Option<Hotkey>) -> Seq<KeyCode> {
    match h {
        Some(h) => seq![h.key],
        None => Seq::empty(),
    }
}

fn lists(codes: &[u16], code: u16) -> (r: bool)
    ensures
        r == codes@.contains(code),
{
    let mut i: usize = 0;
    while i < codes.len()
        invariant
            i <= codes.len(),
            forall|j: int| 0 <= j < i ==> codes@[j] != code,
        decreases codes.len() - i,
    {
        if codes[i] == code {
            return true;
        }
        i += 1;
    }
    false
}

/// The held modifiers after a key went down (`value` 1) or up (0).
pub open spec fn held_after(
    held: Set<(usize, u16)>,
    dev: usize,
    code: KeyCode,
    value: i32,
) -> Set<(usize, u16)> {
    if value == 2 || !is_modifier(code.0) {
        held
    } else if value == 1 {
        held.insert((dev, code.0))
    } else {
        held.remove((dev, code.0))
    }
}

pub open spec fn fires(h: Option<Hotkey>, code: KeyCode, mods: Mods) -> bool {
    h == Some(Hotkey { mods, key: code })
}

/// What a key that went down or up asks for, given the modifiers then held. A key that repeats
/// (2) asks for nothing.
pub open spec fn asked(b: Bindings, code: KeyCode, value: i32, mods: Mods) -> Option<HotkeyEvent> {
    if value == 2 {
        None
    } else if value == 1 {
        if fires(b.toggle, code, mods) {
            Some(HotkeyEvent::Toggle)
        } else if fires(b.ptt, code, mods) {
            Some(HotkeyEvent::PushToTalkDown)
        } else if fires(b.speak_last, code, mods) {
            Some(HotkeyEvent::SpeakLast)
        } else if fires(b.stop_speaking, code, mods) {
            Some(HotkeyEvent::StopSpeaking)
        } else {
            None
        }
    } else if b.ptt matches Some(h) && h.key == code {
        // Release of the talk key ends push-to-talk whatever the modifiers now are.
        Some(HotkeyEvent::PushToTalkUp)
    } else {
        None
    }
}

fn is_fired(h: Option<Hotkey>, code: KeyCode, mods: Mods) -> (r: bool)
    ensures
        r == fires(h, code, mods),
{
    match h {
        Some(h) => h.key == code && h.mods == mods,
        None => false,
    }
}

/// A key of keyboard `dev` went down (`value` 1), up (0), or repeats (2).
pub fn on_key(b: &Bindings, held: &mut HeldModifiers, dev: usize, code: KeyCode, value: i32) -> (r:
    Option<HotkeyEvent>)
    requires
        old(held).wf(),
    ensures
        final(held).wf(),
        final(held).keys() == held_after(old(held).keys(), dev, code, value),
        r == asked(*b, code, value, mods_of(final(held).keys(), code.0)),
{
    if value == 2 {
        return None;
    }
    let down = value == 1;
    if modifier_of(code).is_some() {
        held.set(dev, code.0, down);
    }
    if down {
        let mods = current_mods(held, code);
        if is_fired(b.toggle, code, mods) {
            Some(HotkeyEvent::Toggle)
        } else if is_fired(b.ptt, code, mods) {
            Some(HotkeyEvent::PushToTalkDown)
        } else if is_fired(b.speak_last, code, mods) {
            Some(HotkeyEvent::SpeakLast)
        } else if is_fired(b.stop_speaking, code, mods) {
            Some(HotkeyEvent::StopSpeaking)
        } else {
            None
        }
    } else {
        match b.ptt {
            Some(h) => if h.key == code {
                Some(HotkeyEvent::PushToTalkUp)
            } else {
                None
            },
            None => None,
        }
    }
}

// ---------------------------------------------------------------------------
// Laws
// ---------------------------------------------------------------------------

/// A key does not count as held for its own shortcut, so that a modifier alone can be one.
pub proof fn law_a_key_is_not_its_own_modifier(
    held: Set<(usize, u16)>,
    dev: usize,
    code: KeyCode,
    value: i32,
)
    ensures
        mods_of(held_after(held, dev, code, value), code.0) == mods_of(held, code.0),
{
    lemma_holds_others(held, dev, code, value, |c: u16| is_ctrl(c));
    lemma_holds_others(held, dev, code, value, |c: u16| is_alt(c));
    lemma_holds_others(held, dev, code, value, |c: u16| is_shift(c));
    lemma_holds_others(held, dev, code, value, |c: u16| is_logo(c));
}

proof fn lemma_holds_others(
    held: Set<(usize, u16)>,
    dev: usize,
    code: KeyCode,
    value: i32,
    kind: spec_fn(u16) -> bool,
)
    ensures
        holds(held_after(held, dev, code, value), code.0, kind) == holds(held, code.0, kind),
{
    let after = held_after(held, dev, code, value);
    if holds(held, code.0, kind) {
        let k = choose|k: (usize, u16)|
            #[trigger] held.contains(k) && k.1 != code.0 && kind(k.1);
        assert(after.contains(k));
    }
    if holds(after, code.0, kind) {
        let k = choose|k: (usize, u16)|
            #[trigger] after.contains(k) && k.1 != code.0 && kind(k.1);
        assert(held.contains(k));
    }
}

/// Letting the talk key go ends push-to-talk, whatever modifiers are held by then.
pub proof fn law_letting_go_ends_push_to_talk(b: Bindings, talk: Hotkey, mods: Mods)
    requires
        b.ptt == Some(talk),
    ensures
        asked(b, talk.key, 0, mods) == Some(HotkeyEvent::PushToTalkUp),
{
}

/// A key that is held down and repeats neither asks for anything nor changes what is held.
pub proof fn law_repeats_are_ignored(
    b: Bindings,
    held: Set<(usize, u16)>,
    dev: usize,
    code: KeyCode,
    mods: Mods,
)
    ensures
        asked(b, code, 2, mods) is None,
        held_after(held, dev, code, 2) == held,
{
}

proof fn lemma_lowered(c: char)
    ensures
        text::whitespace(text::lowered(c)) == text::whitespace(c),
        text::lowered(c) == '+' <==> c == '+',
        text::lowered(text::lowered(c)) == text::lowered(c),
{
}

proof fn lemma_lowercased_twice(s: Seq<char>)
    ensures
        text::ascii_lowercased(text::ascii_lowercased(s)) == text::ascii_lowercased(s),
{
    assert forall|i: int| 0 <= i < s.len() implies text::ascii_lowercased(
        text::ascii_lowercased(s),
    )[i] == #[trigger] text::ascii_lowercased(s)[i] by {
        lemma_lowered(s[i]);
    }
    assert(text::ascii_lowercased(text::ascii_lowercased(s)) =~= text::ascii_lowercased(s));
}

proof fn lemma_lowercased_trim_end(s: Seq<char>)
    ensures
        text::trim_end(text::ascii_lowercased(s)) == text::ascii_lowercased(text::trim_end(s)),
    decreases s.len(),
{
    if s.len() > 0 {
        lemma_lowered(s.last());
        lemma_lowercased_trim_end(s.drop_last());
        assert(text::ascii_lowercased(s).drop_last() =~= text::ascii_lowercased(s.drop_last()));
    }
}

proof fn lemma_lowercased_trim_start(s: Seq<char>)
    ensures
        text::trim_start(text::ascii_lowercased(s)) == text::ascii_lowercased(text::trim_start(s)),
    decreases s.len(),
{
    if s.len() > 0 {
        lemma_lowered(s[0]);
        lemma_lowercased_trim_start(s.skip(1));
        assert(text::ascii_lowercased(s).skip(1) =~= text::ascii_lowercased(s.skip(1)));
    }
}

proof fn lemma_lowercased_trim(s: Seq<char>)
    ensures
        text::trim(text::ascii_lowercased(s)) == text::ascii_lowercased(text::trim(s)),
{
    lemma_lowercased_trim_end(s);
    lemma_lowercased_trim_start(text::trim_end(s));
    lemma_lowercased_trim_start(s);
    lemma_lowercased_trim_end(text::trim_start(s));
}

spec fn lowercased_all(parts: Seq<Seq<char>>) -> Seq<Seq<char>> {
    parts.map_values(|p: Seq<char>| text::ascii_lowercased(p))
}

proof fn lemma_lowercased_split(s: Seq<char>)
    ensures
        text::split_at(text::ascii_lowercased(s), '+') == lowercased_all(text::split_at(s, '+')),
    decreases s.len(),
{
    let low = text::ascii_lowercased(s);
    assert(text::ascii_lowercased(Seq::empty()) =~= Seq::empty());
    if s.len() == 0 {
        assert(text::split_at(low, '+') =~= lowercased_all(text::split_at(s, '+')));
    } else {
        lemma_lowered(s.last());
        lemma_lowercased_split(s.drop_last());
        text::lemma_split_some(s.drop_last(), '+');
        assert(low.drop_last() =~= text::ascii_lowercased(s.drop_last()));
        let before = text::split_at(s.drop_last(), '+');
        if s.last() == '+' {
            assert(lowercased_all(before.push(Seq::empty())) =~= lowercased_all(before).push(
                Seq::empty(),
            ));
        } else {
            let grown = before.last().push(s.last());
            assert(text::ascii_lowercased(grown) =~= text::ascii_lowercased(before.last()).push(
                text::lowered(s.last()),
            ));
            assert(lowercased_all(before.drop_last().push(grown)) =~= lowercased_all(
                before,
            ).drop_last().push(text::ascii_lowercased(grown)));
        }
    }
}

proof fn lemma_lowercased_modifiers(names: Seq<Seq<char>>)
    ensures
        modifiers(lowercased_all(names)) == modifiers(names),
    decreases names.len(),
{
    if names.len() > 0 {
        lemma_lowercased_modifiers(names.drop_last());
        assert(lowercased_all(names).drop_last() =~= lowercased_all(names.drop_last()));
        lemma_lowercased_twice(names.last());
    } else {
        assert(lowercased_all(names) =~= names);
    }
}

/// Capital and small letters make no difference in a shortcut.
pub proof fn law_case_makes_no_difference(spec: Seq<char>, h: Option<Hotkey>)
    ensures
        is_parsed(Ok(h), text::ascii_lowercased(spec)) <==> is_parsed(Ok(h), spec),
{
    let low = text::ascii_lowercased(spec);
    let t = text::trim(spec);
    let parts = spec_parts(spec);
    lemma_lowercased_trim(spec);
    lemma_lowercased_split(t);
    text::lemma_split_some(t, '+');
    let split = text::split_at(t, '+');
    assert forall|i: int| 0 <= i < parts.len() implies #[trigger] spec_parts(low)[i]
        == lowercased_all(parts)[i] by {
        lemma_lowercased_trim(split[i]);
    }
    assert(spec_parts(low) =~= lowercased_all(parts));
    assert(spec_parts(low).drop_last() =~= lowercased_all(parts.drop_last()));
    lemma_lowercased_modifiers(parts.drop_last());
    lemma_lowercased_twice(parts.last());
}

/// What a modifier's name, in small letters, asks for.
pub open spec fn granted(name: Seq<char>) -> Mods {
    match with_modifier(Mods::none(), name) {
        Some(m) => m,
        None => Mods::none(),
    }
}

/// Everything that a set of modifiers' names asks for.
pub open spec fn granted_by(names: Set<Seq<char>>) -> Mods {
    Mods {
        ctrl: exists|n: Seq<char>| #[trigger] names.contains(n) && granted(n).ctrl,
        alt: exists|n: Seq<char>| #[trigger] names.contains(n) && granted(n).alt,
        shift: exists|n: Seq<char>| #[trigger] names.contains(n) && granted(n).shift,
        logo: exists|n: Seq<char>| #[trigger] names.contains(n) && granted(n).logo,
    }
}

/// Every name of a set, in small letters, is a modifier's.
pub open spec fn all_known(names: Set<Seq<char>>) -> bool {
    forall|n: Seq<char>| #[trigger] names.contains(n) ==> with_modifier(Mods::none(), n) is Some
}

/// A modifier more adds what it asks for and takes nothing away.
proof fn lemma_granted_more(names: Set<Seq<char>>, name: Seq<char>)
    ensures
        ({
            let m = granted_by(names);
            let g = granted(name);
            granted_by(names.insert(name)) == (Mods {
                ctrl: m.ctrl || g.ctrl,
                alt: m.alt || g.alt,
                shift: m.shift || g.shift,
                logo: m.logo || g.logo,
            })
        }),
        all_known(names.insert(name)) <==> all_known(names) && with_modifier(
            Mods::none(),
            name,
        ) is Some,
{
    let more = names.insert(name);
    assert(more.contains(name));
    assert(forall|n: Seq<char>| #[trigger] names.contains(n) ==> more.contains(n));
    assert(forall|n: Seq<char>| #[trigger] more.contains(n) ==> names.contains(n) || n == name);
}

/// The modifiers of a shortcut only depend on which names there are.
proof fn lemma_modifiers_are_a_set(names: Seq<Seq<char>>)
    ensures
        modifiers(names) is Ok <==> all_known(lowercased_all(names).to_set()),
        modifiers(names) matches Ok(m) ==> m == granted_by(lowercased_all(names).to_set()),
    decreases names.len(),
{
    let set = lowercased_all(names).to_set();
    if names.len() == 0 {
        assert(set =~= Set::empty());
    } else {
        let front = names.drop_last();
        let last = text::ascii_lowercased(names.last());
        lemma_modifiers_are_a_set(front);
        let before = lowercased_all(front).to_set();
        assert(lowercased_all(names) =~= lowercased_all(front).push(last));
        assert(set =~= before.insert(last)) by {
            assert forall|n: Seq<char>| set.contains(n) <==> before.insert(last).contains(n) by {
                if lowercased_all(names).contains(n) {
                    let i = lowercased_all(names).index_of(n);
                    if i < front.len() {
                        assert(lowercased_all(front)[i] == n);
                    }
                }
                if lowercased_all(front).contains(n) {
                    let i = lowercased_all(front).index_of(n);
                    assert(lowercased_all(names)[i] == n);
                }
                assert(lowercased_all(names)[front.len() as int] == last);
            }
        }
        lemma_granted_more(before, last);
    }
}

/// The parts of a shortcut as they stand between the plus signs, without the blanks around them
/// and in small letters.
pub open spec fn bare_parts(spec: Seq<char>) -> Seq<Seq<char>> {
    text::trimmed_parts(spec, '+').map_values(|p: Seq<char>| text::ascii_lowercased(p))
}

/// Two shortcuts with the same key at their end and the same modifiers before it, in any order and
/// any number of times, in capital or small letters and with any blanks around them.
pub open spec fn same_shortcut(a: Seq<char>, b: Seq<char>) -> bool {
    &&& bare_parts(a).last() == bare_parts(b).last()
    &&& bare_parts(a).drop_last().to_set() == bare_parts(b).drop_last().to_set()
}

/// What a shortcut comes to can be told from its bare parts.
proof fn lemma_bare_parts_decide(spec: Seq<char>)
    ensures
        ({
            let bare = bare_parts(spec);
            let parts = spec_parts(spec);
            &&& bare.len() > 0
            &&& parts.len() == bare.len()
            &&& text::ascii_lowercased(parts.last()) == bare.last()
            &&& lowercased_all(parts.drop_last()) == bare.drop_last()
            &&& text::trim(spec).len() == 0 <==> bare.len() == 1 && bare[0].len() == 0
        }),
{
    let bare = bare_parts(spec);
    let parts = spec_parts(spec);
    let t = text::trim(spec);
    text::lemma_trimmed_parts(spec, '+');
    text::lemma_split_some(spec, '+');
    text::lemma_split_some(t, '+');
    assert(lowercased_all(parts.drop_last()) =~= bare.drop_last());
    if bare.len() == 1 {
        lemma_one_part(t, '+');
        text::lemma_trim_twice(spec);
        assert(parts[0] == t);
        assert(bare[0] == text::ascii_lowercased(t));
    }
    if t.len() == 0 {
        assert(t =~= Seq::empty());
    }
}

/// A text that is a single part is that part.
proof fn lemma_one_part(s: Seq<char>, at: char)
    requires
        text::split_at(s, at).len() == 1,
    ensures
        text::split_at(s, at)[0] == s,
    decreases s.len(),
{
    if s.len() > 0 {
        text::lemma_split_some(s.drop_last(), at);
        lemma_one_part(s.drop_last(), at);
        assert(s.drop_last().push(s.last()) =~= s);
    } else {
        assert(s =~= Seq::empty());
    }
}

/// A shortcut means the same whatever blanks surround its parts, however its letters are written,
/// and in whatever order and however often its modifiers are named. Only a blank one means none.
pub proof fn law_only_the_key_and_its_modifiers_count(
    a: Seq<char>,
    b: Seq<char>,
    h: Option<Hotkey>,
)
    requires
        same_shortcut(a, b),
    ensures
        is_parsed(Ok(h), a) <==> is_parsed(Ok(h), b),
        understood(a) <==> understood(b),
        is_parsed(Ok(None), a) <==> text::trim(a).len() == 0,
{
    lemma_bare_parts_decide(a);
    lemma_bare_parts_decide(b);
    lemma_modifiers_are_a_set(spec_parts(a).drop_last());
    lemma_modifiers_are_a_set(spec_parts(b).drop_last());
    lemma_alone_in_set(bare_parts(a), bare_parts(b));
    lemma_alone_in_set(bare_parts(b), bare_parts(a));
    assert forall|k: Option<Hotkey>| is_parsed(Ok(k), a) == is_parsed(Ok(k), b) by {}
    assert(understood(a) ==> understood(b)) by {
        if understood(a) {
            let k = choose|k: Option<Hotkey>| is_parsed(Ok(k), a);
            assert(is_parsed(Ok(k), b));
        }
    }
    assert(understood(b) ==> understood(a)) by {
        if understood(b) {
            let k = choose|k: Option<Hotkey>| is_parsed(Ok(k), b);
            assert(is_parsed(Ok(k), a));
        }
    }
}

proof fn lemma_alone_in_set(a: Seq<Seq<char>>, b: Seq<Seq<char>>)
    requires
        a.len() > 0,
        b.len() > 0,
        a.drop_last().to_set() == b.drop_last().to_set(),
    ensures
        a.len() == 1 ==> b.len() == 1,
{
    if a.len() == 1 && b.len() > 1 {
        assert(b.drop_last().to_set().contains(b[0])) by {
            assert(b.drop_last()[0] == b[0]);
        }
        assert(a.drop_last().to_set().contains(b[0]));
    }
}

/// The modifier keys by their codes, the left and the right one of each.
pub proof fn law_modifiers_are_these_keys(code: u16)
    ensures
        is_ctrl(code) <==> code == 29 || code == 97,
        is_alt(code) <==> code == 56 || code == 100,
        is_shift(code) <==> code == 42 || code == 54,
        is_logo(code) <==> code == 125 || code == 126,
        is_modifier(code) <==> code == 29 || code == 97 || code == 56 || code == 100 || code == 42
            || code == 54 || code == 125 || code == 126,
{
}

/// A modifier counts as held exactly while a key of its kind, other than the one just pressed, is
/// down on some keyboard.
pub proof fn law_modifiers_count_on_any_keyboard(held: Set<(usize, u16)>, except: u16)
    ensures
        ({
            let m = mods_of(held, except);
            &&& m.ctrl <==> exists|k: (usize, u16)|
                #[trigger] held.contains(k) && k.1 != except && (k.1 == 29 || k.1 == 97)
            &&& m.alt <==> exists|k: (usize, u16)|
                #[trigger] held.contains(k) && k.1 != except && (k.1 == 56 || k.1 == 100)
            &&& m.shift <==> exists|k: (usize, u16)|
                #[trigger] held.contains(k) && k.1 != except && (k.1 == 42 || k.1 == 54)
            &&& m.logo <==> exists|k: (usize, u16)|
                #[trigger] held.contains(k) && k.1 != except && (k.1 == 125 || k.1 == 126)
        }),
{
    let m = mods_of(held, except);
    if m.ctrl {
        let k = choose|k: (usize, u16)|
            #[trigger] held.contains(k) && k.1 != except && is_ctrl(k.1);
        assert(held.contains(k) && k.1 != except && (k.1 == 29 || k.1 == 97));
    }
    if exists|k: (usize, u16)|
        #[trigger] held.contains(k) && k.1 != except && (k.1 == 29 || k.1 == 97) {
        let k = choose|k: (usize, u16)|
            #[trigger] held.contains(k) && k.1 != except && (k.1 == 29 || k.1 == 97);
        assert(held.contains(k) && k.1 != except && is_ctrl(k.1));
        assert(m.ctrl);
    }
    if m.alt {
        let k = choose|k: (usize, u16)|
            #[trigger] held.contains(k) && k.1 != except && is_alt(k.1);
        assert(held.contains(k) && k.1 != except && (k.1 == 56 || k.1 == 100));
    }
    if exists|k: (usize, u16)|
        #[trigger] held.contains(k) && k.1 != except && (k.1 == 56 || k.1 == 100) {
        let k = choose|k: (usize, u16)|
            #[trigger] held.contains(k) && k.1 != except && (k.1 == 56 || k.1 == 100);
        assert(held.contains(k) && k.1 != except && is_alt(k.1));
        assert(m.alt);
    }
    if m.shift {
        let k = choose|k: (usize, u16)|
            #[trigger] held.contains(k) && k.1 != except && is_shift(k.1);
        assert(held.contains(k) && k.1 != except && (k.1 == 42 || k.1 == 54));
    }
    if exists|k: (usize, u16)|
        #[trigger] held.contains(k) && k.1 != except && (k.1 == 42 || k.1 == 54) {
        let k = choose|k: (usize, u16)|
            #[trigger] held.contains(k) && k.1 != except && (k.1 == 42 || k.1 == 54);
        assert(held.contains(k) && k.1 != except && is_shift(k.1));
        assert(m.shift);
    }
    if m.logo {
        let k = choose|k: (usize, u16)|
            #[trigger] held.contains(k) && k.1 != except && is_logo(k.1);
        assert(held.contains(k) && k.1 != except && (k.1 == 125 || k.1 == 126));
    }
    if exists|k: (usize, u16)|
        #[trigger] held.contains(k) && k.1 != except && (k.1 == 125 || k.1 == 126) {
        let k = choose|k: (usize, u16)|
            #[trigger] held.contains(k) && k.1 != except && (k.1 == 125 || k.1 == 126);
        assert(held.contains(k) && k.1 != except && is_logo(k.1));
        assert(m.logo);
    }
}

/// Only modifiers are noted: pressed, they are held, and let go, they are not; other keys change
/// nothing.
pub proof fn law_modifiers_are_held_while_down(
    held: Set<(usize, u16)>,
    dev: usize,
    code: KeyCode,
)
    ensures
        is_modifier(code.0) ==> held_after(held, dev, code, 1) == held.insert((dev, code.0)),
        is_modifier(code.0) ==> held_after(held, dev, code, 0) == held.remove((dev, code.0)),
        !is_modifier(code.0) ==> held_after(held, dev, code, 1) == held && held_after(
            held,
            dev,
            code,
            0,
        ) == held,
{
}

/// A shortcut fires when its key is pressed with exactly its modifiers, and nothing else fires it;
/// where two are the same, toggling comes first, then talking, reading, and silence.
pub proof fn law_shortcuts_fire_with_their_modifiers(b: Bindings, code: KeyCode, mods: Mods)
    ensures
        ({
            let hit = |h: Option<Hotkey>| h is Some && h->0.key == code && h->0.mods == mods;
            let r = asked(b, code, 1, mods);
            &&& hit(b.toggle) ==> r == Some(HotkeyEvent::Toggle)
            &&& !hit(b.toggle) && hit(b.ptt) ==> r == Some(HotkeyEvent::PushToTalkDown)
            &&& !hit(b.toggle) && !hit(b.ptt) && hit(b.speak_last) ==> r == Some(
                HotkeyEvent::SpeakLast,
            )
            &&& !hit(b.toggle) && !hit(b.ptt) && !hit(b.speak_last) && hit(b.stop_speaking) ==> r
                == Some(HotkeyEvent::StopSpeaking)
            &&& !hit(b.toggle) && !hit(b.ptt) && !hit(b.speak_last) && !hit(b.stop_speaking) ==> r
                is None
        }),
        b.ptt is None || b.ptt->0.key != code ==> asked(b, code, 0, mods) is None,
{
}

/// The names of the modifiers, each of which adds its own and nothing else.
pub proof fn law_modifiers_have_these_names(mods: Mods, name: Seq<char>)
    ensures
        ({
            let ctrl = name == "ctrl"@ || name == "control"@;
            let logo = name == "super"@ || name == "logo"@ || name == "meta"@ || name == "win"@;
            let r = with_modifier(mods, name);
            &&& ctrl ==> r == Some(Mods { ctrl: true, ..mods })
            &&& name == "alt"@ ==> r == Some(Mods { alt: true, ..mods })
            &&& name == "shift"@ ==> r == Some(Mods { shift: true, ..mods })
            &&& logo ==> r == Some(Mods { logo: true, ..mods })
            &&& r is Some ==> ctrl || logo || name == "alt"@ || name == "shift"@
        }),
{
    reveal_strlit("ctrl");
    reveal_strlit("control");
    reveal_strlit("alt");
    reveal_strlit("shift");
    reveal_strlit("super");
    reveal_strlit("logo");
    reveal_strlit("meta");
    reveal_strlit("win");
    // Names of one length differ in their first letter or the next.
    let places = (name[0], name[1]);
}

/// The other names of keys; any other name is the kernel's, with or without its prefix.
pub proof fn law_keys_have_these_names(name: Seq<char>)
    ensures
        name == "esc"@ || name == "escape"@ ==> kernel_name(name) == "KEY_ESC"@,
        name == "return"@ ==> kernel_name(name) == "KEY_ENTER"@,
        name == "del"@ ==> kernel_name(name) == "KEY_DELETE"@,
        name == "pgup"@ ==> kernel_name(name) == "KEY_PAGEUP"@,
        name == "pgdn"@ ==> kernel_name(name) == "KEY_PAGEDOWN"@,
        name == "menu"@ ==> kernel_name(name) == "KEY_COMPOSE"@,
        name == "rightctrl"@ || name == "rctrl"@ ==> kernel_name(name) == "KEY_RIGHTCTRL"@,
        name == "rightalt"@ || name == "altgr"@ ==> kernel_name(name) == "KEY_RIGHTALT"@,
        name == "rightshift"@ ==> kernel_name(name) == "KEY_RIGHTSHIFT"@,
        name == "rightsuper"@ ==> kernel_name(name) == "KEY_RIGHTMETA"@,
        name != "esc"@ && name != "escape"@ && name != "return"@ && name != "del"@ && name
            != "pgup"@ && name != "pgdn"@ && name != "menu"@ && name != "rightctrl"@ && name
            != "rctrl"@ && name != "rightalt"@ && name != "altgr"@ && name != "rightshift"@ && name
            != "rightsuper"@ ==> {
            let prefixed = name.len() >= 4 && name.take(4) == "key_"@;
            &&& prefixed ==> kernel_name(name) == text::ascii_uppercased(name)
            &&& !prefixed ==> kernel_name(name) == "KEY_"@ + text::ascii_uppercased(name)
        },
{
    reveal_strlit("esc");
    reveal_strlit("escape");
    reveal_strlit("return");
    reveal_strlit("del");
    reveal_strlit("pgup");
    reveal_strlit("pgdn");
    reveal_strlit("menu");
    reveal_strlit("rightctrl");
    reveal_strlit("rctrl");
    reveal_strlit("rightalt");
    reveal_strlit("altgr");
    reveal_strlit("rightshift");
    reveal_strlit("rightsuper");
    reveal_strlit("key_");
    // Names of one length differ in one of these places.
    let places = (name[0], name[2], name[5], name[6]);
    if name.len() >= 4 {
        assert(name.take(4) =~= name.subrange(0, 4));
    }
}

/// A shortcut without a plus sign is its key alone.
pub proof fn law_a_key_alone_is_a_shortcut(spec: Seq<char>, c: u16)
    requires
        !spec.contains('+'),
        text::trim(spec).len() > 0,
    ensures
        ({
            let found = evdev_key(kernel_name(text::ascii_lowercased(text::trim(spec))));
            let alone = Hotkey {
                mods: Mods { ctrl: false, alt: false, shift: false, logo: false },
                key: KeyCode(c),
            };
            &&& found == Some(c) ==> is_parsed(Ok(Some(alone)), spec)
            &&& found is None ==> !understood(spec)
        }),
{
    text::law_split_at_every_occurrence(spec, '+', spec);
    text::lemma_trimmed_parts(spec, '+');
    let parts = spec_parts(spec);
    assert(text::trimmed_parts(spec, '+') =~= seq![text::trim(spec)]);
    assert(parts == seq![text::trim(spec)]);
    assert(parts.drop_last() =~= Seq::empty());
    assert(parts.last() == text::trim(spec));
}

/// A modifier in front of a shortcut adds to it and changes nothing else; anything else in front
/// of it is not understood.
pub proof fn law_a_modifier_in_front_adds_to_a_shortcut(
    front: Seq<char>,
    rest: Seq<char>,
    h: Hotkey,
)
    requires
        !front.contains('+'),
        is_parsed(Ok(Some(h)), rest),
    ensures
        ({
            let name = text::ascii_lowercased(text::trim(front));
            let spec = front.push('+') + rest;
            match with_modifier(h.mods, name) {
                Some(mods) => is_parsed(Ok(Some(Hotkey { mods, key: h.key })), spec),
                None => !understood(spec),
            }
        }),
{
    let name = text::ascii_lowercased(text::trim(front));
    let spec = front.push('+') + rest;
    text::law_split_at_every_occurrence(front, '+', rest);
    text::lemma_trimmed_parts(spec, '+');
    text::lemma_trimmed_parts(rest, '+');
    text::lemma_split_some(rest, '+');
    let tail = spec_parts(rest);
    let parts = spec_parts(spec);
    assert(text::trimmed_parts(spec, '+') =~= seq![text::trim(front)] + text::trimmed_parts(
        rest,
        '+',
    ));
    assert(parts == seq![text::trim(front)] + tail);
    assert(parts.last() == tail.last());
    assert(parts.drop_last() =~= seq![text::trim(front)] + tail.drop_last());
    lemma_bare_parts_decide(spec);
    assert(text::trim(spec).len() > 0) by {
        assert(parts.len() > 1);
    }
    lemma_modifiers_are_a_set(parts.drop_last());
    lemma_modifiers_are_a_set(tail.drop_last());
    let before = lowercased_all(tail.drop_last());
    let set = before.to_set();
    let all = lowercased_all(parts.drop_last());
    assert(all =~= seq![name] + before);
    assert(all.to_set() =~= set.insert(name)) by {
        assert forall|n: Seq<char>| all.to_set().contains(n) <==> set.insert(name).contains(n) by {
            if all.contains(n) {
                let i = all.index_of(n);
                if i > 0 {
                    assert(before[i - 1] == n);
                }
            }
            if before.contains(n) {
                let i = before.index_of(n);
                assert(all[i + 1] == n);
            }
            assert(all[0] == name);
        }
    }
    lemma_granted_more(set, name);
    match with_modifier(h.mods, name) {
        Some(mods) => {
            assert(granted_by(all.to_set()) == mods);
        },
        None => {
            assert(modifiers(parts.drop_last()) is Err);
        },
    }
}

/// What is wrong is said exactly where a shortcut is not understood, with the shortcut in it.
pub proof fn law_problems_are_named(spec: Seq<char>, e: HotkeyError)
    ensures
        problem(spec) is None <==> understood(spec),
        is_parsed(Err(e), spec) ==> problem(spec) == Some(e.text()),
        e matches HotkeyError::UnknownModifier { name, spec: s } ==> e.text()
            == "unknown modifier "@ + text::debug_text(name@) + " in hotkey "@ + text::debug_text(s@),
        e matches HotkeyError::UnknownKey { name, spec: s } ==> e.text() == "unknown key "@
            + text::debug_text(name@) + " in hotkey "@ + text::debug_text(s@),
{
    let parts = spec_parts(spec);
    if text::trim(spec).len() == 0 {
        assert(is_parsed(Ok(None), spec));
    } else if modifiers(parts.drop_last()) is Ok {
        let found = evdev_key(kernel_name(text::ascii_lowercased(parts.last())));
        if found is Some {
            let h = Hotkey { mods: modifiers(parts.drop_last())->Ok_0, key: KeyCode(found->0) };
            assert(is_parsed(Ok(Some(h)), spec));
        }
    }
}

/// The keys with a shortcut are those of the four shortcuts that are set, and no others.
pub proof fn law_the_bound_keys_are_those_of_the_shortcuts(b: Bindings, k: KeyCode)
    ensures
        b.bound_keys().contains(k) <==> (b.toggle is Some && b.toggle->0.key == k) || (
        b.ptt is Some && b.ptt->0.key == k) || (b.speak_last is Some && b.speak_last->0.key == k)
            || (b.stop_speaking is Some && b.stop_speaking->0.key == k),
{
    let t = key_list(b.toggle);
    let p = key_list(b.ptt);
    let s = key_list(b.speak_last);
    let q = key_list(b.stop_speaking);
    let all = b.bound_keys();
    if b.toggle is Some && b.toggle->0.key == k {
        assert(all[0] == k);
    }
    if b.ptt is Some && b.ptt->0.key == k {
        assert(all[t.len() as int] == k);
    }
    if b.speak_last is Some && b.speak_last->0.key == k {
        assert(all[(t.len() + p.len()) as int] == k);
    }
    if b.stop_speaking is Some && b.stop_speaking->0.key == k {
        assert(all[(t.len() + p.len() + s.len()) as int] == k);
    }
    if all.contains(k) {
        let i = all.index_of(k);
        assert(all[i] == k);
    }
}

/// A keyboard is watched, and so is anything with a key that a shortcut ends in; our own virtual
/// keyboard never is.
pub proof fn law_keyboards_are_watched(
    b: &Bindings,
    name: Option<&str>,
    supported: &[u16],
    r: bool,
)
    requires
        call_ensures(Bindings::watches, (b, name, supported), r),
    ensures
        name is Some && name->0@ == "RavenVoice virtual keyboard"@ ==> !r,
        !(name is Some && name->0@ == "RavenVoice virtual keyboard"@) ==> {
            &&& supported@.contains(30) && supported@.contains(28) ==> r
            &&& b.toggle is Some && supported@.contains(b.toggle->0.key.0) ==> r
            &&& b.ptt is Some && supported@.contains(b.ptt->0.key.0) ==> r
            &&& b.speak_last is Some && supported@.contains(b.speak_last->0.key.0) ==> r
            &&& b.stop_speaking is Some && supported@.contains(b.stop_speaking->0.key.0) ==> r
            &&& r ==> (supported@.contains(30) && supported@.contains(28)) || exists|k: KeyCode|
                supported@.contains(k.0) && #[trigger] b.bound_keys().contains(k)
        },
{
    let keys = b.bound_keys();
    if b.toggle is Some && supported@.contains(b.toggle->0.key.0) {
        lemma_bound_keys_count(*b, b.toggle->0.key, supported@);
    }
    if b.ptt is Some && supported@.contains(b.ptt->0.key.0) {
        lemma_bound_keys_count(*b, b.ptt->0.key, supported@);
    }
    if b.speak_last is Some && supported@.contains(b.speak_last->0.key.0) {
        lemma_bound_keys_count(*b, b.speak_last->0.key, supported@);
    }
    if b.stop_speaking is Some && supported@.contains(b.stop_speaking->0.key.0) {
        lemma_bound_keys_count(*b, b.stop_speaking->0.key, supported@);
    }
    if b.binds_any(supported@) {
        let i = choose|i: int| 0 <= i < keys.len() && supported@.contains((#[trigger] keys[i]).0);
        assert(keys.contains(keys[i]));
    }
}

proof fn lemma_bound_keys_count(b: Bindings, k: KeyCode, supported: Seq<u16>)
    requires
        (b.toggle is Some && b.toggle->0.key == k) || (b.ptt is Some && b.ptt->0.key == k) || (
        b.speak_last is Some && b.speak_last->0.key == k) || (b.stop_speaking is Some
            && b.stop_speaking->0.key == k),
        supported.contains(k.0),
    ensures
        b.binds_any(supported),
{
    law_the_bound_keys_are_those_of_the_shortcuts(b, k);
    let i = b.bound_keys().index_of(k);
    assert(b.bound_keys()[i] == k);
}

/// Each shortcut asks for its own thing.
pub proof fn law_shortcuts_ask_for_their_thing(r: Cmd)
    ensures
        call_ensures(HotkeyEvent::command, (HotkeyEvent::Toggle,), r) ==> r is Toggle,
        call_ensures(HotkeyEvent::command, (HotkeyEvent::PushToTalkDown,), r) ==> r
            is PushToTalkDown,
        call_ensures(HotkeyEvent::command, (HotkeyEvent::PushToTalkUp,), r) ==> r is PushToTalkUp,
        call_ensures(HotkeyEvent::command, (HotkeyEvent::SpeakLast,), r) ==> r is SpeakLast,
        call_ensures(HotkeyEvent::command, (HotkeyEvent::StopSpeaking,), r) ==> r is StopSpeaking,
{
}

/// A shortcut comes to one thing only.
pub proof fn law_a_shortcut_comes_to_one_thing(
    spec: Seq<char>,
    a: Result<Option<Hotkey>, HotkeyError>,
    b: Result<Option<Hotkey>, HotkeyError>,
)
    requires
        is_parsed(a, spec),
        is_parsed(b, spec),
    ensures
        a is Ok ==> a == b,
        a is Err ==> b is Err && a->Err_0.text() == b->Err_0.text(),
{
}

/// A blank shortcut is unset, and no other is.
pub proof fn law_blank_shortcuts_are_unset(spec: Seq<char>)
    ensures
        is_parsed(Ok(None), spec) <==> forall|i: int|
            0 <= i < spec.len() ==> text::whitespace(#[trigger] spec[i]),
{
    text::law_blank_texts_trim_to_nothing(spec);
}

/// Taking a shortcut apart and then finding its key is reading it.
pub proof fn law_shortcuts_are_read_in_two_steps(
    spec: Seq<char>,
    r: Result<Option<Wanted>, HotkeyError>,
    bound: Result<Option<Hotkey>, HotkeyError>,
)
    requires
        is_reading(r, spec),
    ensures
        r is Err ==> is_parsed(Err(r->Err_0), spec),
        r is Ok && r->Ok_0 is None ==> is_parsed(Ok(None), spec),
        r is Ok && r->Ok_0 is Some && is_bound(
            bound,
            r->Ok_0->0,
            evdev_key(r->Ok_0->0.kernel@),
            spec,
        ) ==> is_parsed(bound, spec),
{
}

/// What is not understood is named as it is written: a key that does not exist, or in small
/// letters the first name that is no modifier's, with the whole shortcut.
pub proof fn law_what_is_not_understood_is_named(
    front: Seq<char>,
    rest: Seq<char>,
    key: Seq<char>,
    e: HotkeyError,
)
    requires
        !front.contains('+'),
        !key.contains('+'),
    ensures
        ({
            let name = text::ascii_lowercased(text::trim(front));
            let spec = front.push('+') + rest;
            let known = with_modifier(
                Mods { ctrl: false, alt: false, shift: false, logo: false },
                name,
            );
            known is None && is_parsed(Err(e), spec) ==> {
                &&& e is UnknownModifier
                &&& e->UnknownModifier_name@ == name
                &&& e->UnknownModifier_spec@ == text::trim(spec)
            }
        }),
        text::trim(key).len() > 0 && is_parsed(Err(e), key) ==> {
            &&& e is UnknownKey
            &&& e->UnknownKey_name@ == text::trim(key)
            &&& e->UnknownKey_spec@ == text::trim(key)
        },
{
    text::law_split_at_every_occurrence(key, '+', key);
    text::lemma_trimmed_parts(key, '+');
    assert(text::trimmed_parts(key, '+') =~= seq![text::trim(key)]);
    assert(spec_parts(key).drop_last() =~= Seq::empty());
    assert(spec_parts(key).last() == text::trim(key));
    let spec = front.push('+') + rest;
    text::law_split_at_every_occurrence(front, '+', rest);
    text::lemma_trimmed_parts(spec, '+');
    text::lemma_split_some(rest, '+');
    let parts = spec_parts(spec);
    assert(parts[0] == text::trim(front));
    assert(parts.len() > 1);
    lemma_bare_parts_decide(spec);
    let names = parts.drop_last();
    let first = names.take(1);
    assert(first.drop_last() =~= Seq::empty());
    assert(first.last() == text::trim(front));
    assert(modifiers(first.drop_last()) == Ok::<Mods, Seq<char>>(Mods::none()));
    if modifiers(first) is Err {
        lemma_bad_modifier(names, 1);
    }
    assert(text::trim(spec).len() > 0);
}

/// Each shortcut is the one that its own setting asks for.
pub proof fn law_shortcuts_are_those_of_the_settings(b: Bindings, cfg: HotkeyConfig)
    requires
        b.follows(cfg),
    ensures
        is_parsed(Ok(b.toggle), cfg.toggle@),
        is_parsed(Ok(b.ptt), cfg.push_to_talk@),
        is_parsed(Ok(b.speak_last), cfg.speak_last@),
        is_parsed(Ok(b.stop_speaking), cfg.stop_speaking@),
{
}

} // verus!
