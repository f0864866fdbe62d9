use evdev::KeyCode as K;
use ravenvoice::commands::{interpret, Action, KeyCombo, NamedKey};
use ravenvoice::config::TypingConfig;
use ravenvoice::engine::{TypeJob, UiEvent};
use ravenvoice::keys;
use ravenvoice::typer::{
    key_for, normalize_punctuation, HeldModifiers, KeyCode, KeyEvent, Press, Stroke, Typer,
    Unmappable,
};
use ravenvoice::typist::{Gate, Typist};

fn code(k: evdev::KeyCode) -> KeyCode {
    KeyCode(k.0)
}

#[test]
fn maps_ascii_printables() {
    for c in (' '..='~').chain(['\n', '\t']) {
        assert!(key_for(c).is_some(), "{c:?} has no key");
    }
    assert_eq!(key_for('Q'), Some((code(evdev::KeyCode::KEY_Q), true)));
    assert_eq!(key_for('é'), None);
}

#[test]
fn normalizes_smart_punctuation() {
    assert_eq!(
        normalize_punctuation("It\u{2019}s \u{201C}ok\u{201D}\u{2026}"),
        "It's \"ok\"..."
    );
}

#[test]
fn punctuation_is_replaced_character_by_character() {
    assert_eq!(normalize_punctuation("a\u{2013}b \u{2014} c\u{a0}d"), "a-b - c d");
    let once = normalize_punctuation("\u{2018}x\u{2019}\u{2026}");
    assert_eq!(normalize_punctuation(&once), once);
}

#[test]
fn key_codes_are_the_kernels() {
    for (ours, theirs) in [
        (keys::KEY_ESC, K::KEY_ESC),
        (keys::KEY_MINUS, K::KEY_MINUS),
        (keys::KEY_EQUAL, K::KEY_EQUAL),
        (keys::KEY_BACKSPACE, K::KEY_BACKSPACE),
        (keys::KEY_TAB, K::KEY_TAB),
        (keys::KEY_LEFTBRACE, K::KEY_LEFTBRACE),
        (keys::KEY_RIGHTBRACE, K::KEY_RIGHTBRACE),
        (keys::KEY_ENTER, K::KEY_ENTER),
        (keys::KEY_LEFTCTRL, K::KEY_LEFTCTRL),
        (keys::KEY_A, K::KEY_A),
        (keys::KEY_SEMICOLON, K::KEY_SEMICOLON),
        (keys::KEY_APOSTROPHE, K::KEY_APOSTROPHE),
        (keys::KEY_GRAVE, K::KEY_GRAVE),
        (keys::KEY_LEFTSHIFT, K::KEY_LEFTSHIFT),
        (keys::KEY_BACKSLASH, K::KEY_BACKSLASH),
        (keys::KEY_COMMA, K::KEY_COMMA),
        (keys::KEY_DOT, K::KEY_DOT),
        (keys::KEY_SLASH, K::KEY_SLASH),
        (keys::KEY_RIGHTSHIFT, K::KEY_RIGHTSHIFT),
        (keys::KEY_LEFTALT, K::KEY_LEFTALT),
        (keys::KEY_SPACE, K::KEY_SPACE),
        (keys::KEY_RIGHTCTRL, K::KEY_RIGHTCTRL),
        (keys::KEY_RIGHTALT, K::KEY_RIGHTALT),
        (keys::KEY_LEFTMETA, K::KEY_LEFTMETA),
        (keys::KEY_RIGHTMETA, K::KEY_RIGHTMETA),
    ] {
        assert_eq!(ours, theirs.0);
    }
    for c in ('a'..='z').chain('0'..='9') {
        let name = format!("KEY_{}", c.to_ascii_uppercase());
        let theirs: K = name.parse().unwrap();
        assert_eq!(key_for(c), Some((code(theirs), false)));
    }
    for (shifted, plain) in "!@#$%^&*()".chars().zip("1234567890".chars()) {
        assert_eq!(key_for(shifted).unwrap(), (key_for(plain).unwrap().0, true));
    }
    for (shifted, plain) in "_+{}:\"~|<>?".chars().zip("-=[];'`\\,./".chars()) {
        assert_eq!(key_for(shifted).unwrap(), (key_for(plain).unwrap().0, true));
    }
}

fn text(t: &str) -> Action {
    Action::Text(t.into())
}

/// What a field shows after the strokes: backspaces erase, everything else adds a character.
fn shown(field: &str, strokes: &[Stroke]) -> String {
    let mut out: Vec<char> = field.chars().collect();
    for s in strokes {
        match s {
            Stroke::Char(c) | Stroke::Unicode(c) => out.push(*c),
            Stroke::Combo(k) => match k.key {
                NamedKey::Backspace => {
                    out.pop();
                }
                NamedKey::Enter => out.push('\n'),
                NamedKey::Tab => out.push('\t'),
                _ => {}
            },
        }
    }
    out.into_iter().collect()
}

fn typer() -> Typer {
    Typer::new(&TypingConfig::default())
}

#[test]
fn phrases_are_joined_by_a_space() {
    let mut t = typer();
    let mut field = String::new();
    for (phrase, now) in [
        ("Hello", "Hello"),
        (", world", "Hello, world"),
        ("again", "Hello, world again"),
        ("!", "Hello, world again!"),
    ] {
        let (s, r) = t.perform(&[text(phrase)]);
        assert_eq!(r, Ok(()));
        field = shown(&field, &s);
        assert_eq!(field, now);
    }
    t.reset();
    let (s, _) = t.perform(&[text("fresh")]);
    assert_eq!(shown("", &s), "fresh");
}

#[test]
fn live_words_are_corrected_from_the_first_difference() {
    let mut t = typer();
    let mut field = shown("", &t.stream(1, "hello"));
    field = shown(&field, &t.stream(1, "hello wrld"));
    assert_eq!(field, "hello wrld");
    let (s, r) = t.finish(1, &[text("hello world.")]);
    assert_eq!(r, Ok(()));
    let erased = s
        .iter()
        .filter(|s| matches!(s, Stroke::Combo(k) if k.key == NamedKey::Backspace))
        .count();
    assert_eq!(erased, 3);
    assert_eq!(shown(&field, &s), "hello world.");
}

#[test]
fn revised_words_wait_for_the_final_transcript() {
    let mut t = typer();
    let field = shown("", &t.stream(1, "my fellow"));
    assert!(t.stream(1, "my yellow friend").is_empty());
    let (s, _) = t.finish(1, &[text("Quite another")]);
    assert_eq!(shown(&field, &s), "Quite another");
}

#[test]
fn empty_phrases_are_taken_back() {
    let mut t = typer();
    let (s, _) = t.perform(&[text("Kept.")]);
    let field = shown("", &s);
    let field = shown(&field, &t.stream(2, "noise here"));
    assert_eq!(field, "Kept. noise here");
    let (s, _) = t.finish(2, &[]);
    assert_eq!(shown(&field, &s), "Kept.");
}

#[test]
fn scratch_that_erases_the_last_phrase() {
    let mut t = typer();
    let (s, _) = t.perform(&[text("One.")]);
    let mut field = shown("", &s);
    let (s, _) = t.perform(&[text("Two.")]);
    field = shown(&field, &s);
    assert_eq!(field, "One. Two.");
    let (s, _) = t.perform(&[Action::DeleteLast]);
    field = shown(&field, &s);
    assert_eq!(field, "One.");
    // Only once: what came before is no longer known.
    let (s, _) = t.perform(&[Action::DeleteLast]);
    assert!(s.is_empty());
}

#[test]
fn scratch_that_takes_back_its_own_live_words() {
    let mut t = typer();
    let (s, _) = t.perform(&[text("Keep this.")]);
    let mut field = shown("", &s);
    field = shown(&field, &t.stream(5, "scratch"));
    let (s, _) = t.finish(5, &[Action::DeleteLast]);
    field = shown(&field, &s);
    assert_eq!(field, "");
}

#[test]
fn characters_without_a_key_are_skipped_or_entered() {
    let mut t = typer();
    let (s, _) = t.perform(&[text("caf\u{e9}")]);
    assert_eq!(shown("", &s), "caf");
    let mut cfg = TypingConfig::default();
    cfg.unicode_fallback = "ctrl-shift-u".into();
    let mut t = Typer::new(&cfg);
    let (s, _) = t.perform(&[text("\u{e9}")]);
    assert_eq!(s, vec![Stroke::Unicode('\u{e9}')]);
    let presses = s[0].presses().unwrap();
    let press = |c: char, shift: bool, ctrl: bool| Press { key: key_for(c).unwrap().0, shift, ctrl };
    assert_eq!(
        presses,
        vec![
            press('u', true, true),
            press('e', false, false),
            press('9', false, false),
            press(' ', false, false)
        ]
    );
}

#[test]
fn shortcuts_press_modifiers_around_the_key() {
    let redo = Stroke::Combo(KeyCombo { ctrl: true, shift: true, key: NamedKey::Char('z') });
    let presses = redo.presses().unwrap();
    let z = key_for('z').unwrap().0.0;
    let ev = |code: u16, value: i32| KeyEvent { code, value };
    assert_eq!(
        presses[0].events(),
        vec![
            ev(keys::KEY_LEFTCTRL, 1),
            ev(keys::KEY_LEFTSHIFT, 1),
            ev(z, 1),
            ev(z, 0),
            ev(keys::KEY_LEFTSHIFT, 0),
            ev(keys::KEY_LEFTCTRL, 0)
        ]
    );
    assert_eq!(Stroke::Combo(KeyCombo::ctrl('\u{e9}')).presses(), None);
}

#[test]
fn unmappable_shortcuts_fail() {
    let mut t = typer();
    let (s, r) = t.perform(&[text("a"), Action::Key(KeyCombo::ctrl('\u{e9}')), text("b")]);
    assert_eq!(s, vec![Stroke::Char('a')]);
    assert_eq!(r, Err(Unmappable('\u{e9}')));
}

#[test]
fn held_modifiers_are_counted_per_keyboard() {
    let mut held = HeldModifiers::default();
    assert!(!held.any());
    held.set(0, 29, true);
    held.set(1, 29, true);
    held.set(0, 29, true);
    assert_eq!(held.codes(), vec![29, 29]);
    held.set(0, 29, false);
    assert!(held.any());
    held.set(1, 42, true);
    held.forget_device(1);
    assert!(!held.any());
    held.set(3, 42, false);
    assert!(held.codes().is_empty());
}

#[test]
fn the_typist_opens_the_keyboard_when_needed() {
    let mut t = Typist::new(TypingConfig::default());
    assert_eq!(t.gate(), Gate::Unopened);
    assert!(matches!(t.opened(Err("no device".into())), Some(UiEvent::Error(e)) if e == "no device"));
    // It is said only once.
    assert!(t.opened(Err("no device".into())).is_none());
    assert!(t.opened(Ok(())).is_none());
    assert_eq!(t.gate(), Gate::Open);
    let (s, e) = t.work(TypeJob::Stream(1, "hi".into()));
    assert_eq!(s, vec![Stroke::Char('h'), Stroke::Char('i')]);
    assert!(e.is_none());
    let (s, e) = t.work(TypeJob::Final(1, vec![text("hi there")]));
    assert_eq!(shown("hi", &s), "hi there");
    assert!(e.is_none());
    let (s, e) = t.work(TypeJob::Final(2, vec![Action::Key(KeyCombo::ctrl('\u{e9}'))]));
    assert!(s.is_empty());
    assert!(
        matches!(e, Some(UiEvent::Error(e)) if e == "Typing failed: unmappable shortcut key")
    );
    assert_eq!(t.gate(), Gate::Unopened);
    t.opened(Ok(()));
    let (s, _) = t.work(TypeJob::Reset);
    assert!(s.is_empty());
    assert!(matches!(t.failed("gone"), UiEvent::Error(e) if e == "Typing failed: gone"));
    assert_eq!(t.gate(), Gate::Unopened);
}

#[test]
fn nothing_is_typed_when_typing_is_off() {
    let mut cfg = TypingConfig::default();
    cfg.enabled = false;
    assert_eq!(Typist::new(cfg).gate(), Gate::Closed);
}

#[test]
fn every_stroke_has_presses() {
    let mut cfg = TypingConfig::default();
    cfg.unicode_fallback = "ctrl-shift-u".into();
    let mut t = Typer::new(&cfg);
    let mut all = t.stream(1, "caf\u{e9} \u{1f600} ok");
    let (more, _) = t.finish(1, &[
        text("caf\u{e9}s \u{2014} done"),
        Action::Key(KeyCombo::plain(NamedKey::Enter)),
        Action::Key(KeyCombo::ctrl('z')),
    ]);
    all.extend(more);
    assert!(!all.is_empty());
    for s in all {
        assert!(s.presses().is_some_and(|p| !p.is_empty()));
    }
}

#[test]
fn a_dictated_sentence_can_be_scratched() {
    let mut t = typer();
    let (s, _) = t.perform(&interpret("Before.", true));
    let before = shown("", &s);
    let (s, _) = t.perform(&interpret("Dear Sam, new line. Thanks \u{2026} all.", true));
    let field = shown(&before, &s);
    assert_eq!(field, "Before. Dear Sam\nThanks ... all.");
    let (s, _) = t.perform(&interpret("Scratch that.", true));
    assert_eq!(shown(&field, &s), before);
}

#[test]
fn a_word_that_grows_is_typed_without_a_gap() {
    let mut t = typer();
    let a = t.stream(1, "And so");
    let b = t.stream(1, "And some");
    assert_eq!(b, vec![Stroke::Char('m'), Stroke::Char('e')]);
    let field = shown(&shown("", &a), &b);
    assert_eq!(field, "And some");
    let c = t.stream(1, "And some people");
    let field = shown(&field, &c);
    assert_eq!(field, "And some people");
    let (d, r) = t.finish(1, &[text("And some people came")]);
    assert_eq!(r, Ok(()));
    assert_eq!(shown(&field, &d), "And some people came");
}

#[test]
fn only_the_start_of_a_live_phrase_is_joined() {
    let mut t = typer();
    let (a, _) = t.perform(&[text("One.")]);
    let field = shown("", &a);
    let b = t.stream(2, "And");
    let field = shown(&field, &b);
    assert_eq!(field, "One. And");
    let c = t.stream(2, "Andy left");
    let field = shown(&field, &c);
    assert_eq!(field, "One. Andy left");
    let (d, _) = t.finish(2, &[Action::DeleteLast]);
    assert_eq!(shown(&field, &d), "");
}
