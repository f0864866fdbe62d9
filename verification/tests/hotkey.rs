use evdev::KeyCode as K;
use ravenvoice::config::HotkeyConfig;
use ravenvoice::engine::Cmd;
use ravenvoice::hotkey::{
    bind, check, current_mods, on_key, parse, read_spec, Bindings, Hotkey, HotkeyError, HotkeyEvent,
    Mods,
};
use ravenvoice::keys::{KeyCode, KEY_LEFTALT, KEY_LEFTCTRL, KEY_RIGHTCTRL};
use ravenvoice::typer::{HeldModifiers, DEVICE_NAME};

fn code(k: evdev::KeyCode) -> KeyCode {
    KeyCode(k.0)
}

#[test]
fn parses_specs() {
    let h = parse("Ctrl+Alt+D").unwrap().unwrap();
    assert_eq!(h.key, code(evdev::KeyCode::KEY_D));
    assert!(h.mods.ctrl && h.mods.alt && !h.mods.shift && !h.mods.logo);
    assert_eq!(parse("F9").unwrap().unwrap().key, code(evdev::KeyCode::KEY_F9));
    assert_eq!(
        parse("super+space").unwrap().unwrap().key,
        code(evdev::KeyCode::KEY_SPACE)
    );
    assert_eq!(
        parse("RightCtrl").unwrap().unwrap().key,
        code(evdev::KeyCode::KEY_RIGHTCTRL)
    );
    assert!(parse("").unwrap().is_none());
    assert!(parse("Hyper+Q").is_err());
    assert!(parse("Ctrl+Nope").is_err());
}

#[test]
fn every_alias_has_its_key() {
    for (spec, key) in [
        ("esc", K::KEY_ESC),
        ("Escape", K::KEY_ESC),
        ("return", K::KEY_ENTER),
        ("enter", K::KEY_ENTER),
        ("del", K::KEY_DELETE),
        ("pgup", K::KEY_PAGEUP),
        ("pgdn", K::KEY_PAGEDOWN),
        ("menu", K::KEY_COMPOSE),
        ("rctrl", K::KEY_RIGHTCTRL),
        ("rightalt", K::KEY_RIGHTALT),
        ("AltGr", K::KEY_RIGHTALT),
        ("rightshift", K::KEY_RIGHTSHIFT),
        ("rightsuper", K::KEY_RIGHTMETA),
        ("key_f12", K::KEY_F12),
        (" Win + Control + Shift + 7 ", K::KEY_7),
    ] {
        assert_eq!(parse(spec).unwrap().unwrap().key, code(key), "{spec}");
    }
    let m = parse("logo+meta+control+x").unwrap().unwrap().mods;
    assert_eq!(m, Mods { ctrl: true, alt: false, shift: false, logo: true });
}

#[test]
fn shortcuts_ignore_case() {
    for spec in ["Ctrl+Alt+D", "SUPER+Space", "RightCtrl", "KEY_F3"] {
        let a = parse(spec).unwrap();
        assert!(a.is_some());
        assert_eq!(parse(&spec.to_ascii_lowercase()).unwrap(), a);
    }
}

#[test]
fn errors_name_what_is_wrong() {
    assert_eq!(
        check(" Hyper+Q ").as_deref(),
        Some("unknown modifier \"hyper\" in hotkey \"Hyper+Q\"")
    );
    assert_eq!(
        check("Ctrl+Nope").as_deref(),
        Some("unknown key \"Nope\" in hotkey \"Ctrl+Nope\"")
    );
    assert_eq!(check("Ctrl+Alt+D"), None);
    assert_eq!(check("  "), None);
    assert!(matches!(parse("Ctrl+"), Err(HotkeyError::UnknownKey { name, .. }) if name.is_empty()));
}

#[test]
fn specs_are_taken_apart() {
    let w = read_spec("Ctrl + altgr").unwrap().unwrap();
    assert!(w.mods.ctrl);
    assert_eq!(w.name, "altgr");
    assert_eq!(w.kernel, "KEY_RIGHTALT");
    let h = bind(w, Some(100), "Ctrl + altgr").unwrap().unwrap();
    assert_eq!(h.key, KeyCode(100));
    let w = read_spec("F13x").unwrap().unwrap();
    assert_eq!(w.kernel, "KEY_F13X");
    assert!(matches!(
        bind(w, None, " F13x "),
        Err(HotkeyError::UnknownKey { name, spec }) if name == "F13x" && spec == "F13x"
    ));
}

fn bindings() -> Bindings {
    let mut cfg = HotkeyConfig::default();
    cfg.push_to_talk = "RightCtrl".into();
    Bindings::from_config(&cfg).unwrap()
}

#[test]
fn bindings_follow_the_settings() {
    let b = bindings();
    assert_eq!(
        b.keys(),
        vec![
            code(evdev::KeyCode::KEY_D),
            code(evdev::KeyCode::KEY_RIGHTCTRL),
            code(evdev::KeyCode::KEY_R),
            code(evdev::KeyCode::KEY_X)
        ]
    );
    let mut cfg = HotkeyConfig::default();
    cfg.speak_last = "Bad+R".into();
    cfg.stop_speaking = "Worse+X".into();
    assert!(matches!(
        Bindings::from_config(&cfg),
        Err(HotkeyError::UnknownModifier { name, .. }) if name == "bad"
    ));
}

#[test]
fn shortcuts_fire_with_exactly_their_modifiers() {
    let b = bindings();
    let mut held = HeldModifiers::default();
    let d = code(evdev::KeyCode::KEY_D);
    assert_eq!(on_key(&b, &mut held, 0, d, 1), None);
    // The modifiers may be held on different keyboards.
    assert_eq!(on_key(&b, &mut held, 0, KeyCode(KEY_LEFTCTRL), 1), None);
    assert_eq!(on_key(&b, &mut held, 1, KeyCode(KEY_LEFTALT), 1), None);
    assert_eq!(on_key(&b, &mut held, 0, d, 1), Some(HotkeyEvent::Toggle));
    // Held down, it repeats and fires no more.
    assert_eq!(on_key(&b, &mut held, 0, d, 2), None);
    assert_eq!(on_key(&b, &mut held, 0, d, 0), None);
    assert_eq!(
        on_key(&b, &mut held, 0, code(evdev::KeyCode::KEY_R), 1),
        Some(HotkeyEvent::SpeakLast)
    );
    assert_eq!(
        on_key(&b, &mut held, 0, code(evdev::KeyCode::KEY_X), 1),
        Some(HotkeyEvent::StopSpeaking)
    );
    assert_eq!(on_key(&b, &mut held, 2, code(evdev::KeyCode::KEY_LEFTSHIFT), 1), None);
    assert_eq!(on_key(&b, &mut held, 0, d, 1), None);
    held.forget_device(2);
    assert_eq!(on_key(&b, &mut held, 0, d, 1), Some(HotkeyEvent::Toggle));
}

#[test]
fn push_to_talk_ends_whatever_is_held() {
    let b = bindings();
    let mut held = HeldModifiers::default();
    let talk = KeyCode(KEY_RIGHTCTRL);
    // The key is a modifier itself, and does not count for itself.
    assert_eq!(on_key(&b, &mut held, 0, talk, 1), Some(HotkeyEvent::PushToTalkDown));
    assert_eq!(on_key(&b, &mut held, 0, KeyCode(KEY_LEFTALT), 1), None);
    assert_eq!(on_key(&b, &mut held, 0, talk, 0), Some(HotkeyEvent::PushToTalkUp));
    // With another modifier down it is not the shortcut.
    assert_eq!(on_key(&b, &mut held, 0, talk, 1), None);
    assert_eq!(current_mods(&held, talk), Mods { ctrl: false, alt: true, shift: false, logo: false });
    assert!(current_mods(&held, KeyCode(KEY_LEFTALT)).ctrl);
}

#[test]
fn keyboards_are_watched_but_not_our_own() {
    let b = bindings();
    assert!(b.watches(Some("AT keyboard"), &[30, 28]));
    assert!(!b.watches(Some(DEVICE_NAME), &[30, 28]));
    assert!(!b.watches(None, &[30]));
    // A device with only a bound key is watched too.
    assert!(b.watches(None, &[97]));
    let none = Bindings { toggle: None, ptt: None, speak_last: None, stop_speaking: None };
    assert!(!none.watches(None, &[97]));
    assert!(none.keys().is_empty());
}

#[test]
fn shortcuts_become_commands() {
    assert!(matches!(HotkeyEvent::Toggle.command(), Cmd::Toggle));
    assert!(matches!(HotkeyEvent::PushToTalkDown.command(), Cmd::PushToTalkDown));
    assert!(matches!(HotkeyEvent::PushToTalkUp.command(), Cmd::PushToTalkUp));
    assert!(matches!(HotkeyEvent::SpeakLast.command(), Cmd::SpeakLast));
    assert!(matches!(HotkeyEvent::StopSpeaking.command(), Cmd::StopSpeaking));
    let h = Hotkey { mods: Mods::default(), key: KeyCode(1) };
    assert!(!h.mods.ctrl);
}

#[test]
fn blanks_order_and_repetition_make_no_difference() {
    let a = parse("Ctrl+Alt+D").unwrap();
    assert!(a.is_some());
    for spec in ["  ctrl +alt+ d ", "Alt+Ctrl+D", "ALT+ctrl+Alt+CTRL+d", "ctrl\t+ alt +\td"] {
        assert_eq!(parse(spec).unwrap(), a);
    }
    assert!(parse("Alt+D").unwrap() != a);
    assert!(parse("Ctrl+Alt+E").unwrap() != a);
    for spec in ["ctrl+hyper+d", " hyper + ctrl+hyper+ D", "+d", "+"] {
        assert!(parse(spec).is_err());
    }
    for spec in ["", "  ", "\t\n"] {
        assert_eq!(parse(spec).unwrap(), None);
    }
}
