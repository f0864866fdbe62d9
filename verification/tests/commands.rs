use ravenvoice::commands::{
    could_be_command, interpret, may_start_inline_command, normalize, Action, KeyCombo, NamedKey,
};

fn enter() -> Action {
    Action::Key(KeyCombo::plain(NamedKey::Enter))
}

#[test]
fn whole_phrase_commands() {
    assert_eq!(interpret("Scratch that.", true), vec![Action::DeleteLast]);
    assert_eq!(
        interpret(" Stop listening!", true),
        vec![Action::StopListening]
    );
    assert_eq!(
        interpret("Select all.", true),
        vec![Action::Key(KeyCombo::ctrl('a'))]
    );
}

#[test]
fn inline_new_line() {
    assert_eq!(
        interpret("Dear Sam, new line. Thanks for the notes.", true),
        vec![
            Action::Text("Dear Sam".into()),
            enter(),
            Action::Text("Thanks for the notes.".into())
        ]
    );
    assert_eq!(
        interpret("End of section. New paragraph.", true),
        vec![Action::Text("End of section.".into()), enter(), enter()]
    );
}

#[test]
fn plain_text_and_disabled() {
    assert_eq!(
        interpret("Hello world.", true),
        vec![Action::Text("Hello world.".into())]
    );
    assert_eq!(
        interpret("Scratch that.", false),
        vec![Action::Text("Scratch that.".into())]
    );
}

#[test]
fn every_spoken_command_does_its_thing() {
    let key = |k: NamedKey| Action::Key(KeyCombo::plain(k));
    let redo = Action::Key(KeyCombo { ctrl: true, shift: true, key: NamedKey::Char('z') });
    for (said, does) in [
        ("Delete that!", Action::DeleteLast),
        ("erase that", Action::DeleteLast),
        ("Stop dictation.", Action::StopListening),
        ("stop dictating", Action::StopListening),
        ("Press enter.", key(NamedKey::Enter)),
        ("press return", key(NamedKey::Enter)),
        ("press tab", key(NamedKey::Tab)),
        ("press escape", key(NamedKey::Escape)),
        ("Backspace.", key(NamedKey::Backspace)),
        ("press backspace", key(NamedKey::Backspace)),
        ("Undo", Action::Key(KeyCombo::ctrl('z'))),
        ("undo that", Action::Key(KeyCombo::ctrl('z'))),
        ("Redo.", redo.clone()),
        ("redo that", redo),
        ("copy that", Action::Key(KeyCombo::ctrl('c'))),
        ("cut that", Action::Key(KeyCombo::ctrl('x'))),
        ("Paste.", Action::Key(KeyCombo::ctrl('v'))),
        ("paste that", Action::Key(KeyCombo::ctrl('v'))),
    ] {
        assert_eq!(interpret(said, true), vec![does]);
        assert!(could_be_command(said));
        assert_eq!(interpret(said, false), vec![Action::Text(said.into())]);
    }
}

#[test]
fn commands_are_only_commands_on_their_own() {
    assert_eq!(
        interpret("Please scratch that.", true),
        vec![Action::Text("Please scratch that.".into())]
    );
    assert!(interpret("", true).is_empty());
    assert!(interpret("  \n", false).is_empty());
    assert_eq!(interpret("New line", true), vec![enter()]);
    assert_eq!(
        interpret("new paragraph new line", true),
        vec![enter(), enter(), enter()]
    );
    assert_eq!(
        interpret("a brand new lion", true),
        vec![Action::Text("a brand new lion".into())]
    );
}

#[test]
fn beginnings_of_commands_are_known() {
    assert!(could_be_command(""));
    assert!(could_be_command("Scr"));
    assert!(could_be_command("press b"));
    assert!(!could_be_command("press q"));
    assert!(!could_be_command("scratch that now"));
    assert!(may_start_inline_command("New"));
    assert!(may_start_inline_command("new,"));
    assert!(!may_start_inline_command("news"));
}

fn normalized(s: &str) -> String {
    let chars: Vec<char> = s.chars().collect();
    normalize(&chars).into_iter().collect()
}

#[test]
fn only_letters_and_digits_are_compared() {
    assert_eq!(normalized("Don't."), "dont");
    assert_eq!(normalized("  Scratch,  THAT!  "), "scratch that");
    assert_eq!(normalized("-- 'tis 2 o'clock --"), "tis 2 oclock");
    assert_eq!(normalized(" '' ... "), "");
    assert_eq!(interpret("'Select all'", true), vec![Action::Key(KeyCombo::ctrl('a'))]);
}

#[test]
fn words_end_at_any_white_space() {
    assert_eq!(normalized("scratch\u{a0}that"), "scratch that");
    assert_eq!(normalized("scratch\u{3000}\u{2003}that\u{2028}"), "scratch that");
    assert_eq!(normalized("scratch\u{85}\u{1680}\u{202f}that\u{205f}\u{2029}"), "scratch that");
    // A zero-width space is no white space.
    assert_eq!(normalized("scratch\u{200b}that"), "scratchthat");
}
