use ravenvoice::config::{Config, TypingConfig};
use ravenvoice::live::LiveWords;
use ravenvoice::typer::{Stroke, Typer};

/// Feed successive partial transcripts; collect what would be typed.
fn stream(partials: &[&str]) -> Vec<String> {
    let cfg = Config::default();
    let mut live = LiveWords::default();
    partials
        .iter()
        .filter_map(|p| live.update(1, p, &cfg))
        .collect()
}

#[test]
fn types_words_once_two_transcripts_agree() {
    assert_eq!(
        stream(&[
            "And so",
            "And so my fellow",
            "And so my fellow Americans ask"
        ]),
        vec!["And so".to_string(), "And so my fellow".to_string()]
    );
}

#[test]
fn never_types_the_newest_word() {
    assert!(stream(&["Hello", "Hello"]).is_empty());
}

#[test]
fn waits_on_possible_commands() {
    assert!(stream(&["Scratch that", "Scratch that"]).is_empty());
    assert_eq!(
        stream(&["Dear Sam, new line", "Dear Sam, new line thanks"]),
        vec!["Dear Sam,".to_string()]
    );
}

#[test]
fn ignores_revisions_of_settled_words() {
    // "fellow" became "yellow": nothing already typed is retracted live.
    assert_eq!(
        stream(&[
            "my fellow Americans",
            "my fellow Americans ask",
            "my yellow Americans ask not"
        ]),
        vec!["my fellow Americans".to_string()]
    );
}

#[test]
fn agreement_ignores_case_and_punctuation() {
    // The wording of the newer transcript counts.
    assert_eq!(
        stream(&["well Then", "Well, then we", "Well, then we go"]),
        vec!["Well, then".to_string(), "Well, then we".to_string()]
    );
}

#[test]
fn each_phrase_starts_afresh() {
    let cfg = Config::default();
    let mut live = LiveWords::default();
    assert_eq!(live.update(1, "one two three", &cfg), None);
    assert_eq!(live.update(2, "one two three", &cfg), None);
    assert_eq!(
        live.update(2, "one two three four", &cfg).as_deref(),
        Some("one two three")
    );
    // Going back to a number is a new phrase too.
    assert_eq!(live.update(1, "one two three four", &cfg), None);
}

#[test]
fn commands_off_types_them_like_words() {
    let mut cfg = Config::default();
    cfg.typing.voice_commands = false;
    let mut live = LiveWords::default();
    assert_eq!(live.update(7, "scratch that new line", &cfg), None);
    assert_eq!(
        live.update(7, "scratch that new line now", &cfg).as_deref(),
        Some("scratch that new line")
    );
}

#[test]
fn settled_text_only_grows() {
    let cfg = Config::default();
    let mut live = LiveWords::default();
    let mut settled = String::new();
    for heard in ["a b", "a b c", "a x c d", "a b c d e", "a b c d e f"] {
        if let Some(s) = live.update(3, heard, &cfg) {
            assert!(s.starts_with(&settled) && s.len() > settled.len());
            settled = s;
        }
    }
    assert_eq!(settled, "a b c d e");
}

#[test]
fn settled_words_reach_the_field_as_they_are() {
    let partials = ["And so", "And so my", "And some people", "And some people came"];
    let settled = stream(&partials);
    assert_eq!(settled, vec!["And so".to_string(), "And some people".to_string()]);
    let mut typer = Typer::new(&TypingConfig::default());
    let mut field = String::new();
    for s in &settled {
        for stroke in typer.stream(1, s) {
            if let Stroke::Char(c) = stroke {
                field.push(c);
            }
        }
        assert_eq!(&field, s);
    }
}
