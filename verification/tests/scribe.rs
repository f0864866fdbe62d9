use ravenvoice::commands::{Action, KeyCombo, NamedKey};
use ravenvoice::config::{Accuracy, Config};
use ravenvoice::engine::{describe, typed_text, Shared, UiEvent};
use ravenvoice::scribe::{Scribe, SttEffect};

fn said(effects: Vec<SttEffect>) -> Vec<String> {
    effects.iter().map(|e| format!("{e:?}")).collect()
}

#[test]
fn a_finished_phrase_is_typed_shown_and_remembered() {
    let mut s = Scribe::new(Config::default());
    assert_eq!(
        said(s.conclude(1, Ok("Hello world.".into()), 0)),
        [
            "Ui(Transcribing(false))",
            "Remember(\"Hello world.\")",
            "Ui(Final(\"Hello world.\"))",
            "Type(Final(1, [Text(\"Hello world.\")]))"
        ]
    );
    assert_eq!(s.context(), " Hello world.");
    s.conclude(2, Ok("Dear Sam, new line. Thanks.".into()), 1);
    assert_eq!(s.context(), " Hello world. Dear Sam Thanks.");
}

#[test]
fn phrases_still_waiting_keep_the_overlay_busy() {
    let mut s = Scribe::new(Config::default());
    assert_eq!(
        said(s.conclude(1, Err("no inference".into()), 2)),
        ["Ui(Error(\"no inference\"))"]
    );
    assert_eq!(
        said(s.conclude(2, Err("no inference".into()), 0)),
        ["Ui(Transcribing(false))", "Ui(Error(\"no inference\"))"]
    );
    assert_eq!(s.context(), "");
}

#[test]
fn an_empty_phrase_takes_live_words_back() {
    let mut s = Scribe::new(Config::default());
    assert_eq!(
        said(s.conclude(4, Ok(String::new()), 1)),
        ["Type(Final(4, []))", "Ui(Partial(\"\"))"]
    );
}

#[test]
fn stop_listening_stops_and_types_nothing() {
    let mut s = Scribe::new(Config::default());
    assert_eq!(
        said(s.conclude(1, Ok("Stop listening.".into()), 1)),
        [
            "Type(Final(1, []))",
            "Send(Stop)",
            "Ui(Final(\"Stopped listening\"))"
        ]
    );
    assert_eq!(s.context(), "");
}

#[test]
fn commands_leave_the_last_text_alone() {
    let mut s = Scribe::new(Config::default());
    let out = s.conclude(1, Ok("Undo.".into()), 1);
    assert!(!out.iter().any(|e| matches!(e, SttEffect::Remember(_))));
    assert!(matches!(&out[0], SttEffect::Ui(UiEvent::Final(t)) if t == "Ctrl+Z"));
}

#[test]
fn dictation_is_echoed_when_asked() {
    let mut cfg = Config::default();
    cfg.tts.echo_dictation = true;
    cfg.stt.use_context = false;
    let mut s = Scribe::new(cfg);
    let out = said(s.conclude(1, Ok("Hi".into()), 1));
    assert_eq!(out[..2], ["Remember(\"Hi\")", "Send(Speak(\"Hi\"))"]);
    assert_eq!(s.context(), "");
}

#[test]
fn previews_are_typed_and_shown() {
    let mut s = Scribe::new(Config::default());
    assert!(s.preview(1, None).is_empty());
    assert!(s.preview(1, Some(String::new())).is_empty());
    assert_eq!(said(s.preview(1, Some("And so".into()))), ["Ui(Partial(\"And so\"))"]);
    assert_eq!(
        said(s.preview(1, Some("And so my".into()))),
        ["Type(Stream(1, \"And so\"))", "Ui(Partial(\"And so my\"))"]
    );
    let mut cfg = Config::default();
    cfg.typing.realtime = false;
    cfg.stt.live_preview = false;
    let mut s = Scribe::new(cfg);
    s.preview(1, Some("And so".into()));
    assert!(s.preview(1, Some("And so my".into())).is_empty());
}

#[test]
fn stale_previews_are_not_wanted() {
    let mut s = Scribe::new(Config::default());
    assert!(s.wants_preview(1, false));
    assert!(!s.wants_preview(1, true));
    s.conclude(3, Ok("x".into()), 0);
    assert!(!s.wants_preview(2, false));
    assert!(!s.wants_preview(3, false));
    assert!(s.wants_preview(4, false));
}

#[test]
fn models_are_fetched_when_missing() {
    let mut cfg = Config::default();
    let mut s = Scribe::new(cfg.clone());
    assert!(s.must_download(true, false));
    assert!(!s.must_download(true, true));
    assert!(matches!(
        s.download_notice(true),
        UiEvent::Notice(t) if t == "Downloading the base.en speech model (one time)…"
    ));
    assert!(matches!(
        Scribe::download_failed("offline"),
        UiEvent::Error(t) if t == "Model download failed: offline"
    ));
    s.set_accuracy(Accuracy::Accurate);
    assert!(matches!(s.loading(), UiEvent::Loading(m) if m == "small.en-q5_1"));
    assert!(matches!(
        s.ready("espeak-ng (en-us)".into()),
        UiEvent::Ready { model, tts } if model == "small.en-q5_1" && tts == "espeak-ng (en-us)"
    ));
    cfg.stt.model_path = Some("/m.bin".into());
    let mut s = Scribe::new(cfg.clone());
    assert!(!s.must_download(true, false));
    s.set_accuracy(Accuracy::Accurate);
    assert!(!s.must_download(true, false));
    assert!(s.must_download(false, false));
    cfg.stt.model_path = None;
    cfg.stt.auto_download = false;
    assert!(!Scribe::new(cfg).must_download(true, false));
}

#[test]
fn actions_are_described() {
    let key = |k: KeyCombo| Action::Key(k);
    let all = [
        Action::Text("Dear Sam".into()),
        key(KeyCombo::plain(NamedKey::Enter)),
        key(KeyCombo { ctrl: true, shift: false, key: NamedKey::Enter }),
        key(KeyCombo::plain(NamedKey::Tab)),
        key(KeyCombo::plain(NamedKey::Escape)),
        key(KeyCombo::plain(NamedKey::Backspace)),
        key(KeyCombo::ctrl('a')),
        key(KeyCombo::plain(NamedKey::Char('\''))),
        Action::DeleteLast,
        Action::StopListening,
    ];
    assert_eq!(
        describe(&all),
        "Dear Sam ↵ Enter Tab Escape Backspace Ctrl+A Char('\\'') ⌫ deleted last phrase stopped"
    );
    assert_eq!(typed_text(&all), "Dear Sam");
    assert_eq!(describe(&[]), "");
    // The name of a key is the one that it is printed with.
    assert_eq!(format!("{:?}", NamedKey::Char('\'')), "Char('\\'')");
    assert_eq!(format!("{:?}", NamedKey::Escape), "Escape");
}

#[test]
fn shared_state_starts_idle() {
    let s = Shared::default();
    assert!(!s.listening && !s.speaking && s.last_text.is_empty());
}
