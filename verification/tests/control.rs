use ravenvoice::audio::{MicInfo, MicKind};
use ravenvoice::config::{Accuracy, Config};
use ravenvoice::control::{Control, Effect, OpenMic};
use ravenvoice::engine::{Cmd, SttJob, UiEvent};
use ravenvoice::vad::VadEvent;

fn seen(effects: Vec<Effect>) -> Vec<String> {
    effects.iter().map(|e| format!("{e:?}")).collect()
}

fn mic(id: &str, is_default: bool) -> MicInfo {
    MicInfo { id: id.into(), name: id.to_uppercase(), kind: MicKind::Usb, is_default }
}

fn open(id: &str) -> Result<OpenMic, String> {
    Ok(OpenMic { id: id.into(), name: id.to_uppercase() })
}

const STOP: [&str; 7] = [
    "Pause",
    "TakeQueued",
    "CloseEar",
    "SetListening(false)",
    "Ui(Listening(false))",
    "Ui(Hearing(false))",
    "Ui(Level(0))",
];

/// Dictating on the system default.
fn dictating() -> Control {
    let mut c = Control::new(Config::default());
    c.command(Cmd::Start, false, "");
    c.opened(open("a"));
    c.resumed(Ok(()));
    c
}

#[test]
fn toggling_starts_and_stops() {
    let mut c = Control::new(Config::default());
    assert_eq!(
        seen(c.command(Cmd::Toggle, false, "")),
        ["ResetTyping", "FreshEar", "Discard", "Open(None)"]
    );
    assert_eq!(seen(c.opened(open("a"))), ["Resume"]);
    assert_eq!(
        seen(c.resumed(Ok(()))),
        ["SetListening(true)", "Ui(Listening(true))"]
    );
    // Starting again changes nothing.
    assert!(c.command(Cmd::Start, false, "").is_empty());
    assert_eq!(seen(c.command(Cmd::Toggle, false, "")), STOP);
    // The microphone is still open.
    assert_eq!(
        seen(c.command(Cmd::Toggle, false, "")),
        ["ResetTyping", "FreshEar", "Discard", "Resume"]
    );
}

#[test]
fn stopping_when_off_only_says_so() {
    let mut c = Control::new(Config::default());
    assert_eq!(seen(c.command(Cmd::Stop, false, "")), STOP[3..]);
}

#[test]
fn a_broken_microphone_is_opened_anew() {
    let mut c = dictating();
    c.command(Cmd::Stop, false, "");
    assert_eq!(
        seen(c.command(Cmd::Start, true, "")),
        ["ResetTyping", "FreshEar", "Discard", "Open(None)"]
    );
}

#[test]
fn failing_to_open_is_reported() {
    let mut c = Control::new(Config::default());
    c.command(Cmd::PushToTalkDown, false, "");
    assert_eq!(
        seen(c.opened(Err("no microphone found".into()))),
        ["Ui(Error(\"Could not open the microphone: no microphone found\"))"]
    );
    // Push-to-talk is over.
    assert!(c.command(Cmd::PushToTalkUp, false, "").is_empty());
    c.command(Cmd::Start, false, "");
    c.opened(open("a"));
    assert_eq!(
        seen(c.resumed(Err("busy".into()))),
        ["Ui(Error(\"Could not open the microphone: busy\"))"]
    );
}

#[test]
fn push_to_talk_holds_and_lets_go() {
    let mut c = Control::new(Config::default());
    c.command(Cmd::PushToTalkDown, false, "");
    c.opened(open("a"));
    c.resumed(Ok(()));
    assert_eq!(seen(c.command(Cmd::PushToTalkUp, false, "")), STOP);
    // Dictation turned on otherwise is left alone.
    let mut c = dictating();
    assert!(c.command(Cmd::PushToTalkDown, false, "").is_empty());
    assert!(c.command(Cmd::PushToTalkUp, false, "").is_empty());
}

#[test]
fn warming_up_pauses_again() {
    let mut c = Control::new(Config::default());
    assert_eq!(seen(c.prewarm(false)), ["Open(None)"]);
    c.opened(open("a"));
    assert_eq!(seen(c.resumed(Ok(()))), ["Pause", "Discard"]);
    assert_eq!(seen(c.prewarm(false)), ["Resume"]);
    assert_eq!(seen(c.resumed(Err("x".into()))), ["Discard"]);
    let mut c = Control::new(Config::default());
    c.prewarm(false);
    assert_eq!(seen(c.opened(Err("x".into()))), ["Discard"]);
}

#[test]
fn choosing_a_microphone_saves_and_switches() {
    let mut c = dictating();
    let out = seen(c.command(Cmd::SelectDevice(Some("b".into())), false, ""));
    assert_eq!(out[0], "Save");
    assert_eq!(out[1..8], STOP);
    assert_eq!(
        out[8..],
        [
            "Close",
            "ResetTyping",
            "FreshEar",
            "Discard",
            "Open(Some(\"b\"))",
            "Ui(Mics { list: [], selected: Some(\"b\") })"
        ]
    );
    assert_eq!(c.settings().audio.device.as_deref(), Some("b"));
    let mut c = Control::new(Config::default());
    assert_eq!(
        seen(c.command(Cmd::SelectDevice(Some("b".into())), false, ""))[1..3],
        ["Close", "Open(Some(\"b\"))"]
    );
}

#[test]
fn an_unplugged_microphone_is_replaced() {
    let mut c = dictating();
    assert!(c.check_stream(false).is_empty());
    let out = seen(c.check_stream(true));
    assert_eq!(
        out,
        [
            "Close",
            "Ui(Notice(\"A disconnected — switching to the system default microphone\"))",
            "TakeQueued",
            "CloseEar",
            "SetListening(false)",
            "Ui(Listening(false))",
            "Ui(Hearing(false))",
            "Ui(Level(0))",
            "Close",
            "ResetTyping",
            "FreshEar",
            "Discard",
            "Open(None)"
        ]
    );
    c.opened(open("c"));
    assert_eq!(
        seen(c.resumed(Ok(()))),
        ["SetListening(true)", "Ui(Listening(true))"]
    );
    // Idle, it is only closed.
    c.command(Cmd::Stop, false, "");
    assert_eq!(seen(c.check_stream(true)), ["Close"]);
    assert!(c.check_stream(true).is_empty());
}

#[test]
fn the_chosen_microphone_is_taken_back() {
    let mut cfg = Config::default();
    cfg.audio.device = Some("b".into());
    let mut c = Control::new(cfg);
    c.refresh_mics(vec![mic("a", true)], false);
    c.command(Cmd::Start, false, "");
    c.opened(open("a"));
    c.resumed(Ok(()));
    c.check_stream(true);
    c.opened(open("a"));
    c.resumed(Ok(()));
    let out = seen(c.refresh_mics(vec![mic("a", true), mic("b", false)], true));
    assert_eq!(out[0], "Ui(Notice(\"Microphone connected: B (USB)\"))");
    assert!(out[1].starts_with("Ui(Mics {"));
    assert_eq!(out[2..9], STOP);
    assert_eq!(out[out.len() - 1], "Open(Some(\"b\"))");
    // The same list again is no news.
    assert!(c.refresh_mics(vec![mic("a", true), mic("b", false)], true).is_empty());
}

#[test]
fn the_system_default_is_followed() {
    let mut c = dictating();
    let out = seen(c.refresh_mics(vec![mic("headset", true), mic("a", false)], false));
    assert!(out[0].starts_with("Ui(Mics {"));
    assert_eq!(out[out.len() - 1], "Open(None)");
    let mut c = dictating();
    let out = seen(c.refresh_mics(vec![mic("a", true), mic("b", false)], true));
    assert_eq!(out.len(), 3);
}

#[test]
fn speaking_silences_first() {
    let mut c = Control::new(Config::default());
    assert_eq!(
        seen(c.command(Cmd::Speak("hi".into()), false, "")),
        ["Silence", "Speak(\"hi\")"]
    );
    assert_eq!(
        seen(c.command(Cmd::SpeakLast, false, "last words")),
        ["Silence", "Speak(\"last words\")"]
    );
    assert_eq!(
        seen(c.command(Cmd::SpeakLast, false, "")),
        ["Silence", "Speak(\"Nothing has been dictated yet.\")"]
    );
    assert_eq!(seen(c.command(Cmd::StopSpeaking, false, "")), ["Silence"]);
}

#[test]
fn accuracy_is_saved_and_switched() {
    let mut c = Control::new(Config::default());
    assert_eq!(
        seen(c.command(Cmd::SetAccuracy(Accuracy::Accurate), false, "")),
        ["Save", "Models(Accurate)"]
    );
    assert_eq!(Accuracy::of(&c.settings().stt), Accuracy::Accurate);
}

#[test]
fn audio_is_heeded_while_dictating() {
    let mut c = Control::new(Config::default());
    let s = c.audio(false, 1000);
    assert!(!s.live && !s.feed && !s.level);
    let mut c = dictating();
    let s = c.audio(false, 49);
    assert!(s.live && s.feed && !s.level);
    let s = c.audio(false, 50);
    assert!(!s.live && s.feed && s.level);
    // Our own voice is not transcribed.
    let s = c.audio(true, 50);
    assert!(!s.live && !s.feed && !s.level);
}

#[test]
fn phrases_are_numbered() {
    let mut c = dictating();
    let (ui, job) = c.heard(VadEvent::<u8>::SpeechStarted);
    assert!(matches!(ui[..], [UiEvent::Hearing(true)]) && job.is_none());
    let (ui, job) = c.heard(VadEvent::Partial(vec![1u8]));
    assert!(ui.is_empty());
    assert!(matches!(job, Some(SttJob::Partial(1, clip)) if clip == [1]));
    let (ui, job) = c.heard(VadEvent::Phrase(vec![1u8, 2]));
    assert!(matches!(ui[..], [UiEvent::Hearing(false), UiEvent::Transcribing(true)]));
    assert!(matches!(job, Some(SttJob::Final(1, clip)) if clip == [1, 2]));
    c.heard(VadEvent::<u8>::SpeechStarted);
    let (_, job) = c.heard(VadEvent::Phrase(vec![3u8]));
    assert!(matches!(job, Some(SttJob::Final(2, _))));
    let mut cfg = Config::default();
    cfg.typing.enabled = false;
    cfg.stt.live_preview = false;
    let (_, job) = Control::new(cfg).heard(VadEvent::Partial(vec![1u8]));
    assert!(job.is_none());
}
