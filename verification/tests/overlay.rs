use ravenvoice::audio::{MicInfo, MicKind};
use ravenvoice::config::Config;
use ravenvoice::engine::{Cmd, UiEvent};
use ravenvoice::overlay::{
    at_top, close_button, edge_margin, font_sizes, spoken, Change, FontSizes, Overlay, Tone,
};

fn ready() -> Overlay {
    let mut ui = Overlay::new(Config::default());
    ui.handle(UiEvent::Ready { model: "base.en".into(), tts: "espeak-ng (en-us)".into() }, 0);
    ui.clear_flash();
    ui
}

fn says(ui: &Overlay, now: u64) -> (String, String, Tone) {
    let s = ui.status(now);
    (s.title, s.subtitle, s.tone)
}

fn line(title: &str, subtitle: &str, tone: Tone) -> (String, String, Tone) {
    (title.into(), subtitle.into(), tone)
}

fn changes(c: Vec<Change>) -> Vec<String> {
    c.iter().map(|c| format!("{c:?}")).collect()
}

#[test]
fn getting_ready_is_shown() {
    let mut ui = Overlay::new(Config::default());
    assert_eq!(says(&ui, 0), line("Getting ready…", "Loading speech model", Tone::Normal));
    ui.handle(UiEvent::ModelProgress(42), 0);
    assert_eq!(
        says(&ui, 0),
        line("Getting ready…", "Downloading speech model 42%", Tone::Normal)
    );
    let out = ui.handle(
        UiEvent::Ready { model: "base.en".into(), tts: "espeak-ng (en-us)".into() },
        100,
    );
    assert_eq!(changes(out), ["Info(\"Whisper base.en · voice: espeak-ng (en-us)\")"]);
    assert_eq!(says(&ui, 4099), line("RavenVoice", "Ready — Whisper base.en", Tone::Normal));
    assert_eq!(
        says(&ui, 4100),
        line("Ready to dictate", "Press Ctrl+Alt+D to start", Tone::Normal)
    );
    let out = ui.handle(UiEvent::Loading("small.en-q5_1".into()), 5000);
    assert_eq!(changes(out), ["Info(\"Loading Whisper small.en-q5_1…\")"]);
    assert_eq!(says(&ui, 5000).0, "Getting ready…");
}

#[test]
fn dictation_is_shown_as_it_goes() {
    let mut ui = ready();
    let out = ui.handle(UiEvent::Listening(true), 0);
    assert_eq!(
        changes(out),
        ["WaveActive(true)", "MicLabel(\"Stop dictation\")", "MicListening(true)"]
    );
    assert!(ui.is_listening());
    assert_eq!(says(&ui, 0), line("Opening microphone…", "One moment", Tone::Normal));
    assert_eq!(changes(ui.handle(UiEvent::MicLive, 0)), ["Announce(\"Listening\")"]);
    assert_eq!(says(&ui, 0), line("Listening…", "Press Ctrl+Alt+D to stop", Tone::Normal));
    assert_eq!(changes(ui.handle(UiEvent::Hearing(true), 0)), ["MicHearing(true)"]);
    assert_eq!(says(&ui, 0).0, "Hearing you…");
    ui.handle(UiEvent::Partial("and so".into()), 0);
    assert_eq!(says(&ui, 0), line("Hearing you…", "and so", Tone::Live));
    ui.handle(UiEvent::Hearing(false), 0);
    ui.handle(UiEvent::Transcribing(true), 0);
    ui.handle(UiEvent::Partial(String::new()), 0);
    assert_eq!(says(&ui, 0).0, "Writing…");
    ui.handle(UiEvent::Transcribing(false), 0);
    let out = ui.handle(UiEvent::Final("And so.".into()), 1000);
    assert_eq!(changes(out), ["Announce(\"And so.\")"]);
    assert_eq!(says(&ui, 5999), line("Typed", "And so.", Tone::Done));
    assert_eq!(says(&ui, 6000).0, "Listening…");
    let out = ui.handle(UiEvent::Listening(false), 2000);
    assert_eq!(
        changes(out),
        [
            "WaveActive(false)",
            "MicLabel(\"Start dictation\")",
            "MicListening(false)",
            "MicHearing(false)",
            "Announce(\"Dictation off\")"
        ]
    );
    assert_eq!(says(&ui, 2000).0, "Typed");
    assert_eq!(says(&ui, 9000).0, "Ready to dictate");
}

#[test]
fn errors_stay_until_dictation_when_nothing_works() {
    let mut ui = Overlay::new(Config::default());
    let out = ui.handle(UiEvent::Error("no model".into()), 0);
    assert_eq!(changes(out), ["Announce(\"no model\")"]);
    let fix = line("Something needs fixing", "no model", Tone::Error);
    assert_eq!(says(&ui, 1_000_000), fix);
    ui.handle(UiEvent::Notice("hello".into()), 0);
    assert_eq!(says(&ui, 0), fix);
    ui.handle(UiEvent::Listening(true), 0);
    assert_eq!(says(&ui, 0), line("RavenVoice", "hello", Tone::Normal));
    ui.handle(UiEvent::Error("lost".into()), 10);
    assert_eq!(says(&ui, 8009), line("Problem", "lost", Tone::Error));
    assert_ne!(says(&ui, 8010).0, "Problem");
}

#[test]
fn speaking_can_be_stopped() {
    let mut ui = ready();
    assert_eq!(changes(ui.handle(UiEvent::Speaking(true), 0)), ["WaveActive(true)"]);
    assert!(ui.is_speaking());
    assert_eq!(says(&ui, 0), line("Speaking…", "Press Ctrl+Alt+X to stop", Tone::Normal));
    ui.handle(UiEvent::Listening(true), 0);
    assert_eq!(changes(ui.handle(UiEvent::Speaking(false), 0)), ["WaveActive(true)"]);
    let mut cfg = Config::default();
    cfg.hotkeys.stop_speaking = String::new();
    cfg.hotkeys.enabled = false;
    let mut ui = Overlay::new(cfg);
    ui.handle(UiEvent::Ready { model: "m".into(), tts: "t".into() }, 0);
    assert_eq!(
        says(&ui, 4000),
        line("Ready to dictate", "Click the microphone to start", Tone::Normal)
    );
    ui.handle(UiEvent::Speaking(true), 0);
    assert_eq!(says(&ui, 4000).1, "Use the chevron menu to stop");
}

#[test]
fn the_bar_shrinks_and_comes_back() {
    let mut ui = ready();
    assert!(!ui.is_compact());
    assert_eq!(changes(ui.handle(UiEvent::SetVisible(Some(false)), 0)), ["Compact(true)"]);
    assert_eq!(changes(ui.handle(UiEvent::SetVisible(Some(false)), 0)), ["Compact(true)"]);
    assert_eq!(changes(ui.handle(UiEvent::SetVisible(None), 0)), ["Compact(false)"]);
    assert_eq!(changes(ui.handle(UiEvent::SetVisible(None), 0)), ["Compact(true)"]);
    assert_eq!(changes(vec![ui.set_compact(false)]), ["Compact(false)"]);
    assert_eq!(close_button(true), ("go-up-symbolic", "Show the full RavenVoice bar"));
    assert_eq!(close_button(false), ("window-close-symbolic", "Shrink to the microphone button"));
    let mut cfg = Config::default();
    cfg.overlay.visible = false;
    assert!(Overlay::new(cfg).is_compact());
}

#[test]
fn microphones_are_offered() {
    let mut ui = ready();
    let list = vec![
        MicInfo { id: "a".into(), name: "A".into(), kind: MicKind::BuiltIn, is_default: true },
        MicInfo { id: "b".into(), name: "B".into(), kind: MicKind::Usb, is_default: false },
    ];
    for (selected, index) in [(None, 0), (Some("b"), 2), (Some("a"), 1), (Some("gone"), 0)] {
        let event = UiEvent::Mics {
            list: list.clone(),
            selected: selected.map(str::to_string),
        };
        match &ui.handle(event, 0)[..] {
            [Change::Mics { names, index: i }] => {
                assert_eq!(names[..], ["System default", "A (built-in) •", "B (USB)"]);
                assert_eq!(*i, index);
            }
            _ => panic!("no list"),
        }
    }
    assert_eq!(ui.mic_at(0), None);
    assert_eq!(ui.mic_at(2).as_deref(), Some("b"));
    assert_eq!(ui.mic_at(3), None);
}

#[test]
fn levels_and_empty_texts_pass() {
    let mut ui = ready();
    let bits = 0.5f64.to_bits();
    assert_eq!(changes(ui.handle(UiEvent::Level(bits), 0)), [format!("Level({bits})")]);
    assert!(ui.handle(UiEvent::Final(String::new()), 0).is_empty());
}

#[test]
fn tooltips_hold_both_lines() {
    let ui = ready();
    assert_eq!(ui.status(0).tooltip(), "Ready to dictate\nPress Ctrl+Alt+D to start");
    let mut ui = ready();
    ui.handle(UiEvent::Notice(String::new()), 0);
    assert_eq!(ui.status(0).tooltip(), "RavenVoice");
}

#[test]
fn sizes_and_places_are_kept_within_reason() {
    assert_eq!(font_sizes(13), FontSizes { base: 13, title: 15, small: 12 });
    assert_eq!(font_sizes(0), FontSizes { base: 8, title: 10, small: 8 });
    assert_eq!(font_sizes(100), FontSizes { base: 40, title: 42, small: 39 });
    assert_eq!(edge_margin(48), 34);
    assert_eq!(edge_margin(14), 0);
    assert_eq!(edge_margin(-5), 0);
    assert!(at_top("top") && !at_top("bottom") && !at_top("Top"));
}

#[test]
fn only_text_with_something_in_it_is_read() {
    assert!(spoken(" \n").is_none());
    assert!(matches!(spoken(" hi "), Some(Cmd::Speak(t)) if t == " hi "));
}
