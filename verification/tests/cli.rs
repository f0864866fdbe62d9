use ravenvoice::audio::{MicInfo, MicKind};
use ravenvoice::cli::{
    devices_report, doctor_report, model_line, pick_display, typing_verdict, Findings,
};
use ravenvoice::config::HotkeyConfig;

fn names(v: &[&str]) -> Vec<String> {
    v.iter().map(|s| s.to_string()).collect()
}

#[test]
fn the_first_display_is_picked() {
    let all = names(&["pulse", "wayland-1.lock", "wayland-10", "wayland-1", "wayland-0.lock"]);
    assert_eq!(pick_display(&all), Some(3));
    assert_eq!(pick_display(&names(&["wayland-2", "wayland-0"])), Some(1));
    assert_eq!(pick_display(&names(&["x11", "wayland-0.lock"])), None);
    assert_eq!(pick_display(&[]), None);
}

fn mic(id: &str, name: &str, is_default: bool) -> MicInfo {
    MicInfo { id: id.into(), name: name.into(), kind: MicKind::Usb, is_default }
}

#[test]
fn devices_are_listed() {
    assert_eq!(
        devices_report(&[], &None, "/c.toml"),
        [
            "No microphones found.",
            "\nTo pin one, set `device = \"<id>\"` under [audio] in /c.toml"
        ]
    );
    assert_eq!(
        devices_report(&[mic("a", "A", true), mic("b", "B", false)], &Some("b".into()), "/c"),
        [
            "  A (USB) [system default]\n    id: a",
            "* B (USB)\n    id: b",
            "\nTo pin one, set `device = \"<id>\"` under [audio] in /c"
        ]
    );
}

#[test]
fn models_are_listed() {
    let (name, about) = ("base.en", "142 MB, fast, good for dictation");
    let have = "installed";
    assert_eq!(
        model_line(name, about, "base.en", true),
        format!("* {name:<16} {about:<40} {have}")
    );
    assert_eq!(
        model_line(name, about, "tiny", false),
        format!("  {name:<16} {about:<40} ")
    );
    let long = "a name longer than sixteen";
    assert_eq!(model_line(long, "", "", true), format!("  {long} {:<40} {have}", ""));
}

#[test]
fn the_doctor_reports_what_is_wrong() {
    let f = Findings {
        config_path: "/c.toml".into(),
        wayland: true,
        layer_shell: false,
        uinput_error: Some("denied".into()),
        keyboards: 0,
        audio_host: "Alsa".into(),
        mics: vec![mic("a", "A", true), mic("b", "B", false)],
        model_path: "/m.bin".into(),
        model_exists: false,
        tts_name: "unavailable: none".into(),
    };
    let mut keys = HotkeyConfig::default();
    keys.push_to_talk = "Hyper+T".into();
    assert_eq!(
        doctor_report(&f, &keys),
        [
            "config:  /c.toml",
            "[ok  ] Wayland session",
            "[FIX ] floating overlay (layer-shell) — built without the layer-shell feature",
            "[FIX ] typing into apps (/dev/uinput) — denied; run `imlazy setup` in the RavenVoice source folder",
            "[FIX ] global shortcuts: 0 keyboard(s) readable — add yourself to the `input` group",
            "[ok  ] audio host Alsa, 2 microphone(s)",
            "         - A (USB) [default]",
            "         - B (USB)",
            "[FIX ] Whisper model /m.bin — `ravenvoice download-model` (or it downloads on first run)",
            "[FIX ] read aloud: unavailable: none",
            "[FIX ] push to talk shortcut: unknown modifier \"hyper\" in hotkey \"Hyper+T\""
        ]
    );
}

#[test]
fn the_doctor_is_content_when_all_is_well() {
    let f = Findings {
        config_path: "/c.toml".into(),
        wayland: true,
        layer_shell: true,
        uinput_error: None,
        keyboards: 12,
        audio_host: "PulseAudio".into(),
        mics: Vec::new(),
        model_path: "/m.bin".into(),
        model_exists: true,
        tts_name: "espeak-ng (en-us)".into(),
    };
    let report = doctor_report(&f, &HotkeyConfig::default());
    assert_eq!(
        report[1..],
        [
            "[ok  ] Wayland session",
            "[ok  ] floating overlay (layer-shell)",
            "[ok  ] typing into apps (/dev/uinput)",
            "[ok  ] global shortcuts: 12 keyboard(s) readable",
            "[FIX ] audio host PulseAudio, 0 microphone(s)",
            "[ok  ] Whisper model /m.bin",
            "[ok  ] read aloud: espeak-ng (en-us)"
        ]
    );
}

#[test]
fn the_typing_test_gives_a_verdict() {
    assert_eq!(typing_verdict("Hello", "Hello", None), "OK: typing works");
    assert_eq!(
        typing_verdict("Hello", "Helo", None),
        "MISMATCH: keys were sent but did not all arrive"
    );
    assert_eq!(typing_verdict("a", "a", Some("denied")), "typer error: denied");
}
