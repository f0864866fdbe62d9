use ravenvoice::config::{config_dir, config_path, data_dir, file_text, Config};
use ravenvoice::desktop::{is_hex, path, Appearance, Desktop, ThemeMode, DEFAULT_ACCENT};
use ravenvoice::model::{
    check_download, check_name, missing_model, models_dir, part_path, path_for, url_for,
    KNOWN_MODELS,
};
use ravenvoice::paths::join_path;

/// The desktop settings of a TOML text.
fn desktop(text: &str) -> Desktop {
    let table: toml::Table = toml::from_str(text).unwrap();
    let entry = |key: &str| table.get("appearance").and_then(|a| a.get(key)).cloned();
    Desktop {
        appearance: Appearance::with(
            entry("theme_mode").and_then(|v| ThemeMode::named(v.as_str().unwrap())),
            entry("accent").map(|v| v.as_str().unwrap().to_string()),
            entry("transparency").map(|v| v.as_bool().unwrap()),
        ),
    }
}

#[test]
fn a_bad_accent_falls_back() {
    let d: Desktop = desktop("[appearance]\naccent = \"red\"\n");
    assert_eq!(d.accent(), DEFAULT_ACCENT);
    let d: Desktop = desktop(
        "[appearance]\naccent = \"#F7768E\"\ntheme_mode = \"light\"\ntransparency = false\n",
    );
    assert_eq!(d.accent(), "#F7768E");
    assert_eq!(d.appearance.theme_mode, ThemeMode::Light);
    assert!(!d.appearance.transparency);
}

#[test]
fn unknown_keys_are_ignored() {
    let d: Desktop = desktop("[privacy]\nx = 1\n[appearance]\nblur = true\n");
    assert_eq!(d.appearance.theme_mode, ThemeMode::Dark);
}

#[test]
fn themes_have_names() {
    assert_eq!(ThemeMode::named("light"), Some(ThemeMode::Light));
    assert_eq!(ThemeMode::named("dark"), Some(ThemeMode::Dark));
    assert_eq!(ThemeMode::named("auto"), Some(ThemeMode::Auto));
    assert_eq!(ThemeMode::named("Light"), None);
    assert_eq!(ThemeMode::default(), ThemeMode::Dark);
    let d = Desktop::default();
    assert!(d.appearance.transparency);
    assert_eq!(d.accent(), "#7AA2F7");
}

#[test]
fn colours_are_seven_characters() {
    assert!(is_hex("#0aF9bC") && is_hex(DEFAULT_ACCENT));
    for s in ["", "#", "#12345", "#1234567", "1234567", "#12345g", "#12345\u{e9}", "##12345"] {
        assert!(!is_hex(s));
    }
}

#[test]
fn desktop_settings_lie_in_the_configuration_directory() {
    assert_eq!(path(Some("/x"), Some("/home/me")), "/x/raven/desktop.toml");
    assert_eq!(path(None, Some("/home/me")), "/home/me/.config/raven/desktop.toml");
    assert_eq!(path(None, None), "./raven/desktop.toml");
}

#[test]
fn settings_have_their_places() {
    assert_eq!(config_dir(Some("/home/me/.config")), "/home/me/.config/ravenvoice");
    assert_eq!(config_path(Some("/c")), "/c/ravenvoice/config.toml");
    assert_eq!(config_path(None), "./ravenvoice/config.toml");
    assert_eq!(data_dir(Some("/d")), "/d/ravenvoice");
    assert_eq!(
        file_text("[stt]\n"),
        "# RavenVoice settings. See README.md for every option.\n\n[stt]\n"
    );
}

#[test]
fn defaults_are_as_documented() {
    let c = Config::default();
    assert_eq!(c.stt.model, "base.en");
    assert!(c.stt.auto_download && c.stt.live_preview && c.stt.use_context && c.stt.fast_encoder);
    assert_eq!(c.audio.silence_ms, 800);
    assert_eq!(c.hotkeys.toggle, "Ctrl+Alt+D");
    assert_eq!(c.hotkeys.speak_last, "Ctrl+Alt+R");
    assert_eq!(c.hotkeys.stop_speaking, "Ctrl+Alt+X");
    assert_eq!(c.hotkeys.push_to_talk, "");
    assert_eq!(c.typing.key_delay_ms, 4);
    assert_eq!(c.typing.unicode_fallback, "skip");
    assert_eq!(c.tts.rate_wpm, 175);
    assert!(!c.tts.echo_dictation);
    assert_eq!(c.overlay.position, "bottom");
    assert_eq!(c.overlay.font_size, 13);
    assert!(c.typing_live());
}

#[test]
fn models_have_files_and_addresses() {
    assert_eq!(models_dir(Some("/d")), "/d/ravenvoice/models");
    assert_eq!(path_for(Some("/d"), "base.en"), "/d/ravenvoice/models/ggml-base.en.bin");
    assert_eq!(
        url_for("base.en"),
        "https://huggingface.co/ggerganov/whisper.cpp/resolve/main/ggml-base.en.bin"
    );
    let mut c = Config::default();
    assert_eq!(c.model_path(Some("/d")), "/d/ravenvoice/models/ggml-base.en.bin");
    c.stt.model_path = Some("/my.bin".into());
    assert_eq!(c.model_path(Some("/d")), "/my.bin");
    assert_eq!(part_path("/d/ggml-tiny.bin"), "/d/ggml-tiny.bin.part");
    assert_eq!(
        missing_model("/m.bin", "tiny"),
        "Whisper model not found at /m.bin; run `ravenvoice download-model tiny`"
    );
    assert_eq!(KNOWN_MODELS.len(), 8);
    assert_eq!(KNOWN_MODELS[1], ("base.en", "142 MB, fast, good for dictation"));
}

#[test]
fn downloads_are_checked() {
    assert_eq!(check_name("base.en"), Ok(()));
    assert_eq!(check_name("a/b"), Err("invalid model name \"a/b\"".to_string()));
    assert_eq!(check_name(".."), Err("invalid model name \"..\"".to_string()));
    assert_eq!(check_download("tiny", 1_000_000, 0), Ok(()));
    assert_eq!(check_download("tiny", 2_000_000, 2_000_000), Ok(()));
    assert_eq!(
        check_download("tiny", 5, 2_000_000),
        Err("download of tiny was cut short (5 of 2000000 bytes)".to_string())
    );
    assert_eq!(
        check_download("tiny", 999_999, 0),
        Err(format!(
            "{} returned only 999999 bytes; is `tiny` a real model name?",
            url_for("tiny")
        ))
    );
}

#[test]
fn paths_join_as_the_standard_library_joins_them() {
    for dir in ["", "/", "/a", "/a/", "b"] {
        for name in ["x", "x/y", "/x"] {
            let std = std::path::Path::new(dir).join(name);
            assert_eq!(join_path(dir, name), std.to_str().unwrap());
        }
    }
}

#[test]
fn unfinished_downloads_have_files_of_their_own() {
    assert_eq!(part_path("/x/ggml-base.en.bin"), "/x/ggml-base.en.bin.part");
    assert_eq!(part_path("/x/model"), "/x/model.bin.part");
    assert_eq!(part_path("model.ggml"), "model.bin.part");
    assert_eq!(part_path("/x.y/model"), "/x.y/model.bin.part");
    assert_eq!(part_path("/x/.model"), "/x/.model.bin.part");
    assert_eq!(part_path("/x/model."), "/x/model.bin.part");
    assert_eq!(part_path("/x/.."), "/x/..");
}
