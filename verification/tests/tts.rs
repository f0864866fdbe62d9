use ravenvoice::config::TtsConfig;
use ravenvoice::tts::{
    arguments, engine_name, explain, failure, name_engine, pick_engine, piper_program, piper_sample_rate,
    read_wav_header, resolve, search_path, take_samples, to_speak, voice_file, voice_rate,
    wav_error, Backend, Choice, WavFormat, WavHeader,
};

fn cfg(engine: &str, model: Option<&str>) -> TtsConfig {
    TtsConfig {
        engine: engine.into(),
        piper_model: model.map(str::to_string),
        ..TtsConfig::default()
    }
}

#[test]
fn programs_are_searched_in_order() {
    assert_eq!(search_path("/usr/bin:/bin/", "piper"), ["/usr/bin/piper", "/bin/piper"]);
    assert_eq!(search_path("", "piper"), ["piper"]);
    let mut c = cfg("auto", None);
    assert_eq!(piper_program(&c, Some("a".into()), Some("b".into())).as_deref(), Some("a"));
    assert_eq!(piper_program(&c, None, Some("b".into())).as_deref(), Some("b"));
    assert_eq!(piper_program(&c, None, None), None);
    c.piper_bin = Some("mine".into());
    assert_eq!(piper_program(&c, Some("a".into()), None).as_deref(), Some("mine"));
}

#[test]
fn piper_is_taken_when_it_is_all_there() {
    let bin = || Some("/bin/piper".to_string());
    for want in ["auto", "piper"] {
        assert!(matches!(
            pick_engine(&cfg(want, Some("/v.onnx")), bin(), true),
            Choice::Piper { bin, model } if bin == "/bin/piper" && model == "/v.onnx"
        ));
    }
    assert!(matches!(pick_engine(&cfg("auto", Some("/v.onnx")), bin(), false), Choice::Espeak));
    assert!(matches!(pick_engine(&cfg("auto", None), bin(), true), Choice::Espeak));
    assert!(matches!(pick_engine(&cfg("auto", Some("/v")), None, true), Choice::Espeak));
    assert!(matches!(pick_engine(&cfg("espeak-ng", Some("/v")), bin(), true), Choice::Espeak));
    assert!(matches!(pick_engine(&cfg("piper", None), bin(), true), Choice::Incomplete));
}

#[test]
fn engines_are_named() {
    let c = cfg("auto", None);
    let piper = Choice::Piper { bin: "p".into(), model: "/voices/en_US-amy-medium.onnx".into() };
    let r = resolve(piper, Ok(22_050), None);
    assert!(matches!(&r, Ok(Backend::Piper { rate: 22_050, .. })));
    assert_eq!(engine_name(&r, &c), "Piper (en_US-amy-medium)");
    assert_eq!(name_engine(&r, &c, "amy"), "Piper (amy)");
    for (model, stem) in [("v.x.onnx", "v.x"), ("/a.b/voice", "voice"), ("/a/.voice", ".voice")] {
        let piper = Choice::Piper { bin: "p".into(), model: model.into() };
        let r = resolve(piper, Ok(22_050), None);
        assert_eq!(engine_name(&r, &c), format!("Piper ({stem})"));
    }
    let r = resolve(Choice::Espeak, Err("unused".into()), Some("e".into()));
    assert_eq!(engine_name(&r, &c), "espeak-ng (en-us)");
    let r = resolve(Choice::Espeak, Ok(1), None);
    assert_eq!(
        engine_name(&r, &c),
        "unavailable: no text-to-speech engine found; install espeak-ng (`imlazy setup` does it for you)"
    );
    let r = resolve(Choice::Incomplete, Ok(1), Some("e".into()));
    assert_eq!(
        engine_name(&r, &c),
        "unavailable: Piper needs both the piper binary and tts.piper_model (an .onnx voice) configured"
    );
    let piper = Choice::Piper { bin: "p".into(), model: "m".into() };
    assert!(matches!(resolve(piper, Err("bad".into()), None), Err(e) if e == "bad"));
}

#[test]
fn the_voice_tells_its_rate() {
    assert_eq!(voice_file("/v.onnx"), "/v.onnx.json");
    let json = "{\"audio\": {\"sample_rate\": 16000, \"quality\": \"low\"}}";
    assert_eq!(piper_sample_rate(json, "f"), Ok(16_000));
    assert_eq!(
        piper_sample_rate("{\"audio\": {}}", "/v.onnx.json"),
        Err("/v.onnx.json has no audio.sample_rate".to_string())
    );
    assert!(piper_sample_rate("[1]", "f").is_err());
    assert!(piper_sample_rate("{\"audio\": {\"sample_rate\": -1}}", "f").is_err());
    let broken = piper_sample_rate("{", "f").unwrap_err();
    assert!(!broken.contains("sample_rate"));
    assert_eq!(voice_rate(Ok(Some((1 << 32) + 7)), "f"), Ok(7));
    assert_eq!(voice_rate(Err("e".into()), "f"), Err("e".to_string()));
}

#[test]
fn engines_are_called_with_their_arguments() {
    let mut c = cfg("auto", None);
    let piper = Backend::Piper { bin: "p".into(), model: "/m.onnx".into(), rate: 1 };
    assert_eq!(
        arguments(&piper, &c, "1"),
        ["--model", "/m.onnx", "--output_raw", "--length_scale", "1"]
    );
    let espeak = Backend::Espeak { bin: "e".into() };
    assert_eq!(
        arguments(&espeak, &c, "1"),
        ["--stdout", "--stdin", "-v", "en-us", "-s", "175"]
    );
    c.rate_wpm = 3;
    assert_eq!(arguments(&espeak, &c, "1")[5], "80");
    c.rate_wpm = 9999;
    assert_eq!(arguments(&espeak, &c, "1")[5], "450");
}

#[test]
fn only_text_is_spoken() {
    assert_eq!(to_speak("  \n"), None);
    assert_eq!(to_speak(" hi there ").as_deref(), Some("hi there\n"));
}

#[test]
fn the_engines_complaint_comes_first() {
    assert_eq!(explain("no audio", ""), "no audio");
    assert_eq!(explain("no audio", "x"), "x: no audio");
    assert_eq!(failure("no audio", " \n"), "Speech failed: no audio");
    assert_eq!(
        failure("no audio", "warning: x\r\nvoice not found\n"),
        "Speech failed: voice not found: no audio"
    );
}

/// A WAV header with one chunk that is skipped.
fn wav(channels: u16, rate: u32, bits: u16) -> Vec<u8> {
    let mut b = Vec::new();
    b.extend(b"RIFF\xff\xff\xff\xffWAVE");
    b.extend(b"LIST\x03\x00\x00\x00abc");
    b.extend(b"fmt \x10\x00\x00\x00\x01\x00");
    b.extend(channels.to_le_bytes());
    b.extend(rate.to_le_bytes());
    b.extend([0u8; 6]);
    b.extend(bits.to_le_bytes());
    b.extend(b"data\xff\xff\xff\x7f");
    b
}

#[test]
fn wav_headers_are_read() {
    let b = wav(2, 22_050, 16);
    let read = WavHeader::Samples {
        format: WavFormat { rate: 22_050, channels: 2 },
        at: b.len(),
    };
    assert_eq!(read_wav_header(&b), read);
    let mut longer = b.clone();
    longer.extend([1, 2, 3]);
    assert_eq!(read_wav_header(&longer), read);
    for n in 0..b.len() {
        assert_eq!(read_wav_header(&b[..n]), WavHeader::More);
    }
}

#[test]
fn bad_wav_headers_are_told_apart() {
    assert_eq!(read_wav_header(b"RIFFxxxxAVI ...."), WavHeader::NotWav);
    assert_eq!(read_wav_header(b"RIFXxxxxWAVE"), WavHeader::NotWav);
    assert_eq!(read_wav_header(b"RIFFxxxxWAVEdata\x00\x00\x00\x00"), WavHeader::NoFormat);
    assert_eq!(read_wav_header(&wav(1, 8000, 8)), WavHeader::Bits(8));
    assert_eq!(
        read_wav_header(b"RIFFxxxxWAVEfmt \x02\x00\x00\x00ab"),
        WavHeader::ShortFormat
    );
    assert_eq!(wav_error(WavHeader::NotWav).as_deref(), Some("speech engine output is not WAV"));
    assert_eq!(wav_error(WavHeader::NoFormat).as_deref(), Some("WAV data before format"));
    assert_eq!(
        wav_error(WavHeader::Bits(8)).as_deref(),
        Some("expected 16-bit speech audio, got 8-bit")
    );
    assert_eq!(wav_error(WavHeader::More), None);
}

#[test]
fn samples_are_signed_and_whole() {
    let mut pending = vec![0x01, 0x00, 0xff, 0xff, 0x00, 0x80, 0xff, 0x7f, 0x09];
    assert_eq!(take_samples(&mut pending, 1), [1, -1, -32768, 32767]);
    assert_eq!(pending, [0x09]);
    let mut pending = vec![1, 0, 2, 0, 3, 0];
    assert_eq!(take_samples(&mut pending, 2), [1, 2]);
    assert_eq!(pending, [3, 0]);
}

#[test]
fn samples_do_not_depend_on_how_they_arrive() {
    let all: Vec<u8> = (0..200).map(|i| (i * 37 % 251) as u8).collect();
    for channels in [1u16, 2, 3] {
        let mut once = all.clone();
        let whole = take_samples(&mut once, channels);
        for step in [1usize, 5, 64] {
            let mut pending = Vec::new();
            let mut got = Vec::new();
            for piece in all.chunks(step) {
                pending.extend_from_slice(piece);
                got.extend(take_samples(&mut pending, channels));
            }
            assert_eq!(got, whole);
            assert_eq!(pending, once);
        }
    }
}
