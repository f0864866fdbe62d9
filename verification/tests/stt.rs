use ravenvoice::audio::SAMPLE_RATE;
use ravenvoice::config::{Accuracy, SttConfig};
use ravenvoice::single::round_to_single;
use ravenvoice::stt::{
    build_prompt, clean, encoder_window, language_for, pad, thread_count, transcript, Segment,
    SHORTEST_CLIP,
};

#[test]
fn encoder_window_covers_the_clip() {
    let secs = |s: f32| (s * SAMPLE_RATE as f32) as usize;
    assert_eq!(encoder_window(secs(2.0), false), 768);
    assert!(encoder_window(secs(11.0), false) >= 1000);
    assert_eq!(encoder_window(secs(25.0), false), 1500);
    for s in [1.0, 5.0, 10.0, 20.0, 30.0] {
        assert!(encoder_window(secs(s), true) as f32 >= s * 50.0);
    }
}

#[test]
fn encoder_window_has_exact_values() {
    assert_eq!(encoder_window(0, true), 512);
    assert_eq!(encoder_window(0, false), 768);
    // Ten seconds: 500 frames, and the margins.
    assert_eq!(encoder_window(160_000, true), 628);
    assert_eq!(encoder_window(160_000, false), 1006);
    assert_eq!(encoder_window(160_001, true), 629);
    // Rounding can take a clip just over a frame.
    assert_eq!(encoder_window(136_320, false), 896);
    assert_eq!(encoder_window(256_640, true), 931);
    assert_eq!(encoder_window(usize::MAX, true), 1500);
    assert_eq!(encoder_window(usize::MAX, false), 1500);
}

/// The window in single-precision numbers.
fn reckoned(samples: usize, preview: bool) -> i32 {
    let needed = samples as f32 / SAMPLE_RATE as f32 * 50.0;
    let (frames, floor) = if preview {
        (needed + 128.0, 512.0)
    } else {
        (needed * 1.5 + 256.0, 768.0)
    };
    frames.max(floor).min(1500.0).ceil() as i32
}

#[test]
fn encoder_window_rounds_as_single_precision_does() {
    for samples in (0..490_000).chain([(1 << 24) + 1, 1 << 31, usize::MAX]) {
        for preview in [true, false] {
            assert_eq!(encoder_window(samples, preview), reckoned(samples, preview));
        }
    }
}

#[test]
fn numbers_round_to_the_nearest_single() {
    assert_eq!(round_to_single(7, 2), 4);
    assert_eq!(round_to_single(5, 2), 2);
    assert_eq!(round_to_single((1 << 24) - 1, 1), (1 << 24) - 1);
    assert_eq!(round_to_single((1 << 24) + 1, 1), 1 << 24);
    assert_eq!(round_to_single((1 << 24) + 3, 1), (1 << 24) + 4);
    for n in [0, 1, 480_000, 16_777_217, 33_554_435, 1 << 59, (1 << 60) - 1] {
        assert_eq!(round_to_single(n, 1), n as f32 as u64);
    }
}

#[test]
fn encoder_window_never_shrinks() {
    for preview in [true, false] {
        let mut last = 0;
        for samples in (0..500_000).step_by(997) {
            let now = encoder_window(samples, preview);
            assert!(now >= last);
            last = now;
        }
    }
}

#[test]
fn strips_annotations() {
    assert_eq!(clean(" [BLANK_AUDIO]"), "");
    assert_eq!(clean(" Hello (coughs) world. *music*"), "Hello world.");
    assert_eq!(clean("  Thank you."), "");
    assert_eq!(
        clean(" Thank you for the report."),
        "Thank you for the report."
    );
}

#[test]
fn clean_handles_nesting_and_strays() {
    assert_eq!(clean("a [b (c) d] e"), "a e");
    assert_eq!(clean("a ] b"), "a ] b");
    assert_eq!(clean("open [never closed"), "open");
    assert_eq!(clean("one *two"), "one");
    assert_eq!(clean("  many   spaces\tand\nlines "), "many spaces and lines");
}

#[test]
fn clean_drops_inventions_in_any_case() {
    for s in ["THANK YOU.", "Thanks for watching!", "You", ".", "bye.", "thank you for watching."] {
        assert_eq!(clean(s), "");
    }
    assert_eq!(clean("Bye now."), "Bye now.");
    // Lowercasing goes beyond ASCII.
    assert_eq!(clean("B\u{d9}E."), "B\u{d9}E.");
}

#[test]
fn cleaning_twice_changes_nothing() {
    for s in [" Hello (coughs) world. *music*", "x ] y ) z", "Thank you.", " \u{2026} ok "] {
        let once = clean(s);
        assert_eq!(clean(&once), once);
        assert!(!once.contains(['[', '(', '*']));
    }
}

#[test]
fn prompt_joins_vocabulary_and_context() {
    assert_eq!(build_prompt("", ""), "");
    assert_eq!(build_prompt(" Raven, rvn ", ""), "Raven, rvn");
    assert_eq!(build_prompt("", " so far "), "so far");
    assert_eq!(build_prompt("Raven", " so far"), "Raven so far");
    let long = "x".repeat(150) + &"y".repeat(150);
    assert_eq!(build_prompt("", &long), "x".repeat(50) + &"y".repeat(150));
}

#[test]
fn short_clips_are_padded() {
    let padded = pad(&[0.5f32, 0.25], 0.0);
    assert_eq!(padded.len(), SHORTEST_CLIP);
    assert_eq!(padded.len(), (SAMPLE_RATE + SAMPLE_RATE / 10) as usize);
    assert_eq!(&padded[..3], &[0.5, 0.25, 0.0]);
    let long = vec![1.0f32; SHORTEST_CLIP + 7];
    assert_eq!(pad(&long, 0.0), long);
}

#[test]
fn threads_and_language_are_chosen() {
    assert_eq!(thread_count(3, Some(16)), 3);
    assert_eq!(thread_count(0, Some(16)), 8);
    assert_eq!(thread_count(0, Some(2)), 2);
    assert_eq!(thread_count(0, None), 4);
    assert_eq!(language_for(true, "de").as_deref(), Some("en"));
    assert_eq!(language_for(false, "de").as_deref(), Some("de"));
    assert_eq!(language_for(false, "auto"), None);
    assert_eq!(language_for(false, ""), None);
}

#[test]
fn transcript_skips_silent_and_unreadable_segments() {
    let seg = |no_speech: bool, text: Option<&str>| Segment {
        no_speech,
        text: text.map(str::to_string),
    };
    let all = [
        seg(false, Some(" Hello")),
        seg(true, Some(" noise")),
        seg(false, None),
        seg(false, Some(" world. [MUSIC]")),
    ];
    assert_eq!(transcript(&all), "Hello world.");
    assert_eq!(transcript(&[]), "");
}

#[test]
fn accuracy_picks_the_model() {
    let mut stt = SttConfig::default();
    assert_eq!(Accuracy::of(&stt), Accuracy::Fast);
    assert_eq!(stt.model_for(true), "base.en");
    assert_eq!(stt.model_for(false), "base.en");
    Accuracy::Accurate.apply(&mut stt);
    assert_eq!(Accuracy::of(&stt), Accuracy::Accurate);
    assert_eq!(stt.model_for(true), "base.en");
    assert_eq!(stt.model_for(false), "small.en-q5_1");
    Accuracy::Fast.apply(&mut stt);
    assert_eq!(stt.model_for(false), "base.en");
    assert_eq!(Accuracy::parse("fast"), Some(Accuracy::Fast));
    assert_eq!(Accuracy::parse("accurate"), Some(Accuracy::Accurate));
    assert_eq!(Accuracy::parse("Accurate"), None);
}
