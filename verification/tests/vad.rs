use ravenvoice::audio::SAMPLE_RATE;
use ravenvoice::config::AudioConfig;
use ravenvoice::vad::{FloorStep, Segmenter, VadEvent, FRAME};

/// A segmenter with the loudness measure and the noise floor around it.
struct Ear {
    seg: Segmenter<f32>,
    noise: f32,
}

impl Ear {
    fn new() -> Self {
        Ear { seg: Segmenter::new(&AudioConfig::default()), noise: 0.005 }
    }

    fn push(&mut self, samples: &[f32], out: &mut Vec<VadEvent<f32>>) {
        self.seg.push(samples);
        while let Some(frame) = self.seg.next_frame() {
            let sum: f32 = frame.iter().map(|s| s * s).sum();
            let level = (sum / frame.len() as f32).sqrt();
            let loud = match self.seg.weigh(level.to_bits(), self.noise.to_bits()) {
                FloorStep::Follow { percent } => {
                    let loud = level > self.threshold();
                    self.noise += (level - self.noise) * (percent as f32 / 100.0);
                    loud
                }
                FloorStep::Raise { quietest, percent } => {
                    self.noise += (f32::from_bits(quietest) - self.noise) * (percent as f32 / 100.0);
                    level > self.threshold()
                }
                FloorStep::Hold => level > self.threshold(),
            };
            self.seg.frame(frame, loud, out);
        }
    }

    fn threshold(&self) -> f32 {
        (self.noise * 2.5).max(0.004)
    }
}

fn tone(secs: f32, amp: f32) -> Vec<f32> {
    (0..(secs * SAMPLE_RATE as f32) as usize)
        .map(|i| amp * (i as f32 * 0.07).sin())
        .collect()
}

#[test]
fn detects_one_phrase_between_silences() {
    let mut seg = Ear::new();
    let mut ev = Vec::new();
    seg.push(&tone(1.0, 0.001), &mut ev);
    seg.push(&tone(1.5, 0.3), &mut ev);
    seg.push(&tone(1.5, 0.001), &mut ev);
    let phrases: Vec<_> = ev
        .iter()
        .filter_map(|e| match e {
            VadEvent::Phrase(p) => Some(p.len()),
            _ => None,
        })
        .collect();
    assert_eq!(phrases.len(), 1);
    let secs = phrases[0] as f32 / SAMPLE_RATE as f32;
    assert!((1.5..2.3).contains(&secs), "phrase was {secs}s");
}

#[test]
fn adapts_to_a_noisy_room() {
    // A steady fan well above the default floor must not count as speech.
    let mut seg = Ear::new();
    let mut ev = Vec::new();
    seg.push(&tone(3.0, 0.03), &mut ev);
    assert!(
        !ev.iter()
            .any(|e| matches!(e, VadEvent::Phrase(_) | VadEvent::SpeechStarted))
    );
    // ...while speech above it still does.
    seg.push(&tone(1.0, 0.4), &mut ev);
    seg.push(&tone(1.5, 0.03), &mut ev);
    assert!(ev.iter().any(|e| matches!(e, VadEvent::Phrase(_))));
}

#[test]
fn phrases_still_end_when_the_background_gets_louder() {
    // Learn a silent room, then a fan starts under continuous talking
    // with short gaps; the phrase must end rather than run to the limit.
    let mut seg = Ear::new();
    let mut ev = Vec::new();
    seg.push(&tone(1.0, 0.0005), &mut ev);
    for _ in 0..6 {
        seg.push(&tone(0.6, 0.3), &mut ev);
        seg.push(&tone(0.15, 0.02), &mut ev);
    }
    seg.push(&tone(2.0, 0.02), &mut ev);
    let longest = ev
        .iter()
        .filter_map(|e| match e {
            VadEvent::Phrase(p) => Some(p.len() as f32 / SAMPLE_RATE as f32),
            _ => None,
        })
        .fold(0.0, f32::max);
    assert!(longest > 0.0 && longest < 8.0, "phrase lasted {longest}s");
}

#[test]
fn ignores_short_clicks() {
    let mut seg = Ear::new();
    let mut ev = Vec::new();
    seg.push(&tone(1.0, 0.001), &mut ev);
    seg.push(&tone(0.12, 0.5), &mut ev);
    seg.push(&tone(1.5, 0.001), &mut ev);
    assert!(!ev.iter().any(|e| matches!(e, VadEvent::Phrase(_))));
}

/// Frames numbered from `from`, each judged as given.
fn feed(seg: &mut Segmenter<u32>, from: u32, n: u32, loud: bool) -> Vec<VadEvent<u32>> {
    let mut out = Vec::new();
    for i in from..from + n {
        seg.frame(vec![i; FRAME], loud, &mut out);
    }
    out
}

#[test]
fn a_frame_is_thirty_milliseconds() {
    assert_eq!(FRAME as u32, SAMPLE_RATE * 30 / 1000);
}

#[test]
fn phrases_keep_audio_from_before_and_a_short_tail() {
    let mut seg: Segmenter<u32> = Segmenter::new(&AudioConfig::default());
    assert!(feed(&mut seg, 0, 20, false).is_empty());
    // The third loud frame starts speech.
    assert!(feed(&mut seg, 20, 2, true).is_empty());
    assert!(matches!(feed(&mut seg, 22, 1, true)[..], [VadEvent::SpeechStarted]));
    assert!(feed(&mut seg, 23, 10, true).is_empty());
    // 800 ms of silence are 26 frames; a partial comes after 20.
    let ev = feed(&mut seg, 33, 26, false);
    assert_eq!(ev.len(), 2);
    assert!(matches!(&ev[0], VadEvent::Partial(p) if p.len() == 30 * FRAME));
    // Ten frames from before, eleven more spoken, eight of the silence.
    match &ev[1] {
        VadEvent::Phrase(p) => {
            assert_eq!(p.len(), (10 + 10 + 8) * FRAME);
            assert_eq!(p[0], 13);
            assert_eq!(p[p.len() - 1], 40);
        }
        _ => panic!("no phrase"),
    }
}

#[test]
fn the_opening_burst_is_ignored() {
    let mut seg: Segmenter<u32> = Segmenter::new(&AudioConfig::default());
    assert!(feed(&mut seg, 0, 7, true).is_empty());
    assert!(matches!(feed(&mut seg, 7, 1, true)[..], [VadEvent::SpeechStarted]));
}

#[test]
fn long_phrases_are_cut() {
    let mut seg: Segmenter<u32> = Segmenter::new(&AudioConfig::default());
    let ev = feed(&mut seg, 0, 1900, true);
    for e in &ev {
        if let VadEvent::Phrase(p) = e {
            assert_eq!(p.len(), 666 * FRAME);
        }
    }
    let phrases = ev.iter().filter(|e| matches!(e, VadEvent::Phrase(_))).count();
    assert_eq!(phrases, 2);
}

#[test]
fn stopping_mid_sentence_keeps_the_words() {
    let mut seg: Segmenter<u32> = Segmenter::new(&AudioConfig::default());
    feed(&mut seg, 0, 10, false);
    feed(&mut seg, 10, 12, true);
    let mut out = Vec::new();
    seg.flush(&mut out);
    assert!(matches!(&out[..], [VadEvent::Phrase(p)] if p[p.len() - 1] == 21));
    // There is nothing left to close.
    out.clear();
    seg.flush(&mut out);
    assert!(out.is_empty());
}

#[test]
fn the_noise_floor_moves_as_it_should() {
    let mut seg: Segmenter<u32> = Segmenter::new(&AudioConfig::default());
    let quiet = 0.001f32.to_bits();
    let noise = 0.005f32.to_bits();
    let loud = 0.3f32.to_bits();
    assert_eq!(seg.weigh(loud, noise), FloorStep::Follow { percent: 30 });
    feed(&mut seg, 0, 10, false);
    assert_eq!(seg.weigh(quiet, noise), FloorStep::Follow { percent: 10 });
    assert_eq!(seg.weigh(loud, noise), FloorStep::Follow { percent: 1 });
    feed(&mut seg, 10, 3, true);
    for _ in 0..50 {
        assert_eq!(seg.weigh(loud, noise), FloorStep::Hold);
    }
    assert_eq!(seg.weigh(loud, noise), FloorStep::Raise { quietest: loud, percent: 5 });
    assert_eq!(seg.weigh(quiet, noise), FloorStep::Hold);
    assert_eq!(seg.last_rms, quiet);
}

#[test]
fn audio_comes_in_pieces_of_any_size() {
    let mut seg: Segmenter<u32> = Segmenter::new(&AudioConfig::default());
    let all: Vec<u32> = (0..1000).collect();
    seg.push(&all[..7]);
    assert!(seg.next_frame().is_none());
    seg.push(&all[7..]);
    assert_eq!(seg.next_frame().unwrap(), &all[..480]);
    assert_eq!(seg.next_frame().unwrap(), &all[480..960]);
    assert!(seg.next_frame().is_none());
}

fn same(a: &[VadEvent<f32>], b: &[VadEvent<f32>]) -> bool {
    a.len() == b.len()
        && a.iter().zip(b).all(|pair| match pair {
            (VadEvent::SpeechStarted, VadEvent::SpeechStarted) => true,
            (VadEvent::Partial(x), VadEvent::Partial(y)) => x == y,
            (VadEvent::Phrase(x), VadEvent::Phrase(y)) => x == y,
            _ => false,
        })
}

#[test]
fn audio_is_heard_the_same_in_any_pieces() {
    let mut all = tone(0.6, 0.001);
    all.extend(tone(1.4, 0.3));
    all.extend(tone(1.5, 0.001));
    let mut whole = Vec::new();
    Ear::new().push(&all, &mut whole);
    assert!(whole.iter().any(|e| matches!(e, VadEvent::Phrase(_))));
    for cut in [0, 1, 479, 480, 12_345, all.len()] {
        let mut pieces = Vec::new();
        let mut l = Ear::new();
        l.push(&all[..cut], &mut pieces);
        l.push(&all[cut..], &mut pieces);
        assert!(same(&pieces, &whole));
    }
}

#[test]
fn speech_starts_with_three_loud_frames() {
    let mut seg: Segmenter<u32> = Segmenter::new(&AudioConfig::default());
    assert!(feed(&mut seg, 0, 20, false).is_empty());
    assert!(feed(&mut seg, 20, 2, true).is_empty());
    assert!(feed(&mut seg, 22, 1, false).is_empty());
    assert!(feed(&mut seg, 23, 2, true).is_empty());
    assert!(matches!(feed(&mut seg, 25, 1, true)[..], [VadEvent::SpeechStarted]));
}
