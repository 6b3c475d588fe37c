use silence_cutter::double::Double;
use silence_cutter::segments::{
    total_silence, SilenceSegment, SpeechSegment, SpeechSegmentCalculator,
};

fn d(x: f64) -> Double {
    Double { bits: x.to_bits() }
}

fn silence(start: f64, end: f64) -> SilenceSegment {
    SilenceSegment { start_time: d(start), end_time: d(end), duration: d(end - start) }
}

fn speech(silences: &[SilenceSegment], duration: f64) -> Vec<(f64, f64)> {
    SpeechSegmentCalculator::calculate(silences, d(duration))
        .iter()
        .map(|s: &SpeechSegment| (f64::from_bits(s.start.bits), f64::from_bits(s.end.bits)))
        .collect()
}

#[test]
fn speech_between_silences() {
    let silences = vec![silence(1.0, 2.0), silence(4.5, 5.0)];
    assert_eq!(speech(&silences, 10.0), vec![(0.0, 1.0), (2.0, 4.5), (5.0, 10.0)]);
}

#[test]
fn speech_without_silences_is_everything() {
    assert_eq!(speech(&[], 3.0), vec![(0.0, 3.0)]);
}

#[test]
fn short_stretches_are_dropped() {
    // 0.05 s before the first silence, 0.04 s between the silences, 0.1 s at the end
    let silences = vec![silence(0.05, 1.0), silence(1.04, 2.0)];
    assert_eq!(speech(&silences, 2.1), vec![]);
    assert_eq!(speech(&silences, 2.125), vec![(2.0, 2.125)]);
    let silences = vec![silence(0.0625, 1.0)];
    assert_eq!(speech(&silences, 1.0), vec![(0.0, 0.0625)]);
}

#[test]
fn silence_over_the_whole_leaves_nothing() {
    assert_eq!(speech(&[silence(0.0, 60.0)], 60.0), vec![]);
}

#[test]
fn recording_shorter_than_its_silences() {
    assert_eq!(speech(&[silence(1.0, 5.0)], 4.0), vec![(0.0, 1.0)]);
}

#[test]
fn undefined_times_keep_nothing() {
    assert_eq!(speech(&[silence(f64::NAN, 1.0)], 1.0), vec![]);
    assert_eq!(speech(&[], f64::NAN), vec![]);
}

#[test]
fn speech_agrees_with_floating_point() {
    let mut seed: u64 = 0x1357_9bdf_0246_8ace;
    let mut next = || {
        seed ^= seed << 13;
        seed ^= seed >> 7;
        seed ^= seed << 17;
        (seed % 2000) as f64 / 1000.0
    };
    for _ in 0..300 {
        let mut silences = Vec::new();
        let mut at = 0.0;
        for _ in 0..12 {
            let start = at + next() / 8.0;
            let end = start + next();
            silences.push(silence(start, end));
            at = end;
        }
        let duration = at + next() / 5.0;
        let mut expected = Vec::new();
        let mut last_end = 0.0;
        for s in &silences {
            let start = f64::from_bits(s.start_time.bits);
            if start > last_end + 0.05 && start - last_end > 0.05 {
                expected.push((last_end, start));
            }
            last_end = f64::from_bits(s.end_time.bits);
        }
        if last_end < duration - 0.1 && duration - last_end > 0.05 {
            expected.push((last_end, duration));
        }
        assert_eq!(speech(&silences, duration), expected);
        let durations: Vec<f64> =
            silences.iter().map(|s| f64::from_bits(s.duration.bits)).collect();
        let sum: f64 = durations.iter().map(|x| *x).sum();
        assert_eq!(total_silence(&silences).bits, sum.to_bits());
    }
}

#[test]
fn kept_segments_last_and_are_in_order() {
    let silences = vec![silence(0.0, 0.5), silence(0.75, 1.25), silence(3.0, 3.5)];
    let kept = speech(&silences, 7.25);
    assert_eq!(kept, vec![(0.5, 0.75), (1.25, 3.0), (3.5, 7.25)]);
    for (start, end) in &kept {
        assert!(end - start > 0.05);
    }
    for pair in kept.windows(2) {
        assert!(pair[0].1 <= pair[1].0);
    }
}

#[test]
fn sum_of_silences() {
    let silences = vec![silence(0.0, 0.1), silence(1.0, 1.2), silence(2.0, 2.3)];
    let sum: f64 = vec![0.1f64, 1.2 - 1.0, 2.3 - 2.0].iter().map(|x| *x).sum();
    assert_eq!(total_silence(&silences).bits, sum.to_bits());
    let none: Vec<f64> = Vec::new();
    let empty: f64 = none.iter().map(|x| *x).sum();
    assert_eq!(f64::from_bits(total_silence(&[]).bits), empty);
}

#[test]
fn removal_never_lengthens() {
    for (silences, duration) in [
        (vec![], 5.0),
        (vec![silence(0.0, 0.0)], 5.0),
        (vec![silence(1.0, 2.0), silence(3.0, 9.0)], 5.0),
        (vec![silence(0.0, f64::MAX), silence(0.0, f64::MAX)], 5.0),
    ] {
        let processed = d(duration).minus(total_silence(&silences));
        assert!(!processed.is_undefined());
        assert!(!processed.gt(d(duration)));
    }
}
