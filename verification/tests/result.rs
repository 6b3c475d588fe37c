use silence_cutter::double::Double;
use silence_cutter::result::{batch_process_videos, ProcessResultBuilder};

fn d(x: f64) -> Double {
    Double { bits: x.to_bits() }
}

fn ratio(removed: f64, original: f64) -> f64 {
    let r = ProcessResultBuilder::build(
        "in.mp4",
        "out.mp4",
        d(original),
        d(original - removed),
        2,
        d(removed),
        d(1.5),
        false,
        Some("why".to_string()),
    );
    assert_eq!(r.input_path, "in.mp4");
    assert_eq!(r.output_path, "out.mp4");
    assert_eq!(r.original_duration, d(original));
    assert_eq!(r.processed_duration, d(original - removed));
    assert_eq!(r.silence_segments, 2);
    assert_eq!(r.total_silence_removed, d(removed));
    assert_eq!(r.processing_time, d(1.5));
    assert!(!r.success);
    assert_eq!(r.error_message, Some("why".to_string()));
    f64::from_bits(r.compression_ratio.bits)
}

#[test]
fn share_of_what_was_removed() {
    assert_eq!(ratio(10.0, 60.0), (10.0 / 60.0) * 100.0);
    assert_eq!(ratio(0.0, 60.0), 0.0);
    assert_eq!(ratio(60.0, 60.0), 100.0);
    assert_eq!(ratio(1.0, 0.0), 0.0);
    assert_eq!(ratio(1.0, -3.0), 0.0);
    assert_eq!(ratio(1.0, f64::NAN), 0.0);
}

#[test]
fn results_of_a_batch() {
    let inputs = vec!["a.mp4".to_string(), "b.mov".to_string()];
    let results = batch_process_videos(&inputs, "/out");
    assert_eq!(results.len(), 2);
    assert_eq!(results[0].input_path, "a.mp4");
    assert_eq!(results[0].output_path, "/out/processed_1.mp4");
    assert_eq!(results[1].input_path, "b.mov");
    assert_eq!(results[1].output_path, "/out/processed_2.mp4");
    for r in &results {
        assert_eq!(r.original_duration, d(60.0));
        assert_eq!(r.processed_duration, d(50.0));
        assert_eq!(r.silence_segments, 5);
        assert_eq!(r.total_silence_removed, d(10.0));
        assert_eq!(r.compression_ratio, d(16.67));
        assert_eq!(r.processing_time, d(2.5));
        assert!(r.success);
        assert_eq!(r.error_message, None);
    }
    assert!(batch_process_videos(&[], "/out").is_empty());
}
