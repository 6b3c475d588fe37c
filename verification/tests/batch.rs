use silence_cutter::batch::{count_batches, permit_failure, BatchProcessor};
use silence_cutter::double::Double;
use silence_cutter::ffmpeg::process_batch_to_ts;
use silence_cutter::progress::ProgressNotifier;
use silence_cutter::segments::SpeechSegment;

fn segments(n: usize) -> Vec<SpeechSegment> {
    (0..n)
        .map(|i| SpeechSegment {
            start: Double::from_count(2 * i as u64),
            end: Double::from_count(2 * i as u64 + 1),
        })
        .collect()
}

fn processor(segments: &[SpeechSegment]) -> BatchProcessor<'_> {
    BatchProcessor::new(
        "ffmpeg",
        "in.mp4",
        "/tmp/out.temp_parts",
        segments,
        true,
        Some(3_000_000),
        ProgressNotifier::new(true),
    )
}

#[test]
fn processor_of_an_export() {
    let segments = segments(3);
    let p = processor(&segments);
    assert_eq!(p.segments_per_batch, 10);
    assert_eq!(p.max_concurrent_tasks, 4);
    assert_eq!(p.ffmpeg_path, "ffmpeg");
    assert_eq!(p.num_batches(), 1);
}

#[test]
fn batches_of_ten() {
    let segments = segments(23);
    let p = processor(&segments);
    assert_eq!(p.num_batches(), 3);
    let batches = p.process();
    assert_eq!(batches.len(), 3);
    assert_eq!(batches[0].segments, segments[0..10].to_vec());
    assert_eq!(batches[1].segments, segments[10..20].to_vec());
    assert_eq!(batches[2].segments, segments[20..23].to_vec());
    for (i, batch) in batches.iter().enumerate() {
        assert_eq!(batch.index, i);
        assert_eq!(batch.output, format!("/tmp/out.temp_parts/part_{}.ts", i));
        assert_eq!(batch.seek_start, segments[10 * i].start);
        let notice = batch.notice.clone().unwrap();
        assert_eq!(notice.message_key, "submit_batch");
        assert_eq!(notice.params, vec![("current".to_string(), i + 1), ("total".to_string(), 3)]);
    }
}

#[test]
fn batches_cover_all_segments() {
    for n in 0..45 {
        let segments = segments(n);
        let mut all = Vec::new();
        for batch in processor(&segments).process() {
            assert!(!batch.segments.is_empty() && batch.segments.len() <= 10);
            all.extend(batch.segments);
        }
        assert_eq!(all, segments);
    }
}

#[test]
fn counts_of_batches() {
    for n in 0..200usize {
        assert_eq!(count_batches(n, 10), (n + 9) / 10);
    }
    assert_eq!(count_batches(usize::MAX, 1), usize::MAX);
    assert_eq!(count_batches(usize::MAX, usize::MAX), 1);
    assert_eq!(count_batches(5, usize::MAX), 1);
}

#[test]
fn command_of_a_batch() {
    let segments = segments(12);
    let p = processor(&segments);
    let batch = p.batch(1);
    let expected = process_batch_to_ts(
        "in.mp4",
        "/tmp/out.temp_parts/part_1.ts",
        &segments[10..12],
        true,
        segments[10].start,
        "20",
        Some(3_000_000),
        false,
    );
    assert_eq!(p.command(&batch, "20", false), expected);
}

#[test]
fn failed_permit_is_explained() {
    assert_eq!(permit_failure("closed"), "Semaphore error: closed");
}

#[test]
fn batches_read_ahead_of_their_segments() {
    let segments = segments(31);
    for batch in processor(&segments).process() {
        for segment in &batch.segments {
            assert!(!batch.seek_start.gt(segment.start));
        }
    }
}
