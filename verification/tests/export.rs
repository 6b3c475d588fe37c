use silence_cutter::double::Double;
use silence_cutter::export::{remove_silence_from_video, Export, ExportEvent, Stage};
use silence_cutter::probe::VideoInfo;
use silence_cutter::progress::ProgressNotifier;
use silence_cutter::result::ProcessResult;
use silence_cutter::segments::SilenceSegment;
use std::sync::atomic::AtomicBool;
use std::sync::Arc;

fn d(x: f64) -> Double {
    Double { bits: x.to_bits() }
}

fn silence(start: f64, end: f64) -> SilenceSegment {
    SilenceSegment { start_time: d(start), end_time: d(end), duration: d(end - start) }
}

fn info(duration: f64, has_video: bool) -> VideoInfo {
    VideoInfo {
        path: "in.mp4".to_string(),
        filename: "in.mp4".to_string(),
        size_bytes: 1,
        duration: d(duration),
        format: None,
        codec_video: None,
        codec_audio: None,
        resolution: None,
        framerate: None,
        bitrate: Some(2_000_000),
        has_video,
        has_audio: true,
    }
}

fn started(silences: Vec<SilenceSegment>) -> Export {
    let step =
        remove_silence_from_video("in.mp4", "dir/out.mp4", silences, ProgressNotifier::new(true));
    assert_eq!(step.remove, None);
    assert_eq!(step.notice.unwrap().message_key, "probe_start");
    assert!(matches!(step.export.stage, Stage::Probing));
    step.export
}

fn finished(export: Export) -> Result<ProcessResult, String> {
    match export.stage {
        Stage::Done { result } => result,
        _ => panic!("not over"),
    }
}

fn probed(silences: Vec<SilenceSegment>, duration: f64, has_video: bool) -> Export {
    let step = started(silences).advance(ExportEvent::Probed { info: info(duration, has_video) });
    assert_eq!(step.remove, None);
    assert_eq!(step.notice.unwrap().message_key, "analysis");
    step.export
}

fn transcoding() -> Export {
    let step = probed(vec![silence(1.0, 3.0)], 10.0, true).advance(ExportEvent::Prepared);
    let notice = step.notice.unwrap();
    assert_eq!(notice.message_key, "init_parallel");
    assert_eq!(notice.params, vec![("batches".to_string(), 1)]);
    step.export
}

#[test]
fn export_from_start_to_end() {
    let export = transcoding();
    match &export.stage {
        Stage::Transcoding { plan } => {
            assert_eq!(plan.output_path, "dir/out.mp4");
            assert_eq!(plan.temp_dir, "dir/out.temp_parts");
            assert_eq!(plan.segments.len(), 2);
            assert_eq!(plan.bitrate, Some(2_000_000));
            assert!(plan.has_video);
        }
        _ => panic!("not transcoding"),
    }
    let step = export.advance(ExportEvent::Transcoded { completed: 1, checked: Ok(()) });
    assert_eq!(step.remove, None);
    assert_eq!(step.notice.unwrap().message_key, "merging");
    assert!(matches!(step.export.stage, Stage::Merging { completed: 1, .. }));
    let step = step.export.advance(ExportEvent::Merged);
    assert_eq!(step.remove, Some("dir/out.temp_parts".to_string()));
    assert!(step.notice.is_none());
    assert!(matches!(step.export.stage, Stage::Clearing { .. }));
    let step = step.export.advance(ExportEvent::Cleared { elapsed: d(4.5) });
    assert_eq!(step.remove, None);
    assert_eq!(step.notice.unwrap().message_key, "complete");
    let result = finished(step.export).unwrap();
    assert_eq!(result.input_path, "in.mp4");
    assert_eq!(result.output_path, "dir/out.mp4");
    assert_eq!(result.original_duration, d(10.0));
    assert_eq!(result.processed_duration, d(8.0));
    assert_eq!(result.silence_segments, 1);
    assert_eq!(result.total_silence_removed, d(2.0));
    assert_eq!(result.compression_ratio, d(20.0));
    assert_eq!(result.processing_time, d(4.5));
    assert!(result.success);
    assert_eq!(result.error_message, None);
}

#[test]
fn export_without_silences_is_a_copy() {
    let export = probed(vec![], 10.0, true);
    match &export.stage {
        Stage::Copying { output_path, .. } => assert_eq!(output_path, "dir/out.mp4"),
        _ => panic!("not copying"),
    }
    let step = export.advance(ExportEvent::Copied { elapsed: d(0.25) });
    assert!(step.notice.is_none() && step.remove.is_none());
    let result = finished(step.export).unwrap();
    assert_eq!(result.original_duration, d(10.0));
    assert_eq!(result.processed_duration, d(10.0));
    assert_eq!(result.silence_segments, 0);
    assert_eq!(result.total_silence_removed, d(0.0));
    assert_eq!(result.compression_ratio, d(0.0));
    assert_eq!(result.processing_time, d(0.25));
}

#[test]
fn export_of_sound_only_is_m4a() {
    match probed(vec![silence(1.0, 3.0)], 10.0, false).stage {
        Stage::Preparing { plan } => {
            assert_eq!(plan.output_path, "dir/out.m4a");
            assert_eq!(plan.temp_dir, "dir/out.temp_parts");
            assert!(!plan.has_video);
        }
        _ => panic!("not preparing"),
    }
    match probed(vec![], 10.0, false).stage {
        Stage::Copying { output_path, .. } => assert_eq!(output_path, "dir/out.m4a"),
        _ => panic!("not copying"),
    }
}

#[test]
fn export_that_leaves_nothing_fails() {
    let export = probed(vec![silence(0.0, 10.0)], 10.0, true);
    assert_eq!(finished(export).unwrap_err(), "剪辑完成后没有剩余有效片段");
}

#[test]
fn cancelled_export_is_not_merged() {
    let signal = Arc::new(AtomicBool::new(true));
    let export = transcoding();
    let checked = match &export.stage {
        Stage::Transcoding { plan } => plan.cancel_checker(&signal).check(),
        _ => panic!("not transcoding"),
    };
    let step = export.advance(ExportEvent::Transcoded { completed: 1, checked });
    assert_eq!(step.remove, Some("dir/out.temp_parts".to_string()));
    assert!(step.notice.is_none());
    assert_eq!(finished(step.export).unwrap_err(), "EXPORT_CANCELLED");
}

#[test]
fn failures_end_the_export() {
    for message in ["合并片段失败", "Batch processing error: FFmpeg Batch Error", "EXPORT_CANCELLED"] {
        let step = transcoding().advance(ExportEvent::Failed { error: message.to_string() });
        assert!(step.notice.is_none() && step.remove.is_none());
        assert_eq!(finished(step.export).unwrap_err(), message);
    }
}

#[test]
fn export_without_a_window_sends_nothing() {
    let step = remove_silence_from_video("a", "b", vec![], ProgressNotifier::new(false));
    assert!(step.notice.is_none());
    let step = step.export.advance(ExportEvent::Probed { info: info(1.0, true) });
    assert!(step.notice.is_none());
}

#[test]
fn temporary_directory_of_odd_names() {
    let step = remove_silence_from_video(
        "in.mp4",
        "/a.b/.hidden",
        vec![silence(1.0, 2.0)],
        ProgressNotifier::new(false),
    );
    match step.export.advance(ExportEvent::Probed { info: info(5.0, true) }).export.stage {
        Stage::Preparing { plan } => assert_eq!(plan.temp_dir, "/a.b/.hidden.temp_parts"),
        _ => panic!("not preparing"),
    }
}

#[test]
fn plan_is_carried_out() {
    let export = transcoding();
    let plan = match &export.stage {
        Stage::Transcoding { plan } => plan,
        _ => panic!("not transcoding"),
    };
    let processor = plan.batches("ffmpeg", "in.mp4", ProgressNotifier::new(false));
    let batches = processor.process();
    assert_eq!(batches.len(), 1);
    assert_eq!(batches[0].output, "dir/out.temp_parts/part_0.ts");
    assert_eq!(batches[0].segments, plan.segments);
    assert_eq!(processor.max_concurrent_tasks, 4);
    let merge = plan.merge(1);
    assert_eq!(merge.list_path, "dir/out.temp_parts/list.txt");
    assert_eq!(merge.list, "file 'part_0.ts'\n");
    assert_eq!(merge.args.last().unwrap(), "dir/out.mp4");
}

fn plan_of(output_path: &str, has_video: bool) -> (String, String) {
    let step = remove_silence_from_video(
        "in.mp4",
        output_path,
        vec![silence(1.0, 2.0)],
        ProgressNotifier::new(false),
    );
    match step.export.advance(ExportEvent::Probed { info: info(5.0, has_video) }).export.stage {
        Stage::Preparing { plan } => (plan.output_path, plan.temp_dir),
        _ => panic!("not preparing"),
    }
}

#[test]
fn sound_only_output_on_all_kinds_of_paths() {
    for (given, stem) in [
        ("/o/a.mp3", "/o/a"),
        ("a.mp3", "a"),
        ("a", "a"),
        ("C:/v/a.mp3", "C:/v/a"),
        ("C:a.mp3", "C:a"),
        ("C:\\v\\a.mp3", "C:\\v\\a"),
        ("C:\\v\\a", "C:\\v\\a"),
        ("/o/10:30.mp3", "/o/10:30"),
        ("/o/x:y.mp3", "/o/x:y"),
        ("//server/share/a.mp3", "//server/share/a"),
        ("\\\\server\\share\\a.mp3", "\\\\server\\share\\a"),
        ("/o.x/a", "/o.x/a"),
        ("/o/.hidden", "/o/.hidden"),
        ("/o/a.mp3/", "/o/a"),
        ("/o/a.mp3/.", "/o/a"),
        ("x\\y/a.mp3", "x\\y/a"),
        ("x.y\\z/a", "x.y\\z/a"),
    ] {
        let (output_path, temp_dir) = plan_of(given, false);
        assert_eq!(output_path, format!("{}.m4a", stem));
        assert_eq!(temp_dir, format!("{}.temp_parts", stem));
        let (output_path, temp_dir) = plan_of(given, true);
        assert_eq!(output_path, given);
        assert_eq!(temp_dir, format!("{}.temp_parts", stem));
        assert_ne!(temp_dir, output_path);
    }
}
