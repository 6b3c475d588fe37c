use silence_cutter::commands::{
    audio_missing, batch_process, detect_silences, detection_notice, extract_audio,
    extract_audio_failure, ffprobe_tool, first_step, get_video_info, next_step, process_video,
    respond, tools, RequestEvent, RequestStep, VideoProcessRequest,
};
use silence_cutter::double::Double;
use silence_cutter::result::{ProcessResult, ProcessResultBuilder};
use silence_cutter::segments::SilenceSegment;

fn d(x: f64) -> Double {
    Double { bits: x.to_bits() }
}

fn request() -> VideoProcessRequest {
    VideoProcessRequest {
        input_path: "clips/talk.mp4".to_string(),
        output_path: None,
        threshold_db: d(-35.0),
        min_silence_duration: d(0.5),
        sample_rate: None,
        segments: None,
    }
}

fn some(path: &str) -> Option<String> {
    Some(path.to_string())
}

fn result() -> ProcessResult {
    ProcessResultBuilder::build(
        "in.mp4", "out.mp4", d(10.0), d(8.0), 3, d(2.0), d(1.0), true, None,
    )
}

#[test]
fn tools_must_be_there() {
    assert_eq!(tools(None, None).unwrap_err(), "FFmpeg not found");
    assert_eq!(tools(None, some("p")).unwrap_err(), "FFmpeg not found");
    assert_eq!(tools(some("m"), None).unwrap_err(), "FFprobe not found");
    assert_eq!(tools(some("m"), some("p")).unwrap(), ("m".to_string(), "p".to_string()));
    assert_eq!(ffprobe_tool(None).unwrap_err(), "FFprobe not found");
    assert_eq!(ffprobe_tool(some("p")).unwrap(), "p");
}

#[test]
fn request_with_defaults() {
    let task = process_video(some("m"), some("p"), request()).unwrap();
    assert_eq!(task.ffmpeg_path, "m");
    assert_eq!(task.ffprobe_path, "p");
    assert_eq!(task.input_path, "clips/talk.mp4");
    assert!(task.output_path.starts_with("clips/talk_"));
    assert!(task.output_path.ends_with("_cut.mp4"));
    assert_eq!(task.sample_rate, 16000);
    assert_eq!(task.threshold_db, d(-35.0));
    assert_eq!(task.min_silence_duration, d(0.5));
    assert!(task.silences.is_none());
}

#[test]
fn request_with_all_that_can_be_given() {
    let mut r = request();
    r.output_path = some("out.mp4");
    r.sample_rate = Some(44100);
    r.segments = Some(vec![]);
    let task = process_video(some("m"), some("p"), r).unwrap();
    assert_eq!(task.output_path, "out.mp4");
    assert_eq!(task.sample_rate, 44100);
    assert_eq!(task.silences, Some(vec![]));
}

#[test]
fn request_without_tools() {
    assert_eq!(process_video(None, some("p"), request()).unwrap_err(), "FFmpeg not found");
    assert_eq!(process_video(some("m"), None, request()).unwrap_err(), "FFprobe not found");
}

#[test]
fn answer_to_a_success() {
    let answer = respond(Ok(result()), d(5.5)).unwrap();
    assert!(answer.success);
    assert_eq!(answer.message, "视频处理完成");
    assert_eq!(answer.original_duration, d(10.0));
    assert_eq!(answer.processed_duration, d(8.0));
    assert_eq!(answer.silence_segments, 3);
    assert_eq!(answer.total_silence_removed, d(2.0));
    assert_eq!(answer.compression_ratio, d(20.0));
    assert_eq!(answer.output_path, "out.mp4");
    assert_eq!(answer.processing_time, d(5.5));
}

#[test]
fn answer_to_a_cancellation() {
    let answer = respond(Err("EXPORT_CANCELLED".to_string()), d(0.0));
    assert_eq!(answer.unwrap_err(), "EXPORT_CANCELLED");
}

#[test]
fn answer_to_a_failure() {
    let answer = respond(Err("合并片段失败".to_string()), d(0.0));
    assert_eq!(answer.unwrap_err(), "视频处理失败: 合并片段失败");
    let answer = respond(Err("EXPORT_CANCELLED ".to_string()), d(0.0));
    assert_eq!(answer.unwrap_err(), "视频处理失败: EXPORT_CANCELLED ");
}

#[test]
fn extraction_is_announced() {
    let x = extract_audio(some("m"), some("p"), "a.mp4".to_string(), None).unwrap();
    assert_eq!(x.ffmpeg_path, "m");
    assert_eq!(x.ffprobe_path, "p");
    assert_eq!(x.path, "a.mp4");
    assert_eq!(x.sample_rate, 16000);
    assert_eq!(x.threshold_db, d(-40.0));
    assert_eq!(x.notice.stage, "extracting");
    assert_eq!(x.notice.message, "正在流式提取音频...");
    assert_eq!(x.notice.percent, 5);
    let x = extract_audio(some("m"), some("p"), "a.mp4".to_string(), Some(8000)).unwrap();
    assert_eq!(x.sample_rate, 8000);
    let missing = extract_audio(None, None, "a.mp4".to_string(), None);
    assert_eq!(missing.unwrap_err(), "FFmpeg not found");
    let missing = extract_audio(some("m"), None, "a.mp4".to_string(), None);
    assert_eq!(missing.unwrap_err(), "FFprobe not found");
}

#[test]
fn detection_is_announced() {
    let notice = detection_notice();
    assert_eq!(notice.stage, "detecting");
    assert_eq!(notice.message, "正在分析音频静音片段...");
    assert_eq!(notice.percent, 60);
}

#[test]
fn failures_are_explained() {
    let error = || "why".to_string();
    assert_eq!(get_video_info(Err(error())).unwrap_err(), "获取视频信息失败: why");
    assert_eq!(extract_audio_failure("why"), "提取音频失败: why");
    assert_eq!(audio_missing("why"), "音频提取失败: why");
    assert_eq!(detect_silences(Err(error())).unwrap_err(), "静音检测失败: why");
    assert_eq!(batch_process(Err(error())).unwrap_err(), "批量处理失败: why");
}

#[test]
fn successes_are_passed_on() {
    assert_eq!(detect_silences(Ok(vec![])).unwrap(), vec![]);
    assert_eq!(batch_process(Ok(vec![result()])).unwrap().len(), 1);
}

fn silence(start: f64, end: f64) -> SilenceSegment {
    SilenceSegment { start_time: d(start), end_time: d(end), duration: d(end - start) }
}

#[test]
fn given_silences_are_exported_at_once() {
    let mut r = request();
    r.segments = Some(vec![silence(1.0, 2.0)]);
    let task = process_video(some("m"), some("p"), r).unwrap();
    match first_step(&task) {
        RequestStep::Export { silences } => assert_eq!(silences, vec![silence(1.0, 2.0)]),
        _ => panic!("not exported"),
    }
}

#[test]
fn missing_silences_are_detected_in_the_extracted_sound() {
    let task = process_video(some("m"), some("p"), request()).unwrap();
    match first_step(&task) {
        RequestStep::Extract { sample_rate } => assert_eq!(sample_rate, 16000),
        _ => panic!("not extracted"),
    }
    let event = RequestEvent::Extracted { cache_id: "c1".to_string(), sample_rate: 22050 };
    match next_step(&task, event) {
        RequestStep::Detect { cache_id, sample_rate, threshold_db, min_silence_duration } => {
            assert_eq!(cache_id, "c1");
            assert_eq!(sample_rate, 22050);
            assert_eq!(threshold_db, d(-35.0));
            assert_eq!(min_silence_duration, d(0.5));
        }
        _ => panic!("not detected"),
    }
    match next_step(&task, RequestEvent::Detected { silences: vec![silence(3.0, 4.0)] }) {
        RequestStep::Export { silences } => assert_eq!(silences, vec![silence(3.0, 4.0)]),
        _ => panic!("not exported"),
    }
}

#[test]
fn failures_end_the_request() {
    let task = process_video(some("m"), some("p"), request()).unwrap();
    let refused = |event: RequestEvent| match next_step(&task, event) {
        RequestStep::Refuse { message } => message,
        _ => panic!("not refused"),
    };
    let error = || "why".to_string();
    assert_eq!(refused(RequestEvent::ExtractionFailed { error: error() }), "音频提取失败: why");
    assert_eq!(refused(RequestEvent::DetectionFailed { error: error() }), "静音检测失败: why");
}
