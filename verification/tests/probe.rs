use silence_cutter::double::Double;
use silence_cutter::probe::{
    get_video_info, parse_framerate, parse_number, probe_command, split_framerate, FfprobeFormat,
    FfprobeOutput, FfprobeStream, ProbeRun, RateTerms, VideoInfo,
};

fn d(x: f64) -> Double {
    Double { bits: x.to_bits() }
}

fn terms(n: f64, m: f64) -> RateTerms {
    RateTerms { numerator: Some(d(n)), denominator: Some(d(m)) }
}

fn video(codec: &str) -> FfprobeStream {
    FfprobeStream {
        codec_type: Some("video".to_string()),
        codec_name: Some(codec.to_string()),
        width: None,
        height: None,
        avg_frame_rate: None,
        duration: None,
    }
}

fn audio(codec: &str) -> FfprobeStream {
    FfprobeStream { codec_type: Some("audio".to_string()), ..video(codec) }
}

fn info(path: &str, streams: Option<Vec<FfprobeStream>>, format: Option<FfprobeFormat>) -> VideoInfo {
    let output = FfprobeOutput { streams, format };
    get_video_info(path, ProbeRun::Reported { output, size_bytes: 321 }).unwrap()
}

#[test]
fn numbers_are_read() {
    assert_eq!(parse_number("0"), Some(0));
    assert_eq!(parse_number("+128000"), Some(128000));
    assert_eq!(parse_number("0042"), Some(42));
    assert_eq!(parse_number("18446744073709551615"), Some(u64::MAX));
}

#[test]
fn other_texts_are_no_numbers() {
    for text in ["", "+", "-1", "1.5", "N/A", "12a", " 1", "18446744073709551616", "++1"] {
        assert_eq!(parse_number(text), None);
        assert!(text.parse::<u64>().is_err());
    }
}

#[test]
fn numbers_are_read_back_from_their_digits() {
    for n in [0u64, 7, 10, 99, 128_000, u64::MAX] {
        assert_eq!(parse_number(&n.to_string()), Some(n));
    }
}

#[test]
fn frame_rate_is_split_at_the_first_slash() {
    assert_eq!(split_framerate("30000/1001"), Some(("30000".to_string(), "1001".to_string())));
    assert_eq!(split_framerate("a/b/c"), Some(("a".to_string(), "b/c".to_string())));
    assert_eq!(split_framerate("25"), None);
}

#[test]
fn frame_rate_is_a_quotient() {
    let rate = parse_framerate(terms(30000.0, 1001.0)).unwrap();
    assert_eq!(rate.bits, (30000.0f64 / 1001.0).to_bits());
    assert_eq!(parse_framerate(terms(0.0, 0.0)), None);
    assert_eq!(parse_framerate(terms(1.0, -0.0)), None);
    assert_eq!(parse_framerate(RateTerms { numerator: None, denominator: Some(d(1.0)) }), None);
    assert_eq!(parse_framerate(RateTerms { numerator: Some(d(1.0)), denominator: None }), None);
}

#[test]
fn full_report() {
    let mut picture = video("h264");
    picture.width = Some(1920);
    picture.height = Some(1080);
    picture.avg_frame_rate = Some(terms(25.0, 1.0));
    picture.duration = Some(d(59.5));
    let format = FfprobeFormat {
        format_name: Some("mov,mp4".to_string()),
        duration: Some(d(60.25)),
        bit_rate: Some("4128000".to_string()),
    };
    let info = info("clips/talk.mp4", Some(vec![picture, audio("aac")]), Some(format));
    assert_eq!(info.path, "clips/talk.mp4");
    assert_eq!(info.filename, "talk.mp4");
    assert_eq!(info.size_bytes, 321);
    assert_eq!(info.duration, d(60.25));
    assert_eq!(info.format, Some("mov,mp4".to_string()));
    assert_eq!(info.codec_video, Some("h264".to_string()));
    assert_eq!(info.codec_audio, Some("aac".to_string()));
    assert_eq!(info.resolution, Some((1920, 1080)));
    assert_eq!(info.framerate, Some(d(25.0)));
    assert_eq!(info.bitrate, Some(4128000));
    assert!(info.has_video && info.has_audio);
}

#[test]
fn empty_report() {
    let info = info("..", None, None);
    assert_eq!(info.filename, "unknown");
    assert_eq!(info.duration, d(0.0));
    assert_eq!(info.format, None);
    assert_eq!(info.bitrate, None);
    assert!(!info.has_video && !info.has_audio);
}

#[test]
fn sound_only_report() {
    let mut other = video("png");
    other.codec_type = None;
    let mut sound = audio("mp3");
    sound.duration = Some(d(12.0));
    let info = info("a.mp3", Some(vec![sound, other]), None);
    assert!(!info.has_video && info.has_audio);
    assert_eq!(info.codec_video, None);
    // only video streams stand in for a missing duration
    assert_eq!(info.duration, d(0.0));
}

#[test]
fn last_video_stream_decides() {
    let mut first = video("h264");
    first.width = Some(640);
    first.height = Some(480);
    first.avg_frame_rate = Some(terms(25.0, 1.0));
    first.duration = Some(d(8.0));
    let mut second = video("mjpeg");
    second.avg_frame_rate = Some(terms(0.0, 0.0));
    second.width = Some(1);
    second.duration = Some(d(9.0));
    let info = info("a.mp4", Some(vec![first, audio("aac"), second]), None);
    assert_eq!(info.codec_video, Some("mjpeg".to_string()));
    assert_eq!(info.resolution, Some((640, 480)));
    assert_eq!(info.framerate, None);
    assert_eq!(info.duration, d(8.0));
}

#[test]
fn first_told_duration_is_taken() {
    let mut zero = video("a");
    zero.duration = Some(d(-0.0));
    let mut told = video("b");
    told.duration = Some(d(4.5));
    let mut later = video("c");
    later.duration = Some(d(7.0));
    let format = FfprobeFormat { format_name: None, duration: None, bit_rate: Some("N/A".to_string()) };
    let info = info("a.mp4", Some(vec![zero, told, later]), Some(format));
    assert_eq!(info.duration, d(4.5));
    assert_eq!(info.bitrate, None);
}

#[test]
fn failed_probe_is_told() {
    let run = ProbeRun::Failed { stderr: "no such file".to_string() };
    let error = get_video_info("a.mp4", run).unwrap_err();
    assert_eq!(error, "FFprobe 执行失败: no such file");
}

#[test]
fn arguments_of_the_probe() {
    let expected = vec![
        "-v", "quiet", "-print_format", "json", "-show_format", "-show_streams", "a b.mp4",
    ];
    assert_eq!(probe_command("a b.mp4"), expected);
}

#[test]
fn file_names_of_all_kinds_of_paths() {
    for (path, name) in [
        ("/o/10:30.mp4", "10:30.mp4"),
        ("C:/v/a.mp4", "a.mp4"),
        ("/v/a.mp4/", "a.mp4"),
        ("/v/a.mp4/.", "a.mp4"),
        ("x\\y/c.mp4", "c.mp4"),
        ("x\\y/..", "unknown"),
        ("/.", "unknown"),
        ("v/./a", "a"),
        ("//server/share/a.mp4", "a.mp4"),
        ("/", "unknown"),
        ("", "unknown"),
        ("v/..", "unknown"),
    ] {
        assert_eq!(info(path, None, None).filename, name);
    }
}
