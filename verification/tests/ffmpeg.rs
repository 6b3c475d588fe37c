use silence_cutter::double::Double;
use silence_cutter::ffmpeg::{
    batch_filter, batch_outcome, part_file_name, process_batch_to_ts, video_kbps, ConcatMerger,
};
use silence_cutter::segments::SpeechSegment;

fn seg(start: f64, end: f64) -> SpeechSegment {
    SpeechSegment { start: Double { bits: start.to_bits() }, end: Double { bits: end.to_bits() } }
}

fn at(x: f64) -> Double {
    Double { bits: x.to_bits() }
}

#[test]
fn filter_with_picture() {
    assert_eq!(
        batch_filter(&[seg(10.0, 12.5), seg(13.25, 14.0)], true, at(10.0)),
        "[0:v]trim=start=0.000:duration=2.500,setpts=PTS-STARTPTS[v0];\
         [0:a]atrim=start=0.000:duration=2.500,asetpts=PTS-STARTPTS[a0];\
         [0:v]trim=start=3.250:duration=0.750,setpts=PTS-STARTPTS[v1];\
         [0:a]atrim=start=3.250:duration=0.750,asetpts=PTS-STARTPTS[a1];\
         [v0][v1]concat=n=2:v=1:a=0[fv];[a0][a1]concat=n=2:v=0:a=1[fa]"
    );
}

#[test]
fn filter_with_sound_only() {
    assert_eq!(
        batch_filter(&[seg(1.0, 2.0)], false, at(1.0)),
        "[0:a]atrim=start=0.000:duration=1.000,asetpts=PTS-STARTPTS[a0];\
         [a0]concat=n=1:v=0:a=1[fa]"
    );
}

#[test]
fn filter_never_shows_negative_times() {
    assert_eq!(
        batch_filter(&[seg(1.0, 0.5)], false, at(3.0)),
        "[0:a]atrim=start=0.000:duration=0.000,asetpts=PTS-STARTPTS[a0];\
         [a0]concat=n=1:v=0:a=1[fa]"
    );
}

#[test]
fn bitrate_follows_the_recording() {
    assert_eq!(video_kbps(None), 5000);
    assert_eq!(video_kbps(Some(0)), 5000);
    assert_eq!(video_kbps(Some(100_000)), 1000);
    assert_eq!(video_kbps(Some(1_128_000)), 1000);
    assert_eq!(video_kbps(Some(4_128_999)), 4000);
    assert_eq!(video_kbps(Some(15_128_000)), 15000);
    assert_eq!(video_kbps(Some(u64::MAX)), 15000);
}

#[test]
fn bitrate_leaves_room_for_the_sound() {
    for b in [1_128_000u64, 2_000_001, 9_999_999, 20_000_000] {
        assert!(1000 * video_kbps(Some(b)) + 128_000 <= b);
    }
}

fn command(has_video: bool, bitrate: Option<u64>, macos: bool) -> Vec<String> {
    process_batch_to_ts(
        "in.mp4",
        "tmp/part_0.ts",
        &[seg(2.5, 4.0)],
        has_video,
        at(2.5),
        "2.5",
        bitrate,
        macos,
    )
}

#[test]
fn batch_command_with_libx264() {
    let filter = batch_filter(&[seg(2.5, 4.0)], true, at(2.5));
    let expected = vec![
        "-nostdin", "-ss", "2.5", "-i", "in.mp4", "-filter_complex", filter.as_str(), "-map",
        "[fv]", "-c:v", "libx264", "-crf", "23", "-maxrate", "4000k", "-bufsize", "8000k",
        "-preset", "superfast", "-map", "[fa]", "-c:a", "aac", "-b:a", "128k", "-f", "mpegts",
        "-y", "tmp/part_0.ts",
    ];
    assert_eq!(command(true, Some(4_128_000), false), expected);
}

#[test]
fn batch_command_with_videotoolbox() {
    let filter = batch_filter(&[seg(2.5, 4.0)], true, at(2.5));
    let expected = vec![
        "-nostdin", "-ss", "2.5", "-i", "in.mp4", "-filter_complex", filter.as_str(), "-map",
        "[fv]", "-c:v", "h264_videotoolbox", "-b:v", "5000k", "-profile:v", "high", "-realtime",
        "true", "-map", "[fa]", "-c:a", "aac", "-b:a", "128k", "-f", "mpegts", "-y",
        "tmp/part_0.ts",
    ];
    assert_eq!(command(true, None, true), expected);
}

#[test]
fn batch_command_with_sound_only() {
    let filter = batch_filter(&[seg(2.5, 4.0)], false, at(2.5));
    let expected = vec![
        "-nostdin", "-ss", "2.5", "-i", "in.mp4", "-filter_complex", filter.as_str(), "-map",
        "[fa]", "-c:a", "aac", "-b:a", "128k", "-f", "mpegts", "-y", "tmp/part_0.ts",
    ];
    assert_eq!(command(false, Some(4_128_000), false), expected);
}

#[test]
fn merge_with_picture() {
    let merge = ConcatMerger::merge("out.temp_parts", "out.mp4", 3, true);
    let list_path = std::path::Path::new("out.temp_parts").join("list.txt");
    let list_path = list_path.to_str().unwrap();
    assert_eq!(merge.list_path, list_path);
    assert_eq!(merge.list, "file 'part_0.ts'\nfile 'part_1.ts'\nfile 'part_2.ts'\n");
    let expected = vec![
        "-f", "concat", "-safe", "0", "-i", list_path, "-c", "copy", "-movflags", "+faststart",
        "-y", "out.mp4",
    ];
    assert_eq!(merge.args, expected);
}

#[test]
fn merge_with_sound_only() {
    let merge = ConcatMerger::merge("/tmp/out.temp_parts/", "out.m4a", 0, false);
    assert_eq!(merge.list_path, "/tmp/out.temp_parts/list.txt");
    assert_eq!(merge.list, "");
    let expected = vec![
        "-f", "concat", "-safe", "0", "-i", "/tmp/out.temp_parts/list.txt", "-c:a", "copy", "-y",
        "out.m4a",
    ];
    assert_eq!(merge.args, expected);
}

#[test]
fn list_names_the_parts_in_order() {
    let list = ConcatMerger::list(12);
    let lines: Vec<&str> = list.lines().collect();
    assert_eq!(lines.len(), 12);
    for (i, line) in lines.iter().enumerate() {
        assert_eq!(*line, format!("file '{}'", part_file_name(i)));
    }
}

#[test]
fn part_names_differ() {
    assert_eq!(part_file_name(0), "part_0.ts");
    assert_eq!(part_file_name(27), "part_27.ts");
    assert_ne!(part_file_name(1), part_file_name(11));
}

#[test]
fn outcomes_of_the_commands() {
    assert_eq!(batch_outcome(true), Ok(()));
    assert_eq!(batch_outcome(false), Err("FFmpeg Batch Error".to_string()));
    assert_eq!(ConcatMerger::outcome(true), Ok(()));
    assert_eq!(ConcatMerger::outcome(false), Err("合并片段失败".to_string()));
}

#[test]
fn trims_keep_the_times_of_segments_ahead() {
    let filter = batch_filter(&[seg(7.5, 9.0), seg(10.125, 11.0)], false, at(7.25));
    assert!(filter.contains("start=0.250:duration=1.500"));
    assert!(filter.contains("start=2.875:duration=0.875"));
}

#[test]
fn list_lies_in_the_directory_of_the_parts() {
    let path = |dir: &str| ConcatMerger::merge(dir, "/o/a.mp4", 2, true).list_path;
    assert_eq!(path("/t"), "/t/list.txt");
    assert_eq!(path("/t/"), "/t/list.txt");
    assert_eq!(path(""), "list.txt");
    assert_eq!(path("t"), "t/list.txt");
    assert_eq!(path("C:/t"), "C:/t/list.txt");
}
