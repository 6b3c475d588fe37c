//! What ffprobe reports of a recording.
use vstd::prelude::*;
use vstd::string::{StrSliceExecFns, StringExecFns};
use crate::double::{zero, Double};
use crate::paths::{file_name, is_file_name, text_of};
use crate::text::{decimal, digit, lemma_decimal_digits, push_text, same_text, texts};

verus! {

/// The two sides of a frame rate written as a fraction, each as far as it is a number.
#[derive(Clone, Copy, Debug, PartialEq, Eq, Structural)]
pub struct RateTerms {
    pub numerator: Option<Double>,
    pub denominator: Option<Double>,
}

/// One stream of a recording. `duration` is absent also where its text is no number.
#[derive(Clone, Debug)]
pub struct FfprobeStream {
    pub codec_type: Option<String>,
    pub codec_name: Option<String>,
    pub width: Option<u32>,
    pub height: Option<u32>,
    pub avg_frame_rate: Option<RateTerms>,
    pub duration: Option<Double>,
}

/// The container of a recording. `duration` is absent also where its text is no number.
#[derive(Clone, Debug)]
pub struct FfprobeFormat {
    pub format_name: Option<String>,
    pub duration: Option<Double>,
    pub bit_rate: Option<String>,
}

/// The report of ffprobe.
#[derive(Clone, Debug)]
pub struct FfprobeOutput {
    pub streams: Option<Vec<FfprobeStream>>,
    pub format: Option<FfprobeFormat>,
}

/// How a run of ffprobe ended.
#[derive(Clone, Debug)]
pub enum ProbeRun {
    /// The program failed with this error output.
    Failed { stderr: String },
    /// The program reported `output` of a file of this size.
    Reported { output: FfprobeOutput, size_bytes: u64 },
}

/// What is known of a recording.
#[derive(Clone, Debug)]
pub struct VideoInfo {
    pub path: String,
    pub filename: String,
    pub size_bytes: u64,
    pub duration: Double,
    pub format: Option<String>,
    pub codec_video: Option<String>,
    pub codec_audio: Option<String>,
    pub resolution: Option<(u32, u32)>,
    pub framerate: Option<Double>,
    pub bitrate: Option<u64>,
    pub has_video: bool,
    pub has_audio: bool,
}

/// What the streams of a recording tell of it.
#[derive(Clone, Debug)]
pub struct StreamSummary {
    pub has_video: bool,
    pub has_audio: bool,
    pub codec_video: Option<String>,
    pub codec_audio: Option<String>,
    pub resolution: Option<(u32, u32)>,
    pub framerate: Option<Double>,
    pub backup_duration: Double,
}

/// The stream is of the given kind.
pub open spec fn is_kind(stream: FfprobeStream, kind: Seq<char>) -> bool {
    match stream.codec_type {
        Some(t) => t@ == kind,
        None => false,
    }
}

/// The frame rate of a fraction: none where a side is no number or the lower one is zero.
pub open spec fn frame_rate(terms: RateTerms) -> Option<Double> {
    match (terms.numerator, terms.denominator) {
        (Some(n), Some(d)) => if d.equals(zero()) {
            None
        } else {
            Some(n.quotient(d))
        },
        _ => None,
    }
}

/// Nothing known yet.
pub open spec fn no_streams() -> StreamSummary {
    StreamSummary {
        has_video: false,
        has_audio: false,
        codec_video: None,
        codec_audio: None,
        resolution: None,
        framerate: None,
        backup_duration: zero(),
    }
}

/// What is known after one more stream.
pub open spec fn with_stream(known: StreamSummary, stream: FfprobeStream) -> StreamSummary {
    if is_kind(stream, "video"@) {
        StreamSummary {
            has_video: true,
            codec_video: stream.codec_name,
            resolution: match (stream.width, stream.height) {
                (Some(w), Some(h)) => Some((w, h)),
                _ => known.resolution,
            },
            framerate: match stream.avg_frame_rate {
                Some(terms) => frame_rate(terms),
                None => known.framerate,
            },
            backup_duration: if known.backup_duration.equals(zero()) {
                match stream.duration {
                    Some(d) => d,
                    None => zero(),
                }
            } else {
                known.backup_duration
            },
            ..known
        }
    } else if is_kind(stream, "audio"@) {
        StreamSummary { has_audio: true, codec_audio: stream.codec_name, ..known }
    } else {
        known
    }
}

/// What the first `n` streams tell.
pub open spec fn summary(streams: Seq<FfprobeStream>, n: int) -> StreamSummary
    decreases n,
{
    if n <= 0 {
        no_streams()
    } else {
        with_stream(summary(streams, n - 1), streams[n - 1])
    }
}

/// The streams of a report.
pub open spec fn streams_of(output: FfprobeOutput) -> Seq<FfprobeStream> {
    match output.streams {
        Some(v) => v@,
        None => Seq::empty(),
    }
}

pub open spec fn is_digit(c: char) -> bool {
    '0' <= c <= '9'
}

/// Value of a sequence of decimal digits.
pub open spec fn digits_number(s: Seq<char>) -> nat
    decreases s.len(),
{
    if s.len() == 0 {
        0
    } else {
        digits_number(s.drop_last()) * 10 + (s.last() as nat - '0' as nat) as nat
    }
}

/// The text without a leading plus sign.
pub open spec fn unsigned_part(s: Seq<char>) -> Seq<char> {
    if s.len() > 0 && s[0] == '+' {
        s.skip(1)
    } else {
        s
    }
}

/// The 64-bit number that a text stands for: an optional plus sign and decimal digits.
pub open spec fn number_of(s: Seq<char>) -> Option<u64> {
    let digits = unsigned_part(s);
    if digits.len() > 0 && digits.all(|c: char| is_digit(c)) && digits_number(digits) <= u64::MAX {
        Some(digits_number(digits) as u64)
    } else {
        None
    }
}

/// Reads a 64-bit number.
pub fn parse_number(text: &str) -> (r: Option<u64>)
    ensures
        r == number_of(text@),
{
    let len: usize = text.unicode_len();
    let mut i: usize = 0;
    if len > 0 && text.get_char(0) == '+' {
        i = 1;
    }
    let from: usize = i;
    let ghost digits = unsigned_part(text@);
    assert(from == 0 || from == 1);
    assert(digits =~= text@.skip(from as int));
    if i >= len {
        return None;
    }
    let mut value: u64 = 0;
    assert(digits.take(0) =~= Seq::<char>::empty());
    while i < len
        invariant
            from <= i <= len,
            from < len,
            len == text@.len(),
            digits == unsigned_part(text@),
            digits == text@.skip(from as int),
            value == digits_number(digits.take(i - from)),
            forall|j: int| 0 <= j < i - from ==> is_digit(#[trigger] digits[j]),
        decreases len - i,
    {
        let c: char = text.get_char(i);
        let ghost k = i - from;
        assert(digits[k] == c);
        if c < '0' || c > '9' {
            assert(!digits.all(|c: char| is_digit(c))) by {
                if digits.all(|c: char| is_digit(c)) {
                    let p = |c: char| is_digit(c);
                    assert(p(digits[k]));
                }
            }
            return None;
        }
        let d: u64 = (c as u32 - 48) as u64;
        proof {
            assert(digits.take(k + 1).drop_last() =~= digits.take(k));
            assert(digits.take(k + 1).last() == c);
        }
        if value > (u64::MAX - d) / 10 {
            proof {
                lemma_digits_number_grows(digits, k + 1);
            }
            return None;
        }
        value = value * 10 + d;
        i = i + 1;
    }
    assert(digits.take(digits.len() as int) =~= digits);
    assert(digits.all(|c: char| is_digit(c)));
    Some(value)
}

/// More digits never make a smaller number.
proof fn lemma_digits_number_grows(s: Seq<char>, n: int)
    requires
        0 <= n <= s.len(),
    ensures
        digits_number(s.take(n)) <= digits_number(s),
    decreases s.len() - n,
{
    if n == s.len() {
        assert(s.take(n) =~= s);
    } else {
        lemma_digits_number_grows(s, n + 1);
        assert(s.take(n + 1).drop_last() =~= s.take(n));
    }
}

/// The decimal notation of a 64-bit number is read as that number.
pub proof fn law_decimal_is_read_back(n: nat)
    requires
        n <= u64::MAX,
    ensures
        number_of(decimal(n)) == Some(n as u64),
{
    lemma_decimal_digits(n);
    lemma_decimal_number(n);
    let digits = decimal(n);
    assert('0' <= digits[0] <= '9');
    assert(digits.all(|c: char| is_digit(c)));
}

/// The decimal notation of a number has the value of that number.
pub proof fn lemma_decimal_number(n: nat)
    ensures
        digits_number(decimal(n)) == n,
    decreases n,
{
    let s = decimal(n);
    if n < 10 {
        assert(s.drop_last() =~= Seq::<char>::empty());
        assert(s.last() == digit(n as int));
        assert(digits_number(s.drop_last()) == 0);
    } else {
        lemma_decimal_number(n / 10);
        assert(s.drop_last() =~= decimal(n / 10));
        assert(s.last() == digit((n % 10) as int));
    }
}

/// Splits the text of a frame rate at its first slash.
pub fn split_framerate(fps_str: &str) -> (r: Option<(String, String)>)
    ensures
        match r {
            Some((n, d)) => fps_str@ == n@ + seq!['/'] + d@ && !n@.contains('/'),
            None => !fps_str@.contains('/'),
        },
{
    let len: usize = fps_str.unicode_len();
    let mut i: usize = 0;
    while i < len
        invariant
            i <= len,
            len == fps_str@.len(),
            forall|j: int| 0 <= j < i ==> #[trigger] fps_str@[j] != '/',
        decreases len - i,
    {
        if fps_str.get_char(i) == '/' {
            let n: String = fps_str.substring_char(0, i).to_owned();
            let d: String = fps_str.substring_char(i + 1, len).to_owned();
            assert(fps_str@ =~= n@ + seq!['/'] + d@);
            return Some((n, d));
        }
        i = i + 1;
    }
    None
}

/// The frame rate of a fraction.
pub fn parse_framerate(terms: RateTerms) -> (r: Option<Double>)
    ensures
        r == frame_rate(terms),
{
    match (terms.numerator, terms.denominator) {
        (Some(n), Some(d)) => {
            if d.same_value(Double { bits: 0 }) {
                None
            } else {
                Some(n.over(d))
            }
        },
        _ => None,
    }
}

fn copy_text(text: &Option<String>) -> (r: Option<String>)
    ensures
        r == *text,
{
    match text {
        Some(t) => Some(t.clone()),
        None => None,
    }
}

fn has_kind(stream: &FfprobeStream, kind: &str) -> (r: bool)
    ensures
        r == is_kind(*stream, kind@),
{
    match &stream.codec_type {
        Some(t) => same_text(t.as_str(), kind),
        None => false,
    }
}

/// What one more stream tells.
fn add_stream(known: StreamSummary, stream: &FfprobeStream) -> (r: StreamSummary)
    ensures
        r == with_stream(known, *stream),
{
    let mut known: StreamSummary = known;
    if has_kind(stream, "video") {
        known.has_video = true;
        known.codec_video = copy_text(&stream.codec_name);
        match (stream.width, stream.height) {
            (Some(w), Some(h)) => {
                known.resolution = Some((w, h));
            },
            _ => {},
        }
        match stream.avg_frame_rate {
            Some(terms) => {
                known.framerate = parse_framerate(terms);
            },
            None => {},
        }
        if known.backup_duration.same_value(Double { bits: 0 }) {
            known.backup_duration = match stream.duration {
                Some(d) => d,
                None => Double { bits: 0 },
            };
        }
    } else if has_kind(stream, "audio") {
        known.has_audio = true;
        known.codec_audio = copy_text(&stream.codec_name);
    }
    known
}

/// What the streams of a recording tell of it.
pub fn summarize_streams(streams: &Vec<FfprobeStream>) -> (r: StreamSummary)
    ensures
        r == summary(streams@, streams@.len() as int),
{
    let mut known: StreamSummary = StreamSummary {
        has_video: false,
        has_audio: false,
        codec_video: None,
        codec_audio: None,
        resolution: None,
        framerate: None,
        backup_duration: Double { bits: 0 },
    };
    let mut i: usize = 0;
    while i < streams.len()
        invariant
            i <= streams@.len(),
            known == summary(streams@, i as int),
        decreases streams@.len() - i,
    {
        known = add_stream(known, &streams[i]);
        i = i + 1;
    }
    known
}

/// The arguments with which ffprobe reports on a file.
pub fn probe_command(video_path: &str) -> (r: Vec<String>)
    ensures
        texts(r@) == seq![
            "-v"@,
            "quiet"@,
            "-print_format"@,
            "json"@,
            "-show_format"@,
            "-show_streams"@,
            video_path@,
        ],
{
    let mut args: Vec<String> = Vec::new();
    push_text(&mut args, "-v");
    push_text(&mut args, "quiet");
    push_text(&mut args, "-print_format");
    push_text(&mut args, "json");
    push_text(&mut args, "-show_format");
    push_text(&mut args, "-show_streams");
    push_text(&mut args, video_path);
    args
}

/// The information `info` is what a report tells of the file at `path`.
pub open spec fn describes(
    info: VideoInfo,
    path: Seq<char>,
    output: FfprobeOutput,
    size_bytes: u64,
    file_name: Option<Seq<char>>,
) -> bool {
    let streams = streams_of(output);
    let known = summary(streams, streams.len() as int);
    &&& info.path@ == path
    &&& info.filename@ == (match file_name {
        Some(name) => name,
        None => "unknown"@,
    })
    &&& info.size_bytes == size_bytes
    &&& info.duration == (match output.format {
        Some(f) => match f.duration {
            Some(d) => d,
            None => known.backup_duration,
        },
        None => known.backup_duration,
    })
    &&& info.format == (match output.format {
        Some(f) => f.format_name,
        None => None,
    })
    &&& info.bitrate == (match output.format {
        Some(f) => match f.bit_rate {
            Some(b) => number_of(b@),
            None => None,
        },
        None => None,
    })
    &&& info.codec_video == known.codec_video
    &&& info.codec_audio == known.codec_audio
    &&& info.resolution == known.resolution
    &&& info.framerate == known.framerate
    &&& info.has_video == known.has_video
    &&& info.has_audio == known.has_audio
}

/// What a report tells of the file at `video_path`, whose name is `file_name`.
pub fn describe(
    video_path: &str,
    output: FfprobeOutput,
    size_bytes: u64,
    file_name: Option<String>,
) -> (r: VideoInfo)
    ensures
        describes(r, video_path@, output, size_bytes, text_of(file_name)),
{
    let known: StreamSummary = match &output.streams {
        Some(streams) => summarize_streams(streams),
        None => summarize_streams(&Vec::new()),
    };
    let filename: String = match file_name {
        Some(name) => name,
        None => "unknown".to_owned(),
    };
    let (format, duration, bitrate): (Option<String>, Double, Option<u64>) = match output.format {
        Some(f) => {
            let duration: Double = match f.duration {
                Some(d) => d,
                None => known.backup_duration,
            };
            let bitrate: Option<u64> = match &f.bit_rate {
                Some(b) => parse_number(b.as_str()),
                None => None,
            };
            (f.format_name, duration, bitrate)
        },
        None => (None, known.backup_duration, None),
    };
    VideoInfo {
        path: video_path.to_owned(),
        filename,
        size_bytes,
        duration,
        format,
        codec_video: known.codec_video,
        codec_audio: known.codec_audio,
        resolution: known.resolution,
        framerate: known.framerate,
        bitrate,
        has_video: known.has_video,
        has_audio: known.has_audio,
    }
}

/// What a run of ffprobe tells of the file at `video_path`, or the text of its failure. The name
/// of the file is what the platform takes for the last component of the path.
pub fn get_video_info(video_path: &str, run: ProbeRun) -> (r: Result<VideoInfo, String>)
    ensures
        match run {
            ProbeRun::Failed { stderr } => r matches Err(e) && e@ == "FFprobe 执行失败: "@ + stderr@,
            ProbeRun::Reported { output, size_bytes } => r matches Ok(info) && exists|
                name: Option<Seq<char>>,
            |
                is_file_name(name, video_path@) && #[trigger] describes(
                    info,
                    video_path@,
                    output,
                    size_bytes,
                    name,
                ),
        },
{
    match run {
        ProbeRun::Failed { stderr } => {
            let mut message: String = "FFprobe 执行失败: ".to_owned();
            message.append(stderr.as_str());
            Err(message)
        },
        ProbeRun::Reported { output, size_bytes } => {
            Ok(describe(video_path, output, size_bytes, file_name(video_path)))
        },
    }
}

/// No stream is both of one kind and of the other.
proof fn lemma_kinds_differ()
    ensures
        "video"@ != "audio"@,
{
    reveal_strlit("video");
    reveal_strlit("audio");
    assert("video"@[0] == 'v');
    assert("audio"@[0] == 'a');
}

/// A recording has a picture exactly when one of its streams is a video stream, and sound
/// exactly when one of them is an audio stream.
pub proof fn law_streams_decide(streams: Seq<FfprobeStream>, n: int)
    requires
        0 <= n <= streams.len(),
    ensures
        summary(streams, n).has_video <==> exists|i: int|
            0 <= i < n && is_kind(#[trigger] streams[i], "video"@),
        summary(streams, n).has_audio <==> exists|i: int|
            0 <= i < n && is_kind(#[trigger] streams[i], "audio"@),
    decreases n,
{
    lemma_kinds_differ();
    if n > 0 {
        law_streams_decide(streams, n - 1);
    }
}

/// The last video stream decides: its codec is reported, and so are its resolution and its
/// frame rate where it tells them.
pub proof fn law_last_video_stream_wins(streams: Seq<FfprobeStream>, n: int, k: int)
    requires
        0 <= k < n <= streams.len(),
        is_kind(streams[k], "video"@),
        forall|i: int| k < i < n ==> !is_kind(#[trigger] streams[i], "video"@),
    ensures
        summary(streams, n).codec_video == streams[k].codec_name,
        streams[k].width is Some && streams[k].height is Some ==> summary(streams, n).resolution
            == Some((streams[k].width.unwrap(), streams[k].height.unwrap())),
        streams[k].avg_frame_rate matches Some(terms) ==> summary(streams, n).framerate
            == frame_rate(terms),
    decreases n,
{
    lemma_kinds_differ();
    if n - 1 > k {
        law_last_video_stream_wins(streams, n - 1, k);
    }
}

/// The stream tells a duration other than zero.
pub open spec fn tells_duration(stream: FfprobeStream) -> bool {
    match stream.duration {
        Some(d) => is_kind(stream, "video"@) && !d.equals(zero()),
        None => false,
    }
}

/// Where the container tells no duration, that of the first video stream that tells one
/// other than zero is taken.
pub proof fn law_first_told_duration_is_taken(streams: Seq<FfprobeStream>, n: int, k: int)
    requires
        0 <= k < n <= streams.len(),
        tells_duration(streams[k]),
        forall|i: int| 0 <= i < k ==> !tells_duration(#[trigger] streams[i]),
    ensures
        Some(summary(streams, n).backup_duration) == streams[k].duration,
    decreases n,
{
    lemma_kinds_differ();
    if n - 1 > k {
        law_first_told_duration_is_taken(streams, n - 1, k);
    } else {
        lemma_nothing_told(streams, k);
    }
}

proof fn lemma_nothing_told(streams: Seq<FfprobeStream>, n: int)
    requires
        0 <= n <= streams.len(),
        forall|i: int| 0 <= i < n ==> !tells_duration(#[trigger] streams[i]),
    ensures
        summary(streams, n).backup_duration.equals(zero()),
    decreases n,
{
    lemma_kinds_differ();
    if n > 0 {
        lemma_nothing_told(streams, n - 1);
        assert(!tells_duration(streams[n - 1]));
    }
}

} // verus!
