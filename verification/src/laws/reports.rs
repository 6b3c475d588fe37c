//! Laws on what is read from the report of ffprobe.
use vstd::prelude::*;
use vstd::arithmetic::power2::pow2;
use crate::double::{lemma_quotient_units, round_units, Double, UNIT};
use crate::laws::naming::{lemma_front, plain_front};
use crate::paths::{dots, file_of, is_file_name, names, separator_free};
use crate::probe::{
    describe, describes, digits_number, frame_rate, get_video_info, is_digit,
    law_decimal_is_read_back, parse_framerate, parse_number, probe_command, split_framerate,
    summarize_streams, summary, FfprobeOutput, FfprobeStream, ProbeRun, RateTerms, StreamSummary,
    VideoInfo,
};
use crate::rounding::scale;
use crate::text::{decimal, texts};

verus! {

/// The type of the stream is `kind`.
pub open spec fn of_type(stream: FfprobeStream, kind: Seq<char>) -> bool {
    stream.codec_type matches Some(t) && t@ == kind
}

pub open spec fn is_picture(stream: FfprobeStream) -> bool {
    of_type(stream, "video"@)
}

pub open spec fn is_sound(stream: FfprobeStream) -> bool {
    of_type(stream, "audio"@)
}

proof fn lemma_types_differ()
    ensures
        "video"@ != "audio"@,
{
    reveal_strlit("video");
    reveal_strlit("audio");
    assert("video"@[0] == 'v');
    assert("audio"@[0] == 'a');
}

/// Where the container tells a duration, that is the duration, whatever the streams are.
pub proof fn law_container_duration_counts(
    path: &str,
    output: FfprobeOutput,
    size_bytes: u64,
    file_name: Option<String>,
    info: VideoInfo,
    duration: Double,
)
    requires
        call_ensures(describe, (path, output, size_bytes, file_name), info),
        output.format matches Some(f) && f.duration == Some(duration),
    ensures
        info.duration == duration,
{
}

/// Two reports whose containers tell the same duration give the same duration.
pub proof fn law_streams_do_not_change_the_duration(
    path: &str,
    a: FfprobeOutput,
    b: FfprobeOutput,
    size_a: u64,
    size_b: u64,
    name_a: Option<String>,
    name_b: Option<String>,
    info_a: VideoInfo,
    info_b: VideoInfo,
)
    requires
        call_ensures(describe, (path, a, size_a, name_a), info_a),
        call_ensures(describe, (path, b, size_b, name_b), info_b),
        a.format is Some,
        b.format is Some,
        a.format->0.duration is Some,
        a.format->0.duration == b.format->0.duration,
    ensures
        info_a.duration == info_b.duration,
{
}

/// Where the container tells no duration, the first picture stream that tells one other than zero
/// decides, and without such a stream the duration is zero.
pub proof fn law_stream_duration_stands_in(
    path: &str,
    output: FfprobeOutput,
    streams: Seq<FfprobeStream>,
    size_bytes: u64,
    file_name: Option<String>,
    info: VideoInfo,
    k: int,
)
    requires
        call_ensures(describe, (path, output, size_bytes, file_name), info),
        output.format is None || output.format->0.duration is None,
        streams == (match output.streams {
            Some(v) => v@,
            None => Seq::empty(),
        }),
        0 <= k <= streams.len(),
        forall|i: int|
            0 <= i < k && is_picture(#[trigger] streams[i]) && streams[i].duration is Some
                ==> !streams[i].duration->0.undefined() && streams[i].duration->0.units() == 0,
        k < streams.len() ==> is_picture(streams[k]) && streams[k].duration is Some && (
        streams[k].duration->0.undefined() || streams[k].duration->0.units() != 0),
    ensures
        k < streams.len() ==> Some(info.duration) == streams[k].duration,
        k == streams.len() ==> !info.duration.undefined() && info.duration.units() == 0,
{
    assert(scale(0) == 0);
    lemma_untold(streams, k);
    if k < streams.len() {
        lemma_told(streams, streams.len() as int, k);
    }
}

proof fn lemma_untold(streams: Seq<FfprobeStream>, n: int)
    requires
        0 <= n <= streams.len(),
        forall|i: int|
            0 <= i < n && is_picture(#[trigger] streams[i]) && streams[i].duration is Some
                ==> !streams[i].duration->0.undefined() && streams[i].duration->0.units() == 0,
    ensures
        !summary(streams, n).backup_duration.undefined(),
        summary(streams, n).backup_duration.units() == 0,
    decreases n,
{
    assert(scale(0) == 0);
    lemma_types_differ();
    if n > 0 {
        lemma_untold(streams, n - 1);
        assert(is_picture(streams[n - 1]) || !is_picture(streams[n - 1]));
    }
}

proof fn lemma_told(streams: Seq<FfprobeStream>, n: int, k: int)
    requires
        0 <= k < n <= streams.len(),
        is_picture(streams[k]),
        streams[k].duration is Some,
        streams[k].duration->0.undefined() || streams[k].duration->0.units() != 0,
        !summary(streams, k).backup_duration.undefined(),
        summary(streams, k).backup_duration.units() == 0,
    ensures
        Some(summary(streams, n).backup_duration) == streams[k].duration,
    decreases n,
{
    assert(scale(0) == 0);
    lemma_types_differ();
    if n - 1 > k {
        lemma_told(streams, n - 1, k);
    }
}

/// A text without a plus in front.
pub open spec fn bare(text: Seq<char>) -> Seq<char> {
    if text.len() > 0 && text[0] == '+' {
        text.skip(1)
    } else {
        text
    }
}

/// The text is made of decimal digits.
pub open spec fn all_digits(s: Seq<char>) -> bool {
    s.len() > 0 && forall|i: int| 0 <= i < s.len() ==> '0' <= #[trigger] s[i] <= '9'
}

proof fn lemma_all_digits(s: Seq<char>)
    ensures
        all_digits(s) <==> s.len() > 0 && s.all(|c: char| is_digit(c)),
{
    let p = |c: char| is_digit(c);
    if s.all(p) {
        assert forall|i: int| 0 <= i < s.len() implies '0' <= #[trigger] s[i] <= '9' by {
            assert(p(s[i]));
        }
    }
    if all_digits(s) {
        assert(s.all(p));
    }
}

/// The information repeats the path, the size, the name of the file or `unknown`, and the name of
/// the format; the bitrate is that of the container where its text is a number.
pub proof fn law_file_and_container_are_told(
    path: &str,
    output: FfprobeOutput,
    size_bytes: u64,
    file_name: Option<String>,
    info: VideoInfo,
)
    requires
        call_ensures(describe, (path, output, size_bytes, file_name), info),
    ensures
        info.path@ == path@,
        info.size_bytes == size_bytes,
        info.filename@ == (if file_name is Some {
            file_name->0@
        } else {
            "unknown"@
        }),
        output.format is Some ==> info.format == output.format->0.format_name,
        output.format is None ==> info.format is None && info.bitrate is None,
        output.format is Some && output.format->0.bit_rate is None ==> info.bitrate is None,
        output.format is Some && output.format->0.bit_rate is Some ==> forall|n: u64|
            output.format->0.bit_rate->0@ == #[trigger] decimal(n as nat) ==> info.bitrate == Some(
                n,
            ),
        output.format is Some && output.format->0.bit_rate is Some && info.bitrate is Some
            ==> all_digits(bare(output.format->0.bit_rate->0@)) && digits_number(
            bare(output.format->0.bit_rate->0@),
        ) == info.bitrate->0,
        output.format is Some && output.format->0.bit_rate is Some && all_digits(
            bare(output.format->0.bit_rate->0@),
        ) && digits_number(bare(output.format->0.bit_rate->0@)) <= u64::MAX
            ==> info.bitrate is Some,
{
    if output.format is Some && output.format->0.bit_rate is Some {
        let text = output.format->0.bit_rate->0@;
        assert forall|n: u64| text == #[trigger] decimal(n as nat) implies info.bitrate == Some(
            n,
        ) by {
            law_decimal_is_read_back(n as nat);
        }
        lemma_all_digits(bare(text));
    }
}

/// There is a picture exactly when a stream is of type `video`, and sound exactly when one is of
/// type `audio`. The last stream of each type tells the codec; the last picture stream that tells
/// both sides tells the size, and the last one that tells a frame rate tells that.
pub proof fn law_streams_are_told(
    path: &str,
    output: FfprobeOutput,
    streams: Seq<FfprobeStream>,
    size_bytes: u64,
    file_name: Option<String>,
    info: VideoInfo,
)
    requires
        call_ensures(describe, (path, output, size_bytes, file_name), info),
        streams == (match output.streams {
            Some(v) => v@,
            None => Seq::empty(),
        }),
    ensures
        info.has_video <==> exists|i: int|
            0 <= i < streams.len() && is_picture(#[trigger] streams[i]),
        info.has_audio <==> exists|i: int|
            0 <= i < streams.len() && is_sound(#[trigger] streams[i]),
        forall|k: int|
            is_last(streams, |s: FfprobeStream| is_picture(s), k) ==> info.codec_video == (
            #[trigger] streams[k]).codec_name,
        forall|k: int|
            is_last(streams, |s: FfprobeStream| is_sound(s), k) ==> info.codec_audio == (
            #[trigger] streams[k]).codec_name,
        forall|k: int|
            is_last(streams, |s: FfprobeStream| tells_size(s), k) ==> info.resolution == Some(
                ((#[trigger] streams[k]).width->0, streams[k].height->0),
            ),
        forall|k: int|
            is_last(streams, |s: FfprobeStream| tells_rate(s), k) ==> forall|r: Option<Double>|
                #[trigger] call_ensures(
                    parse_framerate,
                    ((#[trigger] streams[k]).avg_frame_rate->0,),
                    r,
                ) ==> info.framerate == r,
        !info.has_video ==> info.codec_video is None && info.resolution is None
            && info.framerate is None,
        !info.has_audio ==> info.codec_audio is None,
        (forall|i: int| 0 <= i < streams.len() ==> !tells_size(#[trigger] streams[i]))
            ==> info.resolution is None,
        (forall|i: int| 0 <= i < streams.len() ==> !tells_rate(#[trigger] streams[i]))
            ==> info.framerate is None,
{
    lemma_unshown(streams, streams.len() as int);
    let n = streams.len() as int;
    lemma_kinds(streams, n);
    assert forall|k: int| is_last(streams, |s: FfprobeStream| is_picture(s), k) implies
        info.codec_video == (#[trigger] streams[k]).codec_name by {
        lemma_last_picture(streams, n, k);
    }
    assert forall|k: int| is_last(streams, |s: FfprobeStream| is_sound(s), k) implies
        info.codec_audio == (#[trigger] streams[k]).codec_name by {
        lemma_last_sound(streams, n, k);
    }
    assert forall|k: int| is_last(streams, |s: FfprobeStream| tells_size(s), k) implies
        info.resolution == Some(((#[trigger] streams[k]).width->0, streams[k].height->0)) by {
        lemma_last_size(streams, n, k);
    }
    assert forall|k: int| is_last(streams, |s: FfprobeStream| tells_rate(s), k) implies forall|
        r: Option<Double>,
    | #[trigger]
        call_ensures(parse_framerate, ((#[trigger] streams[k]).avg_frame_rate->0,), r)
            ==> info.framerate == r by {
        lemma_last_rate(streams, n, k);
    }
}

/// The stream is a picture stream with both sides of its size.
pub open spec fn tells_size(s: FfprobeStream) -> bool {
    is_picture(s) && s.width is Some && s.height is Some
}

/// The stream is a picture stream with a frame rate.
pub open spec fn tells_rate(s: FfprobeStream) -> bool {
    is_picture(s) && s.avg_frame_rate is Some
}

/// Stream `k` is the last one that is such.
pub open spec fn is_last(
    streams: Seq<FfprobeStream>,
    such: spec_fn(FfprobeStream) -> bool,
    k: int,
) -> bool {
    &&& 0 <= k < streams.len()
    &&& such(streams[k])
    &&& forall|i: int| k < i < streams.len() ==> !such(#[trigger] streams[i])
}

proof fn lemma_kinds(streams: Seq<FfprobeStream>, n: int)
    requires
        0 <= n <= streams.len(),
    ensures
        summary(streams, n).has_video <==> exists|i: int|
            0 <= i < n && is_picture(#[trigger] streams[i]),
        summary(streams, n).has_audio <==> exists|i: int|
            0 <= i < n && is_sound(#[trigger] streams[i]),
        !summary(streams, n).has_video ==> summary(streams, n).codec_video is None && summary(
            streams,
            n,
        ).resolution is None && summary(streams, n).framerate is None,
        !summary(streams, n).has_audio ==> summary(streams, n).codec_audio is None,
    decreases n,
{
    lemma_types_differ();
    if n > 0 {
        lemma_kinds(streams, n - 1);
        assert(is_picture(streams[n - 1]) || !is_picture(streams[n - 1]));
        assert(is_sound(streams[n - 1]) || !is_sound(streams[n - 1]));
    }
}

proof fn lemma_last_picture(streams: Seq<FfprobeStream>, n: int, k: int)
    requires
        0 <= k < n <= streams.len(),
        is_picture(streams[k]),
        forall|i: int| k < i < n ==> !is_picture(#[trigger] streams[i]),
    ensures
        summary(streams, n).codec_video == streams[k].codec_name,
    decreases n,
{
    lemma_types_differ();
    if n - 1 > k {
        lemma_last_picture(streams, n - 1, k);
        assert(!is_picture(streams[n - 1]));
    }
}

proof fn lemma_last_sound(streams: Seq<FfprobeStream>, n: int, k: int)
    requires
        0 <= k < n <= streams.len(),
        is_sound(streams[k]),
        forall|i: int| k < i < n ==> !is_sound(#[trigger] streams[i]),
    ensures
        summary(streams, n).codec_audio == streams[k].codec_name,
    decreases n,
{
    lemma_types_differ();
    if n - 1 > k {
        lemma_last_sound(streams, n - 1, k);
        assert(!is_sound(streams[n - 1]));
    }
}

proof fn lemma_last_size(streams: Seq<FfprobeStream>, n: int, k: int)
    requires
        0 <= k < n <= streams.len(),
        tells_size(streams[k]),
        forall|i: int| k < i < n ==> !tells_size(#[trigger] streams[i]),
    ensures
        summary(streams, n).resolution == Some((streams[k].width->0, streams[k].height->0)),
    decreases n,
{
    lemma_types_differ();
    if n - 1 > k {
        lemma_last_size(streams, n - 1, k);
        assert(!tells_size(streams[n - 1]));
    }
}

proof fn lemma_last_rate(streams: Seq<FfprobeStream>, n: int, k: int)
    requires
        0 <= k < n <= streams.len(),
        tells_rate(streams[k]),
        forall|i: int| k < i < n ==> !tells_rate(#[trigger] streams[i]),
    ensures
        summary(streams, n).framerate == frame_rate(streams[k].avg_frame_rate->0),
    decreases n,
{
    lemma_types_differ();
    if n - 1 > k {
        lemma_last_rate(streams, n - 1, k);
        assert(!tells_rate(streams[n - 1]));
    }
}

proof fn lemma_unshown(streams: Seq<FfprobeStream>, n: int)
    requires
        0 <= n <= streams.len(),
    ensures
        (forall|i: int| 0 <= i < n ==> !tells_size(#[trigger] streams[i])) ==> summary(
            streams,
            n,
        ).resolution is None,
        (forall|i: int| 0 <= i < n ==> !tells_rate(#[trigger] streams[i])) ==> summary(
            streams,
            n,
        ).framerate is None,
    decreases n,
{
    if n > 0 {
        lemma_unshown(streams, n - 1);
        lemma_types_differ();
        if forall|i: int| 0 <= i < n ==> !tells_size(#[trigger] streams[i]) {
            assert(!tells_size(streams[n - 1]));
        }
        if forall|i: int| 0 <= i < n ==> !tells_rate(#[trigger] streams[i]) {
            assert(!tells_rate(streams[n - 1]));
        }
    }
}

/// What the streams tell is what is described of a report with them.
pub proof fn law_summary_is_what_is_described(
    streams: &Vec<FfprobeStream>,
    told: StreamSummary,
    path: &str,
    output: FfprobeOutput,
    size_bytes: u64,
    file_name: Option<String>,
    info: VideoInfo,
)
    requires
        call_ensures(summarize_streams, (streams,), told),
        call_ensures(describe, (path, output, size_bytes, file_name), info),
        output.streams == Some(*streams),
    ensures
        info.has_video == told.has_video,
        info.has_audio == told.has_audio,
        info.codec_video == told.codec_video,
        info.codec_audio == told.codec_audio,
        info.resolution == told.resolution,
        info.framerate == told.framerate,
        output.format is None ==> info.duration == told.backup_duration,
{
}

/// The text of a frame rate is split at its first slash, and only there.
pub proof fn law_rate_text_is_split(
    text: &str,
    r: Option<(String, String)>,
    a: Seq<char>,
    b: Seq<char>,
)
    requires
        call_ensures(split_framerate, (text,), r),
        text@ == a + seq!['/'] + b,
        !a.contains('/'),
    ensures
        r matches Some((n, d)) && n@ == a && d@ == b,
{
    let s = text@;
    assert(s[a.len() as int] == '/');
    assert(s.contains('/'));
    let (first, second) = r->0;
    let n = first@;
    let d = second@;
    assert(s[n.len() as int] == '/');
    if n.len() < a.len() {
        assert(a[n.len() as int] == '/');
    } else if a.len() < n.len() {
        assert(n[a.len() as int] == '/');
    }
    assert(n =~= a) by {
        assert(s.take(n.len() as int) =~= n);
        assert(s.take(a.len() as int) =~= a);
    }
    assert(d =~= b) by {
        assert(s.skip(n.len() as int + 1) =~= d);
        assert(s.skip(a.len() as int + 1) =~= b);
    }
}

/// A text without a slash is no frame rate.
pub proof fn law_text_without_slash_is_not_split(text: &str, r: Option<(String, String)>)
    requires
        call_ensures(split_framerate, (text,), r),
        !text@.contains('/'),
    ensures
        r is None,
{
    if r is Some {
        let (first, second) = r->0;
        assert(text@[first@.len() as int] == '/');
    }
}

/// A frame rate is the quotient of its two sides, and there is one exactly when both are numbers
/// and the lower one is not zero.
pub proof fn law_frame_rate_is_a_quotient(terms: RateTerms, r: Option<Double>)
    requires
        call_ensures(parse_framerate, (terms,), r),
    ensures
        r is None <==> terms.numerator is None || terms.denominator is None || (
        !terms.denominator->0.undefined() && terms.denominator->0.units() == 0),
        ({
            let n = terms.numerator->0;
            let d = terms.denominator->0;
            terms.numerator is Some && terms.denominator is Some && n.finite() && d.finite()
                && n.units() >= 0 && d.units() > 0 ==> r is Some && !r->0.undefined()
                && r->0.units() == round_units(n.units() * pow2(UNIT as nat), d.units())
        }),
        terms.numerator is Some && terms.denominator is Some ==> forall|q: Double| #[trigger]
            call_ensures(Double::over, (terms.numerator->0, terms.denominator->0), q) && r is Some
                ==> r == Some(q),
{
    assert(scale(0) == 0);
    if terms.numerator is Some && terms.denominator is Some {
        let n = terms.numerator->0;
        let d = terms.denominator->0;
        if n.finite() && d.finite() && n.units() >= 0 && d.units() > 0 {
            lemma_quotient_units(n, d);
        }
    }
}

/// A text is read as a number exactly when it is made of decimal digits, perhaps behind a plus, that
/// have a value of at most 64 bits, and then as that value.
pub proof fn law_number_is_the_value_of_its_digits(text: &str, r: Option<u64>)
    requires
        call_ensures(parse_number, (text,), r),
    ensures
        r is Some <==> all_digits(bare(text@)) && digits_number(bare(text@)) <= u64::MAX,
        r is Some ==> r->0 == digits_number(bare(text@)),
{
    lemma_all_digits(bare(text@));
}

/// The path stands last among the arguments of ffprobe, which ask for a report of the container and
/// the streams as JSON and for nothing else.
pub proof fn law_probe_command(path: &str, args: Vec<String>)
    requires
        call_ensures(probe_command, (path,), args),
    ensures
        ({
            let a = texts(args@);
            &&& a.len() == 7
            &&& a[0] == "-v"@ && a[1] == "quiet"@
            &&& a[2] == "-print_format"@ && a[3] == "json"@
            &&& a[4] == "-show_format"@ && a[5] == "-show_streams"@
            &&& a[6] == path@
        }),
{
}

/// A failed run of ffprobe gives its error output, and any other what is described of its report.
pub proof fn law_probe_outcome(path: &str, run: ProbeRun, r: Result<VideoInfo, String>)
    requires
        call_ensures(get_video_info, (path, run), r),
    ensures
        run is Failed ==> r is Err && r->Err_0@ == "FFprobe 执行失败: "@ + run->stderr@,
        run is Reported ==> r is Ok,
        run is Reported ==> {
            let output = run->output;
            let info = r->Ok_0;
            &&& info.path@ == path@
            &&& info.size_bytes == run->size_bytes
            &&& output.format is Some && output.format->0.duration is Some ==> Some(info.duration)
                == output.format->0.duration
        },
{
}

/// What a run of ffprobe tells of a file is what is described of its report, whatever name the file
/// is given there.
pub proof fn law_probe_tells_what_is_described(
    path: &str,
    run: ProbeRun,
    r: Result<VideoInfo, String>,
    name: Option<String>,
    described: VideoInfo,
)
    requires
        call_ensures(get_video_info, (path, run), r),
        run is Reported,
        call_ensures(describe, (path, run->output, run->size_bytes, name), described),
    ensures
        r is Ok,
        r->Ok_0.path@ == described.path@,
        r->Ok_0.size_bytes == described.size_bytes,
        r->Ok_0.duration == described.duration,
        r->Ok_0.format == described.format,
        r->Ok_0.codec_video == described.codec_video,
        r->Ok_0.codec_audio == described.codec_audio,
        r->Ok_0.resolution == described.resolution,
        r->Ok_0.framerate == described.framerate,
        r->Ok_0.bitrate == described.bitrate,
        r->Ok_0.has_video == described.has_video,
        r->Ok_0.has_audio == described.has_audio,
{
}

/// The file of a path is named by what follows its last slash, or by all of a path without one.
pub proof fn law_probe_names_the_file(
    path: &str,
    run: ProbeRun,
    r: Result<VideoInfo, String>,
    front: Seq<char>,
    name: Seq<char>,
)
    requires
        call_ensures(get_video_info, (path, run), r),
        run is Reported,
        path@ == front + name,
        name.len() > 0,
        separator_free(name),
        !dots(name),
        plain_front(front, name),
    ensures
        r is Ok && r->Ok_0.filename@ == name,
{
    lemma_front(front, name);
    lemma_filename(path@, run, r->Ok_0, name);
}

proof fn lemma_filename(path: Seq<char>, run: ProbeRun, info: VideoInfo, name: Seq<char>)
    requires
        run is Reported,
        exists|found: Option<Seq<char>>|
            is_file_name(found, path) && #[trigger] describes(
                info,
                path,
                run->output,
                run->size_bytes,
                found,
            ),
        names(path, name),
    ensures
        info.filename@ == name,
{
    let found = choose|found: Option<Seq<char>>|
        is_file_name(found, path) && #[trigger] describes(
            info,
            path,
            run->output,
            run->size_bytes,
            found,
        );
    assert(found == file_of(name));
}

} // verus!
