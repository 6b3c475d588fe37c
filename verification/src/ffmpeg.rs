//! Command lines and filter graphs for ffmpeg.
use vstd::prelude::*;
use vstd::string::StringExecFns;
use crate::double::{
    lemma_difference_units, lemma_round_exact, lemma_round_ordered, zero, Double,
};
use crate::paths::{in_dir, join, plain_name, separator};
use crate::probe::lemma_decimal_number;
use crate::segments::SpeechSegment;
use crate::text::{decimal, lemma_decimal_digits, push_decimal, push_owned, push_text, texts};
use crate::timecode::{fixed, push_fixed};

verus! {

/// Video bitrate, in kbit/s, for a recording of unknown bitrate.
pub const FALLBACK_KBPS: u64 = 5000;

/// Estimated bitrate of the sound track, in bit/s.
pub const AUDIO_BPS: u64 = 128_000;

/// Lowest video bitrate, in kbit/s.
pub const LOWEST_KBPS: u64 = 1000;

/// Highest video bitrate, in kbit/s.
pub const HIGHEST_KBPS: u64 = 15000;

/// The target video bitrate, in kbit/s: that of the recording without its sound, kept between
/// the lowest and the highest one.
pub open spec fn target_kbps(original_bitrate: Option<u64>) -> int {
    match original_bitrate {
        Some(b) => if b == 0 {
            FALLBACK_KBPS as int
        } else {
            let video = if b > AUDIO_BPS {
                (b - AUDIO_BPS) / 1000
            } else {
                0
            };
            if video < LOWEST_KBPS {
                LOWEST_KBPS as int
            } else if video > HIGHEST_KBPS {
                HIGHEST_KBPS as int
            } else {
                video
            }
        },
        None => FALLBACK_KBPS as int,
    }
}

/// The target video bitrate, in kbit/s.
pub fn video_kbps(original_bitrate: Option<u64>) -> (r: u64)
    ensures
        r == target_kbps(original_bitrate),
        LOWEST_KBPS <= r <= HIGHEST_KBPS,
{
    match original_bitrate {
        Some(b) => {
            if b == 0 {
                return FALLBACK_KBPS;
            }
            let kbps: u64 = b.saturating_sub(AUDIO_BPS) / 1000;
            if kbps < LOWEST_KBPS {
                LOWEST_KBPS
            } else if kbps > HIGHEST_KBPS {
                HIGHEST_KBPS
            } else {
                kbps
            }
        },
        None => FALLBACK_KBPS,
    }
}

/// Start of a segment on the time line of an input that is read from `seek_start` on.
pub open spec fn relative_start(segment: SpeechSegment, seek_start: Double) -> Double {
    segment.start.difference(seek_start).floored()
}

/// Length of a segment.
pub open spec fn length(segment: SpeechSegment) -> Double {
    segment.end.difference(segment.start).floored()
}

/// The filter that cuts segment `i` out of the picture.
pub open spec fn video_trim(segment: SpeechSegment, seek_start: Double, i: nat) -> Seq<char> {
    "[0:v]trim=start="@ + fixed(relative_start(segment, seek_start)) + ":duration="@ + fixed(
        length(segment),
    ) + ",setpts=PTS-STARTPTS[v"@ + decimal(i) + "];"@
}

/// The filter that cuts segment `i` out of the sound.
pub open spec fn audio_trim(segment: SpeechSegment, seek_start: Double, i: nat) -> Seq<char> {
    "[0:a]atrim=start="@ + fixed(relative_start(segment, seek_start)) + ":duration="@ + fixed(
        length(segment),
    ) + ",asetpts=PTS-STARTPTS[a"@ + decimal(i) + "];"@
}

/// The filters that cut out the first `n` segments.
pub open spec fn trims(
    segments: Seq<SpeechSegment>,
    n: int,
    has_video: bool,
    seek_start: Double,
) -> Seq<char>
    decreases n,
{
    if n <= 0 {
        Seq::empty()
    } else {
        let before = trims(segments, n - 1, has_video, seek_start);
        let i = (n - 1) as nat;
        if has_video {
            before + video_trim(segments[n - 1], seek_start, i) + audio_trim(
                segments[n - 1],
                seek_start,
                i,
            )
        } else {
            before + audio_trim(segments[n - 1], seek_start, i)
        }
    }
}

/// The labels of the first `n` cut segments, each behind the text `open`.
pub open spec fn labels(open: Seq<char>, n: int) -> Seq<char>
    decreases n,
{
    if n <= 0 {
        Seq::empty()
    } else {
        labels(open, n - 1) + (open + decimal((n - 1) as nat) + "]"@)
    }
}

/// The filter graph that cuts out the segments and puts them together, the picture under the
/// label `fv` and the sound under the label `fa`.
pub open spec fn filter_graph(
    segments: Seq<SpeechSegment>,
    has_video: bool,
    seek_start: Double,
) -> Seq<char> {
    let n = segments.len() as int;
    let cuts = trims(segments, n, has_video, seek_start);
    let picture = if has_video {
        labels("[v"@, n) + "concat=n="@ + decimal(segments.len()) + ":v=1:a=0[fv];"@
    } else {
        Seq::empty()
    };
    let sound = labels("[a"@, n) + "concat=n="@ + decimal(segments.len()) + ":v=0:a=1[fa]"@;
    cuts + picture + sound
}

fn push_trim(out: &mut String, head: &str, tail: &str, start: Double, duration: Double, i: usize)
    ensures
        final(out)@ == old(out)@ + (head@ + fixed(start) + ":duration="@ + fixed(duration) + tail@
            + decimal(i as nat) + "];"@),
{
    out.append(head);
    push_fixed(out, start);
    out.append(":duration=");
    push_fixed(out, duration);
    out.append(tail);
    push_decimal(out, i as u64);
    out.append("];");
    assert(out@ =~= old(out)@ + (head@ + fixed(start) + ":duration="@ + fixed(duration) + tail@
        + decimal(i as nat) + "];"@));
}

fn push_label(out: &mut String, open: &str, i: usize)
    ensures
        final(out)@ == old(out)@ + (open@ + decimal(i as nat) + "]"@),
{
    out.append(open);
    push_decimal(out, i as u64);
    out.append("]");
    assert(out@ =~= old(out)@ + (open@ + decimal(i as nat) + "]"@));
}

/// The filter graph for one batch of segments.
pub fn batch_filter(segments: &[SpeechSegment], has_video: bool, seek_start: Double) -> (r: String)
    ensures
        r@ == filter_graph(segments@, has_video, seek_start),
{
    let mut filter: String = String::new();
    let mut v_concat: String = String::new();
    let mut a_concat: String = String::new();
    let mut i: usize = 0;
    while i < segments.len()
        invariant
            i <= segments@.len(),
            filter@ == trims(segments@, i as int, has_video, seek_start),
            has_video ==> v_concat@ == labels("[v"@, i as int),
            a_concat@ == labels("[a"@, i as int),
        decreases segments@.len() - i,
    {
        let segment: SpeechSegment = segments[i];
        let start: Double = segment.start.minus(seek_start).floor_at_zero();
        let duration: Double = segment.end.minus(segment.start).floor_at_zero();
        if has_video {
            push_trim(
                &mut filter,
                "[0:v]trim=start=",
                ",setpts=PTS-STARTPTS[v",
                start,
                duration,
                i,
            );
            push_label(&mut v_concat, "[v", i);
        }
        push_trim(
            &mut filter,
            "[0:a]atrim=start=",
            ",asetpts=PTS-STARTPTS[a",
            start,
            duration,
            i,
        );
        push_label(&mut a_concat, "[a", i);
        i = i + 1;
    }
    let ghost cuts = filter@;
    if has_video {
        filter.append(v_concat.as_str());
        filter.append("concat=n=");
        push_decimal(&mut filter, segments.len() as u64);
        filter.append(":v=1:a=0[fv];");
    }
    filter.append(a_concat.as_str());
    filter.append("concat=n=");
    push_decimal(&mut filter, segments.len() as u64);
    filter.append(":v=0:a=1[fa]");
    assert(filter@ =~= filter_graph(segments@, has_video, seek_start));
    filter
}

/// Encoder options for a video bitrate, with the hardware encoder of macOS or with libx264.
pub open spec fn encoder_options(macos: bool, kbps: nat) -> Seq<Seq<char>> {
    if macos {
        seq![
            "-c:v"@,
            "h264_videotoolbox"@,
            "-b:v"@,
            decimal(kbps) + "k"@,
            "-profile:v"@,
            "high"@,
            "-realtime"@,
            "true"@,
        ]
    } else {
        seq![
            "-c:v"@,
            "libx264"@,
            "-crf"@,
            "23"@,
            "-maxrate"@,
            decimal(kbps) + "k"@,
            "-bufsize"@,
            decimal(2 * kbps) + "k"@,
            "-preset"@,
            "superfast"@,
        ]
    }
}

/// The options that follow the filter graph and choose how the picture is written.
pub open spec fn picture_options(has_video: bool, macos: bool, kbps: nat) -> Seq<Seq<char>> {
    if has_video {
        seq!["-map"@, "[fv]"@] + encoder_options(macos, kbps)
    } else {
        Seq::empty()
    }
}

/// The options that choose how the sound and the file are written.
pub open spec fn sound_options(output: Seq<char>) -> Seq<Seq<char>> {
    seq![
        "-map"@,
        "[fa]"@,
        "-c:a"@,
        "aac"@,
        "-b:a"@,
        "128k"@,
        "-f"@,
        "mpegts"@,
        "-y"@,
        output,
    ]
}

/// The arguments of the command that writes one batch to a transport stream.
pub open spec fn batch_command(
    input: Seq<char>,
    output: Seq<char>,
    segments: Seq<SpeechSegment>,
    has_video: bool,
    seek_start: Double,
    seek_text: Seq<char>,
    original_bitrate: Option<u64>,
    macos: bool,
) -> Seq<Seq<char>> {
    seq![
        "-nostdin"@,
        "-ss"@,
        seek_text,
        "-i"@,
        input,
        "-filter_complex"@,
        filter_graph(segments, has_video, seek_start),
    ] + picture_options(has_video, macos, target_kbps(original_bitrate) as nat) + sound_options(
        output,
    )
}

fn rate_text(kbps: u64) -> (r: String)
    ensures
        r@ == decimal(kbps as nat) + "k"@,
{
    let mut text: String = String::new();
    push_decimal(&mut text, kbps);
    text.append("k");
    assert(text@ =~= decimal(kbps as nat) + "k"@);
    text
}

fn push_encoder_options(args: &mut Vec<String>, macos: bool, kbps: u64)
    requires
        kbps <= HIGHEST_KBPS,
    ensures
        texts(final(args)@) == texts(old(args)@) + encoder_options(macos, kbps as nat),
{
    push_text(args, "-c:v");
    if macos {
        push_text(args, "h264_videotoolbox");
        push_text(args, "-b:v");
        push_owned(args, rate_text(kbps));
        push_text(args, "-profile:v");
        push_text(args, "high");
        push_text(args, "-realtime");
        push_text(args, "true");
    } else {
        push_text(args, "libx264");
        push_text(args, "-crf");
        push_text(args, "23");
        push_text(args, "-maxrate");
        push_owned(args, rate_text(kbps));
        push_text(args, "-bufsize");
        push_owned(args, rate_text(2 * kbps));
        push_text(args, "-preset");
        push_text(args, "superfast");
    }
    assert(texts(args@) =~= texts(old(args)@) + encoder_options(macos, kbps as nat));
}

/// The arguments of the command that cuts the segments of one batch out of the input, read
/// from `seek_start` on, and writes them to the transport stream `output`. `seek_text` is
/// the text of `seek_start`, `macos` whether the hardware encoder of macOS is used.
pub fn process_batch_to_ts(
    input: &str,
    output: &str,
    segments: &[SpeechSegment],
    has_video: bool,
    seek_start: Double,
    seek_text: &str,
    original_bitrate: Option<u64>,
    macos: bool,
) -> (r: Vec<String>)
    ensures
        texts(r@) == batch_command(
            input@,
            output@,
            segments@,
            has_video,
            seek_start,
            seek_text@,
            original_bitrate,
            macos,
        ),
{
    let mut args: Vec<String> = Vec::new();
    push_text(&mut args, "-nostdin");
    push_text(&mut args, "-ss");
    push_text(&mut args, seek_text);
    push_text(&mut args, "-i");
    push_text(&mut args, input);
    push_text(&mut args, "-filter_complex");
    push_owned(&mut args, batch_filter(segments, has_video, seek_start));
    if has_video {
        push_text(&mut args, "-map");
        push_text(&mut args, "[fv]");
        push_encoder_options(&mut args, macos, video_kbps(original_bitrate));
    }
    push_text(&mut args, "-map");
    push_text(&mut args, "[fa]");
    push_text(&mut args, "-c:a");
    push_text(&mut args, "aac");
    push_text(&mut args, "-b:a");
    push_text(&mut args, "128k");
    push_text(&mut args, "-f");
    push_text(&mut args, "mpegts");
    push_text(&mut args, "-y");
    push_text(&mut args, output);
    assert(texts(args@) =~= batch_command(
        input@,
        output@,
        segments@,
        has_video,
        seek_start,
        seek_text@,
        original_bitrate,
        macos,
    ));
    args
}

/// File name of the transport stream of batch `i`.
pub open spec fn part_name(i: nat) -> Seq<char> {
    "part_"@ + decimal(i) + ".ts"@
}

/// The line of the list of parts that names the stream of batch `i`.
pub open spec fn list_line(i: nat) -> Seq<char> {
    "file '"@ + part_name(i) + "'\n"@
}

/// The list of the first `n` parts, in order.
pub open spec fn part_list(n: int) -> Seq<char>
    decreases n,
{
    if n <= 0 {
        Seq::empty()
    } else {
        part_list(n - 1) + list_line((n - 1) as nat)
    }
}

/// File name of the transport stream of batch `i`.
pub fn part_file_name(i: usize) -> (r: String)
    ensures
        r@ == part_name(i as nat),
{
    let mut name: String = "part_".to_owned();
    push_decimal(&mut name, i as u64);
    name.append(".ts");
    name
}

/// The name of a part is a plain file name.
pub proof fn lemma_part_name_plain(i: nat)
    ensures
        plain_name(part_name(i)),
{
    reveal_strlit("part_");
    reveal_strlit(".ts");
    lemma_decimal_digits(i);
    let name = part_name(i);
    assert forall|k: int| 0 <= k < name.len() implies !separator(#[trigger] name[k]) && name[k]
        != ':' by {
        if k < 5 {
            assert(name[k] == "part_"@[k]);
        } else if k < 5 + decimal(i).len() {
            assert(name[k] == decimal(i)[k - 5]);
        } else {
            assert(name[k] == ".ts"@[k - 5 - decimal(i).len()]);
        }
    }
    assert(name.len() > 2);
}

/// No two batches are written to the same file.
pub proof fn law_part_names_differ(i: nat, j: nat)
    requires
        part_name(i) == part_name(j),
    ensures
        i == j,
{
    reveal_strlit("part_");
    reveal_strlit(".ts");
    assert(part_name(i).len() == 8 + decimal(i).len());
    assert(part_name(j).len() == 8 + decimal(j).len());
    assert(part_name(i).subrange(5, 5 + decimal(i).len() as int) =~= decimal(i));
    assert(part_name(j).subrange(5, 5 + decimal(j).len() as int) =~= decimal(j));
    lemma_decimal_number(i);
    lemma_decimal_number(j);
}

/// The sound left aside, the target bitrate keeps the whole within the bitrate of the recording,
/// wherever that is high enough for the lowest picture quality.
pub proof fn law_bitrate_is_kept(original_bitrate: u64)
    requires
        original_bitrate >= 1000 * LOWEST_KBPS + AUDIO_BPS,
    ensures
        1000 * target_kbps(Some(original_bitrate)) + AUDIO_BPS <= original_bitrate,
{
}

/// The parts are merged in the order of the batches: behind the lines of the batches before it,
/// every list that is long enough names the file of batch `i`.
pub proof fn law_part_list_in_order(i: nat, n: nat)
    requires
        i < n,
    ensures
        part_list(n as int).len() >= part_list(i as int).len() + list_line(i).len(),
        part_list(n as int).subrange(
            part_list(i as int).len() as int,
            (part_list(i as int).len() + list_line(i).len()) as int,
        ) == list_line(i),
    decreases n,
{
    let before = part_list(i as int).len() as int;
    let line = list_line(i);
    if n == i + 1 {
        assert(part_list(n as int).subrange(before, before + line.len()) =~= line);
    } else {
        law_part_list_in_order(i, (n - 1) as nat);
        let shorter = part_list(n - 1);
        assert(part_list(n as int).subrange(before, before + line.len()) =~= shorter.subrange(
            before,
            before + line.len(),
        ));
    }
}

/// Where a segment begins at or after the point from which the input is read, and does not end
/// before it begins, its start on that time line and its length are what subtraction gives.
pub proof fn law_trim_keeps_times(segment: SpeechSegment, seek_start: Double)
    requires
        segment.start.finite(),
        segment.end.finite(),
        seek_start.finite(),
        seek_start.units() <= segment.start.units() <= segment.end.units(),
    ensures
        relative_start(segment, seek_start).equals(segment.start.difference(seek_start)),
        length(segment).equals(segment.end.difference(segment.start)),
{
    lemma_difference_units(segment.start, seek_start);
    lemma_difference_units(segment.end, segment.start);
    lemma_round_exact(zero(), 1);
    lemma_round_ordered(0, 1, segment.start.units() - seek_start.units(), 1);
    lemma_round_ordered(0, 1, segment.end.units() - segment.start.units(), 1);
}

/// Puts the transport streams of all batches together.
pub struct ConcatMerger;

/// The merge of the parts: the list of parts, where it is written to, and the arguments of the
/// command.
#[derive(Clone, Debug)]
pub struct Merge {
    pub list_path: String,
    pub list: String,
    pub args: Vec<String>,
}

/// The arguments of the command that puts the parts named in a list together.
pub open spec fn merge_command(
    list_path: Seq<char>,
    output: Seq<char>,
    has_video: bool,
) -> Seq<Seq<char>> {
    seq!["-f"@, "concat"@, "-safe"@, "0"@, "-i"@, list_path] + (if has_video {
        seq!["-c"@, "copy"@, "-movflags"@, "+faststart"@]
    } else {
        seq!["-c:a"@, "copy"@]
    }) + seq!["-y"@, output]
}

impl ConcatMerger {
    /// The list of parts that the merge reads.
    pub fn list(num_batches: usize) -> (r: String)
        ensures
            r@ == part_list(num_batches as int),
    {
        let mut out: String = String::new();
        let mut i: usize = 0;
        while i < num_batches
            invariant
                i <= num_batches,
                out@ == part_list(i as int),
            decreases num_batches - i,
        {
            let ghost before = out@;
            out.append("file '");
            out.append(part_file_name(i).as_str());
            out.append("'\n");
            assert(out@ =~= before + list_line(i as nat));
            i = i + 1;
        }
        out
    }

    /// The merge of the first `num_batches` parts in `temp_dir` to the file `output_path`.
    pub fn merge(temp_dir: &str, output_path: &str, num_batches: usize, has_video: bool) -> (r:
        Merge)
        ensures
            in_dir(r.list_path@, temp_dir@, "list.txt"@),
            r.list@ == part_list(num_batches as int),
            texts(r.args@) == merge_command(r.list_path@, output_path@, has_video),
    {
        proof {
            reveal_strlit("list.txt");
        }
        let list_path: String = join(temp_dir, "list.txt");
        let mut args: Vec<String> = Vec::new();
        push_text(&mut args, "-f");
        push_text(&mut args, "concat");
        push_text(&mut args, "-safe");
        push_text(&mut args, "0");
        push_text(&mut args, "-i");
        push_text(&mut args, list_path.as_str());
        if has_video {
            push_text(&mut args, "-c");
            push_text(&mut args, "copy");
            push_text(&mut args, "-movflags");
            push_text(&mut args, "+faststart");
        } else {
            push_text(&mut args, "-c:a");
            push_text(&mut args, "copy");
        }
        push_text(&mut args, "-y");
        push_text(&mut args, output_path);
        assert(texts(args@) =~= merge_command(list_path@, output_path@, has_video));
        Merge { list_path, list: ConcatMerger::list(num_batches), args }
    }

    /// How a merge ended that the command reported a success or a failure of.
    pub fn outcome(succeeded: bool) -> (r: Result<(), String>)
        ensures
            match r {
                Ok(_) => succeeded,
                Err(e) => !succeeded && e@ == "合并片段失败"@,
            },
    {
        if succeeded {
            Ok(())
        } else {
            Err("合并片段失败".to_owned())
        }
    }
}

/// How a batch ended that the command reported a success or a failure of.
pub fn batch_outcome(succeeded: bool) -> (r: Result<(), String>)
    ensures
        match r {
            Ok(_) => succeeded,
            Err(e) => !succeeded && e@ == "FFmpeg Batch Error"@,
        },
{
    if succeeded {
        Ok(())
    } else {
        Err("FFmpeg Batch Error".to_owned())
    }
}

} // verus!
