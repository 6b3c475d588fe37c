//! Laws on the commands and filter graphs for ffmpeg.
use vstd::prelude::*;
use vstd::arithmetic::power2::{lemma_pow2_pos, pow2};
use crate::double::{
    lemma_difference_units, lemma_round_exact, lemma_round_ordered, round_units, zero, Double, UNIT,
};
use crate::ffmpeg::{
    audio_trim, batch_filter, labels, length, part_file_name, process_batch_to_ts, relative_start,
    trims, video_kbps, video_trim, ConcatMerger, Merge,
};
use crate::laws::arithmetic::{
    law_fixed_names_the_rest, law_fixed_shows_the_number, nearest_thousandths, shows,
};
use crate::rounding::{lemma_scale_increases, lemma_scale_nonnegative, scale, INFINITY};
use crate::segments::SpeechSegment;
use crate::text::{decimal, texts};
use crate::timecode::fixed;

verus! {

/// The start and the duration that a filter shows for one segment.
pub struct Shown {
    pub start: Seq<char>,
    pub duration: Seq<char>,
}

/// A difference of finite numbers that is not beyond all finite ones.
pub open spec fn measurable(a: Double, b: Double) -> bool {
    a.finite() && b.finite() && round_units(a.units() - b.units(), 1) < scale(INFINITY as int)
}

/// The text shows how much later `a` is than `b`: the nearest thousandths, and zero where it is not
/// later or one of the two is undefined.
pub open spec fn shows_lead(text: Seq<char>, a: Double, b: Double) -> bool {
    let lead = round_units(a.units() - b.units(), 1);
    if measurable(a, b) && lead > 0 {
        exists|t: nat| #[trigger] shows(text, t) && nearest_thousandths(t, lead)
    } else if measurable(a, b) || a.undefined() || b.undefined() || a.units() <= b.units() {
        shows(text, 0)
    } else {
        text == "inf"@
    }
}

/// The texts are those of a segment in an input that is read from `seek_start` on: how much later
/// than that it begins, and how much later than that it ends.
pub open spec fn shown_for(shown: Shown, segment: SpeechSegment, seek_start: Double) -> bool {
    &&& shows_lead(shown.start, segment.start, seek_start)
    &&& shows_lead(shown.duration, segment.end, segment.start)
}

/// The filters for the first `n` segments: for each of them that for the picture, if there is one,
/// and that for the sound, with the same times and the number of the segment as a label.
pub open spec fn cutters(shown: Seq<Shown>, has_video: bool, n: int) -> Seq<char>
    decreases n,
{
    if n <= 0 {
        Seq::empty()
    } else {
        let k = decimal((n - 1) as nat);
        let s = shown[n - 1];
        cutters(shown, has_video, n - 1) + (if has_video {
            "[0:v]trim=start="@ + s.start + ":duration="@ + s.duration + ",setpts=PTS-STARTPTS[v"@
                + k + "];"@
        } else {
            Seq::empty()
        }) + ("[0:a]atrim=start="@ + s.start + ":duration="@ + s.duration
            + ",asetpts=PTS-STARTPTS[a"@ + k + "];"@)
    }
}

/// The labels of the first `n` segments, in order.
pub open spec fn label_row(head: Seq<char>, n: int) -> Seq<char>
    decreases n,
{
    if n <= 0 {
        Seq::empty()
    } else {
        label_row(head, n - 1) + (head + decimal((n - 1) as nat) + "]"@)
    }
}

/// What puts `n` cut segments together, the picture first.
pub open spec fn assembly(has_video: bool, n: nat) -> Seq<char> {
    (if has_video {
        label_row("[v"@, n as int) + "concat=n="@ + decimal(n) + ":v=1:a=0[fv];"@
    } else {
        Seq::empty()
    }) + (label_row("[a"@, n as int) + "concat=n="@ + decimal(n) + ":v=0:a=1[fa]"@)
}

proof fn lemma_lead(a: Double, b: Double)
    ensures
        shows_lead(fixed(a.difference(b).floored()), a, b),
{
    let d = a.difference(b);
    let f = d.floored();
    assert(scale(0) == 0);
    assert(zero().finite() && !zero().negative());
    let none = law_fixed_shows_the_number(zero());
    lemma_no_thousandths(none);
    if a.finite() && b.finite() {
        lemma_difference_units(a, b);
        lemma_scale_nonnegative(d.pattern());
        if measurable(a, b) && d.units() > 0 {
            assert(d.finite()) by {
                if d.infinite() {
                    assert(d.units() == scale(INFINITY as int));
                }
            }
            let t = law_fixed_shows_the_number(f);
            assert(shows(fixed(f), t));
        } else if !measurable(a, b) {
            lemma_scale_increases(0, INFINITY as int);
            law_fixed_names_the_rest(d);
            assert(d.infinite()) by {
                if d.finite() {
                    lemma_scale_increases(d.pattern(), INFINITY as int);
                }
            }
            if a.units() <= b.units() {
                lemma_round_exact(zero(), 1);
                lemma_round_ordered(a.units() - b.units(), 1, zero().units() * 1, 1);
            }
        }
    } else if !a.undefined() && !b.undefined() {
        lemma_scale_increases(0, INFINITY as int);
        if a.finite() {
            lemma_scale_increases(a.pattern(), INFINITY as int);
            lemma_scale_nonnegative(a.pattern());
        }
        if b.finite() {
            lemma_scale_increases(b.pattern(), INFINITY as int);
            lemma_scale_nonnegative(b.pattern());
        }
        law_fixed_names_the_rest(d);
    }
}

proof fn lemma_no_thousandths(t: nat)
    requires
        nearest_thousandths(t, 0),
    ensures
        t == 0,
{
    let one = pow2(UNIT as nat) as int;
    lemma_pow2_pos(UNIT as nat);
    if t >= 1 {
        assert(t * one >= one) by (nonlinear_arith)
            requires
                t >= 1,
                one > 0,
        ;
    }
}

proof fn lemma_cutters(
    segments: Seq<SpeechSegment>,
    shown: Seq<Shown>,
    has_video: bool,
    seek_start: Double,
    n: int,
)
    requires
        0 <= n <= segments.len(),
        shown.len() == segments.len(),
        forall|k: int|
            0 <= k < segments.len() ==> (#[trigger] shown[k]) == (Shown {
                start: fixed(segments[k].start.difference(seek_start).floored()),
                duration: fixed(segments[k].end.difference(segments[k].start).floored()),
            }),
    ensures
        trims(segments, n, has_video, seek_start) == cutters(shown, has_video, n),
    decreases n,
{
    if n > 0 {
        lemma_cutters(segments, shown, has_video, seek_start, n - 1);
        let s = segments[n - 1];
        let i = (n - 1) as nat;
        assert(shown[n - 1].start == fixed(relative_start(s, seek_start)));
        assert(shown[n - 1].duration == fixed(length(s)));
        let before = cutters(shown, has_video, n - 1);
        if has_video {
            assert(before + video_trim(s, seek_start, i) + audio_trim(s, seek_start, i) =~= cutters(
                shown,
                has_video,
                n,
            ));
        } else {
            assert(before + audio_trim(s, seek_start, i) =~= cutters(shown, has_video, n));
        }
    }
}

proof fn lemma_label_row(head: Seq<char>, n: int)
    ensures
        labels(head, n) == label_row(head, n),
    decreases n,
{
    if n > 0 {
        lemma_label_row(head, n - 1);
    }
}

/// The graph for a batch cuts every segment, whatever its place in the batch, out of the sound and
/// with a picture out of the picture too: from where it begins behind the point that the input is
/// read from, and for as long as it lasts. It cuts nothing else, and puts the segments together in
/// order.
pub proof fn law_graph_cuts_every_segment(
    segments: &[SpeechSegment],
    has_video: bool,
    seek_start: Double,
    graph: String,
)
    requires
        call_ensures(batch_filter, (segments, has_video, seek_start), graph),
    ensures
        exists|shown: Seq<Shown>|
            {
                &&& shown.len() == segments@.len()
                &&& forall|k: int|
                    0 <= k < segments@.len() ==> shown_for(
                        #[trigger] shown[k],
                        segments@[k],
                        seek_start,
                    )
                &&& graph@ == #[trigger] cutters(shown, has_video, segments@.len() as int)
                    + assembly(has_video, segments@.len())
            },
{
    let n = segments@.len() as int;
    let shown = Seq::new(
        segments@.len(),
        |k: int|
            Shown {
                start: fixed(segments@[k].start.difference(seek_start).floored()),
                duration: fixed(segments@[k].end.difference(segments@[k].start).floored()),
            },
    );
    assert forall|k: int| 0 <= k < segments@.len() implies shown_for(
        #[trigger] shown[k],
        segments@[k],
        seek_start,
    ) by {
        lemma_lead(segments@[k].start, seek_start);
        lemma_lead(segments@[k].end, segments@[k].start);
    }
    lemma_cutters(segments@, shown, has_video, seek_start, n);
    lemma_label_row("[v"@, n);
    lemma_label_row("[a"@, n);
    assert(graph@ =~= cutters(shown, has_video, n) + assembly(has_video, segments@.len()));
}

/// The video bitrate is that of the recording without 128 kbit/s for the sound, in whole kbit/s,
/// but never below 1000 nor above 15000, and 5000 where the recording tells none.
pub proof fn law_bitrate_follows_the_recording(original: Option<u64>, kbps: u64)
    requires
        call_ensures(video_kbps, (original,), kbps),
    ensures
        match original {
            Some(b) => {
                &&& b == 0 ==> kbps == 5000
                &&& 0 < b < 1_128_000 ==> kbps == 1000
                &&& 1_128_000 <= b < 15_001_000 + 128_000 ==> 1000 * kbps + 128_000 <= b < 1000 * (
                kbps + 1) + 128_000
                &&& b >= 15_001_000 + 128_000 ==> kbps == 15000
            },
            None => kbps == 5000,
        },
{
}

/// The command for a batch reads the input from the given point, through the graph for the batch,
/// and writes the output last; the picture is encoded at the bitrate that follows from that of the
/// recording, with twice that as a buffer where there is one.
pub proof fn law_batch_command(
    input: &str,
    output: &str,
    segments: &[SpeechSegment],
    has_video: bool,
    seek_start: Double,
    seek_text: &str,
    original: Option<u64>,
    macos: bool,
    args: Vec<String>,
    graph: String,
    kbps: u64,
)
    requires
        call_ensures(
            process_batch_to_ts,
            (input, output, segments, has_video, seek_start, seek_text, original, macos),
            args,
        ),
        call_ensures(batch_filter, (segments, has_video, seek_start), graph),
        call_ensures(video_kbps, (original,), kbps),
    ensures
        ({
            let a = texts(args@);
            let rate = decimal(kbps as nat) + "k"@;
            let picture = if !has_video {
                0int
            } else if macos {
                10
            } else {
                12
            };
            &&& a.len() == 17 + picture
            &&& a[0] == "-nostdin"@
            &&& a[1] == "-ss"@ && a[2] == seek_text@
            &&& a[3] == "-i"@ && a[4] == input@
            &&& a[5] == "-filter_complex"@ && a[6] == graph@
            &&& has_video ==> a[7] == "-map"@ && a[8] == "[fv]"@ && a[9] == "-c:v"@
            &&& has_video && macos ==> {
                &&& a[10] == "h264_videotoolbox"@
                &&& a[11] == "-b:v"@ && a[12] == rate
                &&& a[13] == "-profile:v"@ && a[14] == "high"@
                &&& a[15] == "-realtime"@ && a[16] == "true"@
            }
            &&& has_video && !macos ==> {
                &&& a[10] == "libx264"@
                &&& a[11] == "-crf"@ && a[12] == "23"@
                &&& a[13] == "-maxrate"@ && a[14] == rate
                &&& a[15] == "-bufsize"@ && a[16] == decimal((2 * kbps) as nat) + "k"@
                &&& a[17] == "-preset"@ && a[18] == "superfast"@
            }
            &&& a[7 + picture] == "-map"@ && a[8 + picture] == "[fa]"@
            &&& a[9 + picture] == "-c:a"@ && a[10 + picture] == "aac"@
            &&& a[11 + picture] == "-b:a"@ && a[12 + picture] == "128k"@
            &&& a[13 + picture] == "-f"@ && a[14 + picture] == "mpegts"@
            &&& a[15 + picture] == "-y"@ && a[16 + picture] == output@
        }),
{
}

/// The file of batch `i` is `part_`, the number of the batch, and `.ts`.
pub proof fn law_part_file_name(i: usize, name: String)
    requires
        call_ensures(part_file_name, (i,), name),
    ensures
        name@ == "part_"@ + decimal(i as nat) + ".ts"@,
{
}

/// The list of no parts is empty, and that of one part more has one line more, which names the
/// file of the next batch.
pub proof fn law_list_of_one_more(
    n: usize,
    m: usize,
    shorter: String,
    longer: String,
    name: String,
)
    requires
        call_ensures(ConcatMerger::list, (n,), shorter),
        call_ensures(ConcatMerger::list, (m,), longer),
        call_ensures(part_file_name, (n,), name),
        m == n + 1,
    ensures
        n == 0 ==> shorter@.len() == 0,
        longer@ == shorter@ + "file '"@ + name@ + "'\n"@,
{
    assert(longer@ =~= shorter@ + "file '"@ + name@ + "'\n"@);
}

/// A merge reads the list of as many parts as were written, by its path, copies their streams, and
/// writes the output last.
pub proof fn law_merge_reads_the_list(
    temp_dir: &str,
    output_path: &str,
    num_batches: usize,
    has_video: bool,
    merge: Merge,
    list: String,
)
    requires
        call_ensures(ConcatMerger::merge, (temp_dir, output_path, num_batches, has_video), merge),
        call_ensures(ConcatMerger::list, (num_batches,), list),
    ensures
        merge.list@ == list@,
        ({
            let a = texts(merge.args@);
            let n = a.len() as int;
            &&& n == (if has_video {
                12int
            } else {
                10
            })
            &&& a[0] == "-f"@ && a[1] == "concat"@
            &&& a[2] == "-safe"@ && a[3] == "0"@
            &&& a[4] == "-i"@ && a[5] == merge.list_path@
            &&& has_video ==> a[6] == "-c"@ && a[7] == "copy"@ && a[8] == "-movflags"@ && a[9]
                == "+faststart"@
            &&& !has_video ==> a[6] == "-c:a"@ && a[7] == "copy"@
            &&& a[n - 2] == "-y"@ && a[n - 1] == output_path@
        }),
{
}

} // verus!
