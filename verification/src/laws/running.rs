//! Laws on the batches of an export, the wait for them, and the messages on the way.
use vstd::prelude::*;
use vstd::arithmetic::div_mod::{lemma_fundamental_div_mod, lemma_fundamental_div_mod_converse};
use vstd::arithmetic::power2::{lemma2_to64, lemma2_to64_rest};
use crate::batch::{
    batch_count, count_batches, law_batches_are_filled, lemma_batch_bounds, permit_failure, Batch,
    BatchProcessor,
};
use crate::completion::{Completion, TaskEvent, WaitStep, Waiting};
use crate::double::{lemma_fraction_bits, Double};
use crate::ffmpeg::process_batch_to_ts;
use crate::laws::naming::{child, lemma_in_dir_is_child, plain_dir};
use crate::progress::{figures, ProgressEvent, ProgressNotifier};
use crate::segments::SpeechSegment;
use crate::text::{decimal, texts};

verus! {

/// A message with this content went out if there is a window, and none otherwise.
pub open spec fn sent(
    notice: Option<ProgressEvent>,
    attached: bool,
    percent: u64,
    key: Seq<char>,
    params: Seq<(Seq<char>, usize)>,
    eta: u64,
) -> bool {
    &&& notice is Some <==> attached
    &&& notice is Some ==> {
        &&& notice->0.percent.bits == percent
        &&& notice->0.message_key@ == key
        &&& figures(notice->0.params@) == params
        &&& notice->0.eta.bits == eta
    }
}

/// Bits of the figures that messages and results hold.
pub proof fn lemma_figures_bits()
    ensures
        Double::of_fraction(1, 2).bits == 0x3fe0_0000_0000_0000,
        Double::of_fraction(1, 1).bits == 0x3ff0_0000_0000_0000,
        Double::of_fraction(2, 1).bits == 0x4000_0000_0000_0000,
        Double::of_fraction(90, 1).bits == 0x4056_8000_0000_0000,
        Double::of_fraction(95, 1).bits == 0x4057_c000_0000_0000,
        Double::of_fraction(100, 1).bits == 0x4059_0000_0000_0000,
        Double::of_fraction(60, 1).bits == 0x404e_0000_0000_0000,
        Double::of_fraction(50, 1).bits == 0x4049_0000_0000_0000,
        Double::of_fraction(10, 1).bits == 0x4024_0000_0000_0000,
        Double::of_fraction(1667, 100).bits == 0x4030_ab85_1eb8_51ec,
        Double::of_fraction(25, 10).bits == 0x4004_0000_0000_0000,
        Double::of_fraction(40, 1).bits == 0x4044_0000_0000_0000,
{
    lemma2_to64();
    lemma2_to64_rest();
    lemma_fraction_bits(1, 2, 1021, 0x10_0000_0000_0000);
    lemma_fraction_bits(1, 1, 1022, 0x10_0000_0000_0000);
    lemma_fraction_bits(2, 1, 1023, 0x10_0000_0000_0000);
    lemma_fraction_bits(90, 1, 1028, 0x16_8000_0000_0000);
    lemma_fraction_bits(95, 1, 1028, 0x17_c000_0000_0000);
    lemma_fraction_bits(100, 1, 1028, 0x19_0000_0000_0000);
    lemma_fraction_bits(60, 1, 1027, 0x1e_0000_0000_0000);
    lemma_fraction_bits(50, 1, 1027, 0x19_0000_0000_0000);
    lemma_fraction_bits(10, 1, 1025, 0x14_0000_0000_0000);
    lemma_fraction_bits(1667, 100, 1026, 0x10_ab85_1eb8_51ec);
    lemma_fraction_bits(25, 10, 1023, 0x14_0000_0000_0000);
    lemma_fraction_bits(40, 1, 1027, 0x14_0000_0000_0000);
}

/// The messages of the stages: half a percent for the probe, one for the analysis, two for the start
/// of the batches and each submission, ninety-five for the merge with a second left, and a hundred at
/// the end.
pub proof fn law_messages_of_the_stages(
    notifier: ProgressNotifier,
    batch: usize,
    batches: usize,
    probe: Option<ProgressEvent>,
    analysis: Option<ProgressEvent>,
    start: Option<ProgressEvent>,
    submission: Option<ProgressEvent>,
    merging: Option<ProgressEvent>,
    complete: Option<ProgressEvent>,
)
    requires
        call_ensures(ProgressNotifier::emit_probe_start, (&notifier,), probe),
        call_ensures(ProgressNotifier::emit_analysis, (&notifier,), analysis),
        call_ensures(ProgressNotifier::emit_init_parallel, (&notifier, batches), start),
        call_ensures(ProgressNotifier::emit_submit_batch, (&notifier, batch, batches), submission),
        call_ensures(ProgressNotifier::emit_merging, (&notifier,), merging),
        call_ensures(ProgressNotifier::emit_complete, (&notifier,), complete),
        batch < usize::MAX,
    ensures
        sent(probe, notifier.attached, 0x3fe0_0000_0000_0000, "probe_start"@, Seq::empty(), 0),
        sent(analysis, notifier.attached, 0x3ff0_0000_0000_0000, "analysis"@, Seq::empty(), 0),
        sent(
            start,
            notifier.attached,
            0x4000_0000_0000_0000,
            "init_parallel"@,
            seq![("batches"@, batches)],
            0,
        ),
        sent(
            submission,
            notifier.attached,
            0x4000_0000_0000_0000,
            "submit_batch"@,
            seq![("current"@, (batch + 1) as usize), ("total"@, batches)],
            0,
        ),
        sent(
            merging,
            notifier.attached,
            0x4057_c000_0000_0000,
            "merging"@,
            Seq::empty(),
            0x3ff0_0000_0000_0000,
        ),
        sent(complete, notifier.attached, 0x4059_0000_0000_0000, "complete"@, Seq::empty(), 0),
{
    lemma_figures_bits();
}

/// After `completed` of `batches` batches, the message shows one percent and their share of ninety,
/// and as time left the average time of a batch for each that is missing. The numbers on the way are
/// those of the operations on them.
pub proof fn law_message_of_a_completed_batch(
    notifier: ProgressNotifier,
    completed: usize,
    batches: usize,
    elapsed: Double,
    notice: Option<ProgressEvent>,
    done: Double,
    all: Double,
    missing: Double,
    share: Double,
    part: Double,
    percent: Double,
    average: Double,
    eta: Double,
)
    requires
        completed <= batches,
        call_ensures(
            ProgressNotifier::emit_batch_completed,
            (&notifier, completed, batches, elapsed),
            notice,
        ),
        call_ensures(Double::from_count, (completed as u64,), done),
        call_ensures(Double::from_count, (batches as u64,), all),
        call_ensures(Double::from_count, ((batches - completed) as u64,), missing),
        call_ensures(Double::over, (done, all), share),
        call_ensures(Double::times, (share, Double { bits: 0x4056_8000_0000_0000 }), part),
        call_ensures(Double::plus, (Double { bits: 0x3ff0_0000_0000_0000 }, part), percent),
        call_ensures(Double::over, (elapsed, done), average),
        call_ensures(Double::times, (average, missing), eta),
    ensures
        sent(
            notice,
            notifier.attached,
            percent.bits,
            "batch_completed"@,
            seq![("completed"@, completed), ("total"@, batches)],
            eta.bits,
        ),
{
    lemma_figures_bits();
}

/// Any message is passed on as it is where there is a window, and not at all where there is none.
pub proof fn law_messages_are_passed_on(
    notifier: ProgressNotifier,
    percent: Double,
    key: &str,
    params: Vec<(String, usize)>,
    eta: Double,
    notice: Option<ProgressEvent>,
)
    requires
        call_ensures(ProgressNotifier::emit, (&notifier, percent, key, params, eta), notice),
    ensures
        sent(notice, notifier.attached, percent.bits, key@, figures(params@), eta.bits),
{
}

/// There are as many batches as the segments need: one less would not hold them.
pub proof fn law_number_of_batches(len: usize, per: usize, count: usize)
    requires
        call_ensures(count_batches, (len, per), count),
        per > 0,
    ensures
        len <= count * per,
        len > 0 ==> count > 0 && (count - 1) * per < len,
        len == 0 ==> count == 0,
{
    let (l, p, c) = (len as int, per as int, count as int);
    lemma_fundamental_div_mod(l + p - 1, p);
    let rest = (l + p - 1) % p;
    assert(p * c == c * p && (c - 1) * p == c * p - p) by (nonlinear_arith);
    if len == 0 {
        assert(0 * p == 0);
        lemma_fundamental_div_mod_converse(l + p - 1, p, 0, p - 1);
    }
    if len > 0 {
        assert(c > 0) by (nonlinear_arith)
            requires
                p * c + rest == l + p - 1,
                0 <= rest < p,
                l > 0,
                p > 0,
        ;
    }
}

/// An export works on batches of ten segments, four at the same time, and on what it was given.
pub proof fn law_processor_is_made_of_its_parts(
    ffmpeg_path: &str,
    input_path: &str,
    temp_dir: &str,
    segments: &[SpeechSegment],
    has_video: bool,
    bitrate: Option<u64>,
    notifier: ProgressNotifier,
    p: BatchProcessor<'_>,
)
    requires
        call_ensures(
            BatchProcessor::new,
            (ffmpeg_path, input_path, temp_dir, segments, has_video, bitrate, notifier),
            p,
        ),
    ensures
        p.segments_per_batch == 10,
        p.max_concurrent_tasks == 4,
        p.ffmpeg_path@ == ffmpeg_path@,
        p.input_path@ == input_path@,
        p.temp_dir@ == temp_dir@,
        p.speech_segments@ == segments@,
        p.has_video == has_video,
        p.original_bitrate == bitrate,
        p.notifier == notifier,
{
}

/// Batch `i` holds the segments from `i` times the size of a batch on, as many as fit and are left.
/// It is read from where its first segment begins, and written to the part of its number in the
/// temporary directory.
pub open spec fn batch_holds(p: BatchProcessor<'_>, b: Batch, i: int, count: usize) -> bool {
    let per = p.segments_per_batch as int;
    let left = p.speech_segments@.len() - i * per;
    &&& b.index == i
    &&& b.segments@.len() == (if left < per {
        left
    } else {
        per
    })
    &&& b.segments@.len() > 0
    &&& forall|k: int|
        0 <= k < b.segments@.len() ==> #[trigger] b.segments@[k] == p.speech_segments@[i * per + k]
    &&& b.seek_start == b.segments@[0].start
    &&& plain_dir(p.temp_dir@) ==> child(
        b.output@,
        p.temp_dir@,
        "part_"@ + decimal(i as nat) + ".ts"@,
    )
    &&& sent(
        b.notice,
        p.notifier.attached,
        0x4000_0000_0000_0000,
        "submit_batch"@,
        seq![("current"@, (i + 1) as usize), ("total"@, count)],
        0,
    )
}

proof fn lemma_batch_holds(p: BatchProcessor<'_>, b: Batch, i: int)
    requires
        p.is_batch(b, i),
        p.wf(),
        0 <= i < p.count(),
    ensures
        batch_holds(p, b, i, p.count() as usize),
{
    let per = p.segments_per_batch as int;
    let len = p.speech_segments@.len() as int;
    lemma_batch_bounds(len, per, i);
    law_batches_are_filled(p.speech_segments@, per, i);
    lemma_figures_bits();
    if plain_dir(p.temp_dir@) {
        lemma_in_dir_is_child(b.output@, p.temp_dir@, "part_"@ + decimal(i as nat) + ".ts"@);
    }
}

/// A batch is what its number says.
pub proof fn law_batch_holds_its_segments(
    p: BatchProcessor<'_>,
    index: usize,
    count: usize,
    b: Batch,
)
    requires
        call_ensures(BatchProcessor::batch, (&p, index), b),
        call_ensures(BatchProcessor::num_batches, (&p,), count),
        p.segments_per_batch > 0,
        index < count,
    ensures
        batch_holds(p, b, index as int, count),
{
    lemma_batch_holds(p, b, index as int);
}

/// The number of batches is that for the segments and the size of a batch.
pub proof fn law_processor_counts_batches(p: BatchProcessor<'_>, count: usize, same: usize)
    requires
        call_ensures(BatchProcessor::num_batches, (&p,), count),
        call_ensures(count_batches, (p.speech_segments@.len() as usize, p.segments_per_batch), same),
        p.segments_per_batch > 0,
        p.speech_segments@.len() <= usize::MAX,
    ensures
        count == same,
{
}

/// All batches are made, each holds what its number says, and every segment is in the one that its
/// place gives: none is left out, repeated or moved.
pub proof fn law_every_segment_is_in_its_batch(
    p: BatchProcessor<'_>,
    batches: Vec<Batch>,
    count: usize,
    j: int,
)
    requires
        call_ensures(BatchProcessor::process, (&p,), batches),
        call_ensures(BatchProcessor::num_batches, (&p,), count),
        p.segments_per_batch > 0,
    ensures
        batches@.len() == count,
        forall|i: int| 0 <= i < count ==> batch_holds(p, #[trigger] batches@[i], i, count),
        0 <= j < p.speech_segments@.len() ==> {
            let i = j / p.segments_per_batch as int;
            let k = j % p.segments_per_batch as int;
            i < batches@.len() && k < batches@[i].segments@.len() && batches@[i].segments@[k]
                == p.speech_segments@[j]
        },
{
    assert forall|i: int| 0 <= i < count implies batch_holds(
        p,
        #[trigger] batches@[i],
        i,
        count,
    ) by {
        lemma_batch_holds(p, batches@[i], i);
    }
    if 0 <= j < p.speech_segments@.len() {
        let per = p.segments_per_batch as int;
        let len = p.speech_segments@.len() as int;
        let i = j / per;
        let k = j % per;
        lemma_fundamental_div_mod(j, per);
        lemma_fundamental_div_mod(len + per - 1, per);
        let c = batch_count(len, per);
        let rest = (len + per - 1) % per;
        assert(0 <= i < c && i * per == per * i) by (nonlinear_arith)
            requires
                j == per * i + k,
                0 <= k < per,
                0 <= j < len,
                len + per - 1 == per * c + rest,
                0 <= rest < per,
        ;
        assert(batch_holds(p, batches@[i], i, count));
        assert(batches@[i].segments@[k] == p.speech_segments@[i * per + k]);
    }
}

/// The command for a batch is that for its segments, its file and its starting point.
pub proof fn law_command_of_a_batch(
    p: BatchProcessor<'_>,
    b: Batch,
    output: &str,
    segments: &[SpeechSegment],
    seek_text: &str,
    macos: bool,
    args: Vec<String>,
    same: Vec<String>,
)
    requires
        call_ensures(BatchProcessor::command, (&p, &b, seek_text, macos), args),
        output@ == b.output@,
        segments@ == b.segments@,
        call_ensures(
            process_batch_to_ts,
            (
                p.input_path,
                output,
                segments,
                p.has_video,
                b.seek_start,
                seek_text,
                p.original_bitrate,
                macos,
            ),
            same,
        ),
    ensures
        texts(args@) == texts(same@),
{
}

/// The wait begins with no batch completed, and is over at once where there are none.
pub proof fn law_wait_begins(num_batches: usize, w: Waiting)
    requires
        call_ensures(Completion::await_completion, (num_batches,), w),
    ensures
        num_batches == 0 ==> w == Waiting::Done(0),
        num_batches > 0 ==> w == Waiting::On(Completion { completed: 0, num_batches }),
{
}

/// A written batch counts, and ends the wait when it is the last; a failure and a breakdown end it
/// with their messages, and a cancellation as one; running out of tasks ends it with the batches so
/// far; and nothing else changes anything. Only a written batch is reported.
pub proof fn law_wait_goes_on(
    c: Completion,
    event: TaskEvent,
    notifier: ProgressNotifier,
    step: WaitStep,
)
    requires
        call_ensures(Completion::on_event, (c, event, notifier), step),
        c.completed < c.num_batches,
    ensures
        event is Succeeded && c.completed + 1 < c.num_batches ==> step.waiting == Waiting::On(
            Completion { completed: (c.completed + 1) as usize, num_batches: c.num_batches },
        ),
        event is Succeeded && c.completed + 1 == c.num_batches ==> step.waiting == Waiting::Done(
            c.num_batches,
        ),
        event is Failed ==> step.waiting is Failed && step.waiting->Failed_0@
            == "Batch processing error: "@ + event->Failed_error@,
        event is Panicked ==> step.waiting is Failed && step.waiting->Failed_0@
            == "Parallel task panicked: "@ + event->Panicked_error@,
        event is Exhausted ==> step.waiting == Waiting::Done(c.completed),
        event is Tick && event->cancelled ==> step.waiting is Cancelled,
        event is Tick && !event->cancelled ==> step.waiting == Waiting::On(c),
        !(event is Succeeded) ==> step.notice is None,
        event is Succeeded ==> (step.notice is Some <==> notifier.attached),
        event is Succeeded ==> forall|notice: Option<ProgressEvent>| #[trigger]
            call_ensures(
                ProgressNotifier::emit_batch_completed,
                (
                    &notifier,
                    (c.completed + 1) as usize,
                    c.num_batches,
                    event->elapsed,
                ),
                notice,
            ) ==> notice is Some == step.notice is Some && (notice is Some ==> notice->0@
                == step.notice->0@),
{
}

/// What a wait that is over gives: the number of batches, or the message of the failure or of the
/// cancellation.
pub proof fn law_end_of_the_wait(w: Waiting, r: Option<Result<usize, String>>)
    requires
        call_ensures(Waiting::outcome, (w,), r),
    ensures
        w is On ==> r is None,
        w is Done ==> r == Some(Ok::<usize, String>(w->Done_0)),
        w is Failed ==> r is Some && r->0 is Err && r->0->Err_0@ == w->Failed_0@,
        w is Cancelled ==> r is Some && r->0 is Err && r->0->Err_0@ == "EXPORT_CANCELLED"@,
{
}

/// A batch that gets no permit to run fails with the error behind what failed.
pub proof fn law_permit_failure_is_explained(error: &str, r: String)
    requires
        call_ensures(permit_failure, (error,), r),
    ensures
        r@ == "Semaphore error: "@ + error@,
{
}

} // verus!
