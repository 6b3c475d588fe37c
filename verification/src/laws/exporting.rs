//! Laws on the stages of an export.
use std::sync::atomic::AtomicBool;
use std::sync::Arc;
use vstd::prelude::*;
use crate::batch::{count_batches, BatchProcessor};
use crate::cancel::CancelChecker;
use crate::double::{lemma_difference_units, round_units, Double};
use crate::export::{
    remove_silence_from_video, Export, ExportEvent, ExportStep, Plan, Stage,
};
use crate::ffmpeg::{ConcatMerger, Merge};
use crate::laws::naming::{
    child, file, lemma_extended_bare, lemma_extended_file, lemma_in_dir_is_child, no_extension,
    plain_dir, plain_file, plain_front,
};
use crate::laws::running::{lemma_figures_bits, sent};
use crate::paths::{drive, extended, separator, separator_free};
use crate::progress::ProgressNotifier;
use crate::result::{ProcessResult, ProcessResultBuilder};
use crate::segments::{
    total_silence, SilenceSegment, SpeechSegment, SpeechSegmentCalculator,
};
use crate::text::texts;

verus! {

/// The task stays what it is.
pub open spec fn unchanged(a: Export, b: Export) -> bool {
    &&& a.input_path == b.input_path
    &&& a.output_path == b.output_path
    &&& a.silences == b.silences
    &&& a.notifier == b.notifier
}

/// An export begins with what it is given, waits for the probe, and says so.
pub proof fn law_export_begins(
    input: &str,
    output: &str,
    silences: Vec<SilenceSegment>,
    notifier: ProgressNotifier,
    step: ExportStep,
)
    requires
        call_ensures(remove_silence_from_video, (input, output, silences, notifier), step),
    ensures
        step.export.input_path@ == input@,
        step.export.output_path@ == output@,
        step.export.silences == silences,
        step.export.notifier == notifier,
        step.export.stage is Probing,
        step.remove is None,
        sent(
            step.notice,
            notifier.attached,
            0x3fe0_0000_0000_0000,
            "probe_start"@,
            Seq::empty(),
            0,
        ),
{
    lemma_figures_bits();
}

/// After the probe, an export without silences copies the recording, and one whose silences leave
/// nothing fails. Any other plans to write what is kept: the segments, the sum of the silences, and
/// the difference of it and the duration that was probed.
pub proof fn law_export_is_planned(
    export: Export,
    event: ExportEvent,
    step: ExportStep,
    silences: &[SilenceSegment],
    kept: Vec<SpeechSegment>,
    total: Double,
)
    requires
        call_ensures(Export::advance, (export, event), step),
        event is Probed,
        export.stage is Probing,
        silences@ == export.silences@,
        call_ensures(SpeechSegmentCalculator::calculate, (silences, event->info.duration), kept),
        call_ensures(total_silence, (silences,), total),
    ensures
        unchanged(export, step.export),
        step.remove is None,
        sent(
            step.notice,
            export.notifier.attached,
            0x3ff0_0000_0000_0000,
            "analysis"@,
            Seq::empty(),
            0,
        ),
        silences@.len() == 0 ==> step.export.stage is Copying && step.export.stage->duration
            == event->info.duration,
        silences@.len() > 0 && kept@.len() == 0 ==> step.export.stage is Done
            && step.export.stage->result is Err && step.export.stage->result->Err_0@
            == "剪辑完成后没有剩余有效片段"@,
        silences@.len() > 0 && kept@.len() > 0 ==> step.export.stage is Preparing && {
            let plan = step.export.stage->Preparing_plan;
            let info = event->info;
            &&& plan.segments@ == kept@
            &&& plan.has_video == info.has_video
            &&& plan.bitrate == info.bitrate
            &&& plan.original_duration == info.duration
            &&& plan.total_silence_removed == total
            &&& info.duration.finite() && total.finite() ==> plan.processed_duration.units()
                == round_units(info.duration.units() - total.units(), 1)
            &&& forall|rest: Double| #[trigger]
                call_ensures(Double::minus, (info.duration, total), rest)
                    ==> plan.processed_duration == rest
        },
{
    lemma_figures_bits();
    if event->info.duration.finite() && total.finite() {
        lemma_difference_units(event->info.duration, total);
    }
}

/// A recording with a picture is written where it was asked to be, whatever the path.
pub proof fn law_export_writes_where_it_was_asked(
    export: Export,
    event: ExportEvent,
    step: ExportStep,
)
    requires
        call_ensures(Export::advance, (export, event), step),
        event is Probed,
        export.stage is Probing,
        event->info.has_video,
    ensures
        step.export.stage is Copying ==> step.export.stage->Copying_output_path@
            == export.output_path@,
        step.export.stage is Preparing ==> step.export.stage->Preparing_plan.output_path@
            == export.output_path@,
{
}

/// A recording without a picture is written to a file of the same stem with the extension `m4a`. The
/// parts of either go to a directory of the same stem with the extension `temp_parts`.
pub proof fn law_export_keeps_the_stem(
    export: Export,
    event: ExportEvent,
    step: ExportStep,
    front: Seq<char>,
    stem: Seq<char>,
    extension: Seq<char>,
)
    requires
        call_ensures(Export::advance, (export, event), step),
        event is Probed,
        export.stage is Probing,
        export.output_path@ == front + file(stem, extension),
        plain_file(stem, extension),
        plain_front(front, file(stem, extension)),
    ensures
        step.export.stage is Copying && !event->info.has_video
            ==> step.export.stage->Copying_output_path@ == front + stem + "."@ + "m4a"@,
        step.export.stage is Preparing && !event->info.has_video
            ==> step.export.stage->Preparing_plan.output_path@ == front + stem + "."@ + "m4a"@,
        step.export.stage is Preparing ==> step.export.stage->Preparing_plan.temp_dir@ == front
            + stem + "."@ + "temp_parts"@,
{
    let has_video = event->info.has_video;
    if step.export.stage is Copying && !has_video {
        lemma_extended_file(
            step.export.stage->Copying_output_path@,
            front,
            stem,
            extension,
            "m4a"@,
        );
    }
    if step.export.stage is Preparing {
        let plan = step.export.stage->Preparing_plan;
        if has_video {
            lemma_extended_file(plan.temp_dir@, front, stem, extension, "temp_parts"@);
        } else {
            lemma_extended_file(plan.output_path@, front, stem, extension, "m4a"@);
            let old_name = file(stem, extension);
            assert forall|i: int| 0 <= i < stem.len() implies !separator(#[trigger] stem[i]) by {
                assert(stem[i] == old_name[i]);
            }
            assert(front.len() > 0 ==> (front + old_name)[0] == front[0]);
            lemma_parts_beside_sound(plan, front, stem);
        }
    }
}

/// The same of a path without an extension, which gets one.
pub proof fn law_export_without_extension(
    export: Export,
    event: ExportEvent,
    step: ExportStep,
    front: Seq<char>,
    name: Seq<char>,
)
    requires
        call_ensures(Export::advance, (export, event), step),
        event is Probed,
        export.stage is Probing,
        export.output_path@ == front + name,
        name.len() > 0,
        separator_free(name),
        no_extension(name),
        name != seq!['.'],
        plain_front(front, name),
    ensures
        step.export.stage is Copying && !event->info.has_video
            ==> step.export.stage->Copying_output_path@ == front + name + "."@ + "m4a"@,
        step.export.stage is Preparing && !event->info.has_video
            ==> step.export.stage->Preparing_plan.output_path@ == front + name + "."@ + "m4a"@,
        step.export.stage is Preparing ==> step.export.stage->Preparing_plan.temp_dir@ == front
            + name + "."@ + "temp_parts"@,
{
    let has_video = event->info.has_video;
    if step.export.stage is Copying && !has_video {
        lemma_extended_bare(step.export.stage->Copying_output_path@, front, name, "m4a"@);
    }
    if step.export.stage is Preparing {
        let plan = step.export.stage->Preparing_plan;
        if has_video {
            lemma_extended_bare(plan.temp_dir@, front, name, "temp_parts"@);
        } else {
            lemma_extended_bare(plan.output_path@, front, name, "m4a"@);
            lemma_parts_beside_sound(plan, front, name);
        }
    }
}

/// The parts of a sound file go to a directory of the same stem.
proof fn lemma_parts_beside_sound(plan: Plan, front: Seq<char>, stem: Seq<char>)
    requires
        extended(plan.temp_dir@, plan.output_path@, "temp_parts"@),
        plan.output_path@ == front + stem + "."@ + "m4a"@,
        stem.len() > 0,
        separator_free(stem),
        front.len() == 0 || front.last() == '/',
        !(front.len() > 1 && separator(front[0]) && separator(front[1])),
        front.len() == 0 ==> !drive(file(stem, "m4a"@)),
    ensures
        plan.temp_dir@ == front + stem + "."@ + "temp_parts"@,
{
    reveal_strlit("m4a");
    reveal_strlit(".");
    let name = file(stem, "m4a"@);
    let path = front + name;
    assert(plan.output_path@ =~= path);
    assert forall|i: int| 0 <= i < name.len() implies !separator(#[trigger] name[i]) by {
        if i < stem.len() {
            assert(name[i] == stem[i]);
        }
    }
    assert(name.len() > 4);
    if front.len() > 0 {
        assert(path[front.len() as int] == stem[0]);
    } else {
        assert(path =~= name);
    }
    assert(plain_front(front, name));
    lemma_extended_file(plan.temp_dir@, front, stem, "m4a"@, "temp_parts"@);
}

/// A copy leaves the recording as long as it is, with nothing removed.
pub proof fn law_copy_removes_nothing(
    export: Export,
    event: ExportEvent,
    step: ExportStep,
    input: &str,
    output: &str,
    same: ProcessResult,
)
    requires
        call_ensures(Export::advance, (export, event), step),
        event is Copied,
        export.stage is Copying,
        input@ == export.input_path@,
        output@ == export.stage->Copying_output_path@,
        call_ensures(
            ProcessResultBuilder::build,
            (
                input,
                output,
                export.stage->duration,
                export.stage->duration,
                0,
                Double { bits: 0 },
                event->Copied_elapsed,
                true,
                None::<String>,
            ),
            same,
        ),
    ensures
        unchanged(export, step.export),
        step.remove is None,
        step.notice is None,
        step.export.stage is Done && step.export.stage->result is Ok && same_result(
            step.export.stage->result->Ok_0,
            same,
        ),
{
}

/// The two results tell the same.
pub open spec fn same_result(a: ProcessResult, b: ProcessResult) -> bool {
    &&& a.input_path@ == b.input_path@
    &&& a.output_path@ == b.output_path@
    &&& a.original_duration == b.original_duration
    &&& a.processed_duration == b.processed_duration
    &&& a.silence_segments == b.silence_segments
    &&& a.total_silence_removed == b.total_silence_removed
    &&& a.compression_ratio == b.compression_ratio
    &&& a.processing_time == b.processing_time
    &&& a.success == b.success
    &&& a.error_message is Some == b.error_message is Some
}

/// Once its directory is made, the plan is transcoded, and the number of its batches is told.
pub proof fn law_plan_is_transcoded(
    export: Export,
    event: ExportEvent,
    step: ExportStep,
    batches: usize,
)
    requires
        call_ensures(Export::advance, (export, event), step),
        event is Prepared,
        export.stage is Preparing,
        call_ensures(
            count_batches,
            (export.stage->Preparing_plan.segments@.len() as usize, 10usize),
            batches,
        ),
        export.stage->Preparing_plan.segments@.len() <= usize::MAX,
    ensures
        unchanged(export, step.export),
        step.remove is None,
        step.export.stage == (Stage::Transcoding { plan: export.stage->Preparing_plan }),
        sent(
            step.notice,
            export.notifier.attached,
            0x4000_0000_0000_0000,
            "init_parallel"@,
            seq![("batches"@, batches)],
            0,
        ),
{
    lemma_figures_bits();
}

/// After the batches, the parts of those that were completed are merged, unless the export was
/// cancelled: then the directory of the plan is removed, and the export ends with the message of a
/// cancelled one.
pub proof fn law_parts_are_merged(export: Export, event: ExportEvent, step: ExportStep)
    requires
        call_ensures(Export::advance, (export, event), step),
        event is Transcoded,
        export.stage is Transcoding,
        event->checked is Err ==> event->checked->Err_0.temp_dir@
            == export.stage->Transcoding_plan.temp_dir@,
    ensures
        unchanged(export, step.export),
        event->checked is Ok ==> {
            &&& step.remove is None
            &&& step.export.stage == (Stage::Merging {
                plan: export.stage->Transcoding_plan,
                completed: event->completed,
            })
            &&& sent(
                step.notice,
                export.notifier.attached,
                0x4057_c000_0000_0000,
                "merging"@,
                Seq::empty(),
                0x3ff0_0000_0000_0000,
            )
        },
        event->checked is Err ==> {
            &&& step.remove is Some
            &&& step.remove->0@ == export.stage->Transcoding_plan.temp_dir@
            &&& step.notice is None
            &&& step.export.stage is Done
            &&& step.export.stage->result is Err
            &&& step.export.stage->result->Err_0@ == "EXPORT_CANCELLED"@
        },
{
    lemma_figures_bits();
}

/// After the merge the directory of the plan is removed, and then the export ends with a result of
/// the figures of the plan.
pub proof fn law_export_ends(
    export: Export,
    event: ExportEvent,
    step: ExportStep,
    input: &str,
    output: &str,
    same: ProcessResult,
)
    requires
        call_ensures(Export::advance, (export, event), step),
        event is Merged && export.stage is Merging || event is Cleared && export.stage is Clearing,
        event is Cleared ==> {
            let plan = export.stage->Clearing_plan;
            &&& input@ == export.input_path@
            &&& output@ == plan.output_path@
            &&& call_ensures(
                ProcessResultBuilder::build,
                (
                    input,
                    output,
                    plan.original_duration,
                    plan.processed_duration,
                    export.silences@.len() as usize,
                    plan.total_silence_removed,
                    event->Cleared_elapsed,
                    true,
                    None::<String>,
                ),
                same,
            )
            &&& export.silences@.len() <= usize::MAX
        },
    ensures
        unchanged(export, step.export),
        event is Merged ==> {
            &&& step.remove is Some
            &&& step.remove->0@ == export.stage->Merging_plan.temp_dir@
            &&& step.notice is None
            &&& step.export.stage == (Stage::Clearing { plan: export.stage->Merging_plan })
        },
        event is Cleared ==> {
            &&& step.remove is None
            &&& sent(
                step.notice,
                export.notifier.attached,
                0x4059_0000_0000_0000,
                "complete"@,
                Seq::empty(),
                0,
            )
            &&& step.export.stage is Done
            &&& step.export.stage->result is Ok
            &&& same_result(step.export.stage->result->Ok_0, same)
        },
{
    lemma_figures_bits();
}

/// A failure in any stage ends the export with its message, and nothing is sent or removed.
pub proof fn law_failure_ends_the_export(export: Export, event: ExportEvent, step: ExportStep)
    requires
        call_ensures(Export::advance, (export, event), step),
        event is Failed,
        !(export.stage is Done),
    ensures
        unchanged(export, step.export),
        step.remove is None,
        step.notice is None,
        step.export.stage is Done && step.export.stage->result is Err
            && step.export.stage->result->Err_0@ == event->error@,
{
}

/// A plan is carried out as it stands: by batches of its segments in its directory, a look at the
/// signal that names its directory, and a merge of its parts into its file.
pub proof fn law_plan_is_carried_out(
    plan: Plan,
    ffmpeg_path: &str,
    input_path: &str,
    notifier: ProgressNotifier,
    completed: usize,
    p: BatchProcessor<'_>,
    merge: Merge,
    temp_dir: &str,
    output: &str,
    same: Merge,
    cancel_signal: &Arc<AtomicBool>,
    checker: CancelChecker<'_>,
)
    requires
        call_ensures(Plan::cancel_checker, (&plan, cancel_signal), checker),
        call_ensures(Plan::batches, (&plan, ffmpeg_path, input_path, notifier), p),
        call_ensures(Plan::merge, (&plan, completed), merge),
        temp_dir@ == plan.temp_dir@,
        output@ == plan.output_path@,
        call_ensures(ConcatMerger::merge, (temp_dir, output, completed, plan.has_video), same),
    ensures
        checker.cancel_signal == cancel_signal,
        checker.temp_dir@ == plan.temp_dir@,
        p.ffmpeg_path@ == ffmpeg_path@,
        p.input_path@ == input_path@,
        p.temp_dir@ == plan.temp_dir@,
        p.speech_segments@ == plan.segments@,
        p.has_video == plan.has_video,
        p.original_bitrate == plan.bitrate,
        p.segments_per_batch == 10,
        p.max_concurrent_tasks == 4,
        p.notifier == notifier,
        merge.list@ == same.list@,
        plain_dir(temp_dir@) ==> child(merge.list_path@, temp_dir@, "list.txt"@) && child(
            same.list_path@,
            temp_dir@,
            "list.txt"@,
        ),
        texts(merge.args@).len() == texts(same.args@).len(),
        forall|i: int|
            0 <= i < texts(merge.args@).len() && i != 5 ==> #[trigger] texts(merge.args@)[i]
                == texts(same.args@)[i],
        texts(merge.args@)[5] == merge.list_path@,
{
    if plain_dir(temp_dir@) {
        lemma_in_dir_is_child(merge.list_path@, temp_dir@, "list.txt"@);
        lemma_in_dir_is_child(same.list_path@, temp_dir@, "list.txt"@);
    }
}

} // verus!
