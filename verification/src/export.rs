//! The stages of an export that removes the silences from a recording.
use std::sync::atomic::AtomicBool;
use std::sync::Arc;
use vstd::prelude::*;
use crate::batch::{
    batch_count, count_batches, BatchProcessor, MAX_CONCURRENT_TASKS, SEGMENTS_PER_BATCH,
};
use crate::cancel::{cancelled_text, CancelChecker, Cancelled};
use crate::double::{zero, Double};
use crate::ffmpeg::{merge_command, part_list, ConcatMerger, Merge};
use crate::paths::{
    component, extended, extension_of, in_dir, last_dot, lemma_last_dot, lemma_trimmed, start_of,
    stem_of, tells_stem, trimmed, with_extension,
};
use crate::probe::VideoInfo;
use crate::progress::{
    analysis, complete, goes_out, init_parallel, merging, probe_start, ProgressEvent,
    ProgressNotifier,
};
use crate::result::{removed_percent, ProcessResult, ProcessResultBuilder};
use crate::segments::{
    durations_sum, speech, total_silence, SilenceSegment, SpeechSegment, SpeechSegmentCalculator,
};
use crate::text::texts;

verus! {

/// What is to be written, and how, once a recording has been probed.
#[derive(Clone, Debug)]
pub struct Plan {
    pub output_path: String,
    pub temp_dir: String,
    pub segments: Vec<SpeechSegment>,
    pub has_video: bool,
    pub bitrate: Option<u64>,
    pub original_duration: Double,
    pub processed_duration: Double,
    pub total_silence_removed: Double,
}

impl Plan {
    /// What splits the segments of the plan into batches.
    pub fn batches<'a>(
        &'a self,
        ffmpeg_path: &'a str,
        input_path: &'a str,
        notifier: ProgressNotifier,
    ) -> (r: BatchProcessor<'a>)
        ensures
            r.wf(),
            r.ffmpeg_path == ffmpeg_path,
            r.input_path == input_path,
            r.temp_dir@ == self.temp_dir@,
            r.speech_segments@ == self.segments@,
            r.has_video == self.has_video,
            r.original_bitrate == self.bitrate,
            r.segments_per_batch == SEGMENTS_PER_BATCH,
            r.max_concurrent_tasks == MAX_CONCURRENT_TASKS,
            r.notifier == notifier,
    {
        BatchProcessor::new(
            ffmpeg_path,
            input_path,
            self.temp_dir.as_str(),
            self.segments.as_slice(),
            self.has_video,
            self.bitrate,
            notifier,
        )
    }

    /// What looks for a cancellation after the batches.
    pub fn cancel_checker<'a>(&'a self, cancel_signal: &'a Arc<AtomicBool>) -> (r: CancelChecker<
        'a,
    >)
        ensures
            r.cancel_signal == cancel_signal,
            r.temp_dir@ == self.temp_dir@,
    {
        CancelChecker::new(cancel_signal, self.temp_dir.as_str())
    }

    /// The merge of the parts of the first `completed` batches.
    pub fn merge(&self, completed: usize) -> (r: Merge)
        ensures
            in_dir(r.list_path@, self.temp_dir@, "list.txt"@),
            r.list@ == part_list(completed as int),
            texts(r.args@) == merge_command(r.list_path@, self.output_path@, self.has_video),
    {
        ConcatMerger::merge(
            self.temp_dir.as_str(),
            self.output_path.as_str(),
            completed,
            self.has_video,
        )
    }
}

/// What an export waits for.
#[derive(Debug)]
pub enum Stage {
    /// The recording is probed.
    Probing,
    /// There is nothing to remove: the recording is copied to `output_path`.
    Copying { output_path: String, duration: Double },
    /// The temporary directory of the plan is made.
    Preparing { plan: Plan },
    /// The batches of the plan are transcoded.
    Transcoding { plan: Plan },
    /// The parts of `completed` batches are merged.
    Merging { plan: Plan, completed: usize },
    /// The parts are merged and the temporary directory is removed.
    Clearing { plan: Plan },
    /// The export is over.
    Done { result: Result<ProcessResult, String> },
}

/// What happened.
#[derive(Debug)]
pub enum ExportEvent {
    /// The recording was probed.
    Probed { info: VideoInfo },
    /// The recording was copied; the export has taken this many seconds.
    Copied { elapsed: Double },
    /// The temporary directory was made.
    Prepared,
    /// The wait for the batches ended well after this many of them, and the signal was then
    /// looked at.
    Transcoded { completed: usize, checked: Result<(), Cancelled> },
    /// The parts were merged.
    Merged,
    /// The temporary directory was removed; the export has taken this many seconds.
    Cleared { elapsed: Double },
    /// What the export waited for failed with this message.
    Failed { error: String },
}

/// An export on its way.
#[derive(Debug)]
pub struct Export {
    pub input_path: String,
    pub output_path: String,
    pub silences: Vec<SilenceSegment>,
    pub notifier: ProgressNotifier,
    pub stage: Stage,
}

/// What follows an event: a directory to remove, a message to send after that, and the export in
/// its next stage.
#[derive(Debug)]
pub struct ExportStep {
    pub remove: Option<String>,
    pub notice: Option<ProgressEvent>,
    pub export: Export,
}

/// The result of an export that went well.
pub open spec fn is_success(
    r: ProcessResult,
    input_path: Seq<char>,
    output_path: Seq<char>,
    original_duration: Double,
    processed_duration: Double,
    silence_segments: nat,
    total_silence_removed: Double,
    processing_time: Double,
) -> bool {
    &&& r.input_path@ == input_path
    &&& r.output_path@ == output_path
    &&& r.original_duration == original_duration
    &&& r.processed_duration == processed_duration
    &&& r.silence_segments == silence_segments
    &&& r.total_silence_removed == total_silence_removed
    &&& r.compression_ratio == removed_percent(total_silence_removed, original_duration)
    &&& r.processing_time == processing_time
    &&& r.success
    &&& r.error_message is None
}

/// Where the recording is written to: to the given path, but with the extension of a sound file
/// where it has no picture.
pub open spec fn is_target(r: Seq<char>, output_path: Seq<char>, has_video: bool) -> bool {
    if has_video {
        r == output_path
    } else {
        extended(r, output_path, "m4a"@)
    }
}

/// The message of an export that would leave nothing.
pub open spec fn nothing_left_text() -> Seq<char> {
    "剪辑完成后没有剩余有效片段"@
}

/// The plan for a recording of which `info` is known.
pub open spec fn is_plan(
    plan: Plan,
    output_path: Seq<char>,
    silences: Seq<SilenceSegment>,
    info: VideoInfo,
) -> bool {
    &&& is_target(plan.output_path@, output_path, info.has_video)
    &&& extended(plan.temp_dir@, plan.output_path@, "temp_parts"@)
    &&& plan.segments@ == speech(silences, info.duration)
    &&& plan.has_video == info.has_video
    &&& plan.bitrate == info.bitrate
    &&& plan.original_duration == info.duration
    &&& plan.total_silence_removed == durations_sum(silences, silences.len() as int)
    &&& plan.processed_duration == plan.original_duration.difference(plan.total_silence_removed)
}

/// The stage that follows the probe: a copy where there are no silences, the end where they leave
/// nothing, and otherwise the work on a plan.
pub open spec fn follows_probe(
    next: Stage,
    output_path: Seq<char>,
    silences: Seq<SilenceSegment>,
    info: VideoInfo,
) -> bool {
    if silences.len() == 0 {
        next matches Stage::Copying { output_path: target, duration } && is_target(
            target@,
            output_path,
            info.has_video,
        ) && duration == info.duration
    } else if speech(silences, info.duration).len() == 0 {
        next matches Stage::Done { result } && result matches Err(e) && e@ == nothing_left_text()
    } else {
        next matches Stage::Preparing { plan } && is_plan(plan, output_path, silences, info)
    }
}

impl Export {
    /// The event is one that the stage waits for. A cancellation that is seen names the temporary
    /// directory of the plan.
    pub open spec fn awaits(self, event: ExportEvent) -> bool {
        match event {
            ExportEvent::Probed { .. } => self.stage is Probing,
            ExportEvent::Copied { .. } => self.stage is Copying,
            ExportEvent::Prepared => self.stage is Preparing,
            ExportEvent::Transcoded { checked, .. } => {
                &&& self.stage matches Stage::Transcoding { plan }
                &&& checked is Err ==> checked->Err_0.temp_dir@ == plan.temp_dir@
            },
            ExportEvent::Merged => self.stage is Merging,
            ExportEvent::Cleared { .. } => self.stage is Clearing,
            ExportEvent::Failed { .. } => !(self.stage is Done),
        }
    }

    /// Both are the same task, perhaps in different stages.
    pub open spec fn same_task(self, other: Export) -> bool {
        &&& self.input_path == other.input_path
        &&& self.output_path == other.output_path
        &&& self.silences == other.silences
        &&& self.notifier == other.notifier
    }

    /// The export has failed with this message.
    pub open spec fn failed_with(self, message: Seq<char>) -> bool {
        self.stage matches Stage::Done { result } && result matches Err(e) && e@ == message
    }

    /// What follows an event that the export waits for.
    pub open spec fn advances(self, event: ExportEvent, step: ExportStep) -> bool {
        let attached = self.notifier.attached;
        &&& self.same_task(step.export)
        &&& match event {
            ExportEvent::Probed { info } => {
                &&& step.remove is None
                &&& goes_out(step.notice, attached, analysis())
                &&& follows_probe(step.export.stage, self.output_path@, self.silences@, info)
            },
            ExportEvent::Copied { elapsed } => {
                &&& step.remove is None
                &&& step.notice is None
                &&& self.stage matches Stage::Copying { output_path, duration }
                &&& step.export.stage matches Stage::Done { result }
                &&& result matches Ok(r)
                &&& is_success(
                    r,
                    self.input_path@,
                    output_path@,
                    duration,
                    duration,
                    0,
                    zero(),
                    elapsed,
                )
            },
            ExportEvent::Prepared => {
                &&& step.remove is None
                &&& self.stage matches Stage::Preparing { plan }
                &&& goes_out(
                    step.notice,
                    attached,
                    init_parallel(
                        batch_count(plan.segments@.len() as int, SEGMENTS_PER_BATCH as int) as usize,
                    ),
                )
                &&& step.export.stage == (Stage::Transcoding { plan })
            },
            ExportEvent::Transcoded { completed, checked } => match checked {
                Ok(_) => {
                    &&& step.remove is None
                    &&& goes_out(step.notice, attached, merging())
                    &&& self.stage matches Stage::Transcoding { plan }
                    &&& step.export.stage == (Stage::Merging { plan, completed })
                },
                Err(_) => {
                    &&& self.stage matches Stage::Transcoding { plan }
                    &&& step.remove matches Some(dir)
                    &&& dir@ == plan.temp_dir@
                    &&& step.notice is None
                    &&& step.export.failed_with(cancelled_text())
                },
            },
            ExportEvent::Merged => {
                &&& step.notice is None
                &&& self.stage matches Stage::Merging { plan, .. }
                &&& step.remove matches Some(dir)
                &&& dir@ == plan.temp_dir@
                &&& step.export.stage == (Stage::Clearing { plan })
            },
            ExportEvent::Cleared { elapsed } => {
                &&& step.remove is None
                &&& goes_out(step.notice, attached, complete())
                &&& self.stage matches Stage::Clearing { plan }
                &&& step.export.stage matches Stage::Done { result }
                &&& result matches Ok(r)
                &&& is_success(
                    r,
                    self.input_path@,
                    plan.output_path@,
                    plan.original_duration,
                    plan.processed_duration,
                    self.silences@.len(),
                    plan.total_silence_removed,
                    elapsed,
                )
            },
            ExportEvent::Failed { error } => {
                &&& step.remove is None
                &&& step.notice is None
                &&& step.export.failed_with(error@)
            },
        }
    }

    /// What follows an event that the export waits for.
    pub fn advance(self, event: ExportEvent) -> (r: ExportStep)
        requires
            self.awaits(event),
        ensures
            self.advances(event, r),
    {
        let notifier: ProgressNotifier = self.notifier;
        let (remove, notice, stage): (Option<String>, Option<ProgressEvent>, Stage) = match (
            self.stage,
            event,
        ) {
            (Stage::Probing, ExportEvent::Probed { info }) => (
                None,
                notifier.emit_analysis(),
                after_probe(self.output_path.as_str(), self.silences.as_slice(), &info),
            ),
            (Stage::Copying { output_path, duration }, ExportEvent::Copied { elapsed }) => {
                let result: ProcessResult = ProcessResultBuilder::build(
                    self.input_path.as_str(),
                    output_path.as_str(),
                    duration,
                    duration,
                    0,
                    Double { bits: 0 },
                    elapsed,
                    true,
                    None,
                );
                (None, None, Stage::Done { result: Ok(result) })
            },
            (Stage::Preparing { plan }, ExportEvent::Prepared) => {
                let num_batches: usize = count_batches(plan.segments.len(), SEGMENTS_PER_BATCH);
                (None, notifier.emit_init_parallel(num_batches), Stage::Transcoding { plan })
            },
            (Stage::Transcoding { plan }, ExportEvent::Transcoded { completed, checked }) => {
                match checked {
                    Ok(_) => (None, notifier.emit_merging(), Stage::Merging { plan, completed }),
                    Err(cancelled) => {
                        let message: String = cancelled.message();
                        (Some(cancelled.temp_dir), None, Stage::Done { result: Err(message) })
                    },
                }
            },
            (Stage::Merging { plan, .. }, ExportEvent::Merged) => {
                let dir: String = plan.temp_dir.clone();
                (Some(dir), None, Stage::Clearing { plan })
            },
            (Stage::Clearing { plan }, ExportEvent::Cleared { elapsed }) => {
                let result: ProcessResult = ProcessResultBuilder::build(
                    self.input_path.as_str(),
                    plan.output_path.as_str(),
                    plan.original_duration,
                    plan.processed_duration,
                    self.silences.len(),
                    plan.total_silence_removed,
                    elapsed,
                    true,
                    None,
                );
                (None, notifier.emit_complete(), Stage::Done { result: Ok(result) })
            },
            (_, ExportEvent::Failed { error }) => (None, None, Stage::Done { result: Err(error) }),
            // the export does not wait for any other event
            (stage, _) => (None, None, stage),
        };
        ExportStep {
            remove,
            notice,
            export: Export {
                input_path: self.input_path,
                output_path: self.output_path,
                silences: self.silences,
                notifier,
                stage,
            },
        }
    }
}

/// The export of a recording without its silences: it is announced and waits for the probe.
pub fn remove_silence_from_video(
    input_path: &str,
    output_path: &str,
    silences: Vec<SilenceSegment>,
    notifier: ProgressNotifier,
) -> (r: ExportStep)
    ensures
        r.remove is None,
        goes_out(r.notice, notifier.attached, probe_start()),
        r.export.input_path@ == input_path@,
        r.export.output_path@ == output_path@,
        r.export.silences == silences,
        r.export.notifier == notifier,
        r.export.stage is Probing,
{
    ExportStep {
        remove: None,
        notice: notifier.emit_probe_start(),
        export: Export {
            input_path: input_path.to_owned(),
            output_path: output_path.to_owned(),
            silences,
            notifier,
            stage: Stage::Probing,
        },
    }
}

fn target(output_path: &str, has_video: bool) -> (r: String)
    ensures
        is_target(r@, output_path@, has_video),
{
    if has_video {
        output_path.to_owned()
    } else {
        proof {
            reveal_strlit("m4a");
        }
        with_extension(output_path, "m4a")
    }
}

/// The stage that follows the probe.
fn after_probe(output_path: &str, silences: &[SilenceSegment], info: &VideoInfo) -> (r: Stage)
    ensures
        follows_probe(r, output_path@, silences@, *info),
{
    let output_path: String = target(output_path, info.has_video);
    if silences.len() == 0 {
        return Stage::Copying { output_path, duration: info.duration };
    }
    let segments: Vec<SpeechSegment> = SpeechSegmentCalculator::calculate(silences, info.duration);
    if segments.len() == 0 {
        return Stage::Done { result: Err("剪辑完成后没有剩余有效片段".to_owned()) };
    }
    let total_silence_removed: Double = total_silence(silences);
    proof {
        reveal_strlit("temp_parts");
    }
    let temp_dir: String = with_extension(output_path.as_str(), "temp_parts");
    Stage::Preparing {
        plan: Plan {
            output_path,
            temp_dir,
            segments,
            has_video: info.has_video,
            bitrate: info.bitrate,
            original_duration: info.duration,
            processed_duration: info.duration.minus(total_silence_removed),
            total_silence_removed,
        },
    }
}

/// An event that `from` waits for leads to `to`.
pub open spec fn leads(from: Export, event: ExportEvent, to: Export) -> bool {
    from.awaits(event) && exists|step: ExportStep|
        step.export == to && #[trigger] from.advances(event, step)
}

/// The states of an export from its start on, with an event between each two of them.
pub open spec fn is_run(states: Seq<Export>, events: Seq<ExportEvent>) -> bool {
    &&& states.len() == events.len() + 1
    &&& states[0].stage is Probing
    &&& forall|i: int|
        0 <= i < events.len() ==> leads(states[i], #[trigger] events[i], states[i + 1])
}

/// An export that is over waits for nothing more.
pub proof fn law_done_is_final(export: Export, event: ExportEvent)
    requires
        export.stage is Done,
    ensures
        !export.awaits(event),
{
}

/// A cancellation that is seen after the batches ends the export with the message of a cancelled
/// export: the parts are removed and never merged.
pub proof fn law_cancelled_export_is_not_merged(
    export: Export,
    completed: usize,
    seen: Cancelled,
    step: ExportStep,
    later: ExportEvent,
)
    requires
        export.awaits(ExportEvent::Transcoded { completed, checked: Err(seen) }),
        export.advances(ExportEvent::Transcoded { completed, checked: Err(seen) }, step),
    ensures
        step.export.failed_with(cancelled_text()),
        step.remove matches Some(dir) && dir@ == export.stage->Transcoding_plan.temp_dir@,
        !step.export.awaits(later),
{
}

proof fn lemma_next(states: Seq<Export>, events: Seq<ExportEvent>, i: int)
    requires
        is_run(states, events),
        0 <= i < events.len(),
    ensures
        states[i].awaits(events[i]),
        exists|step: ExportStep|
            step.export == states[i + 1] && #[trigger] states[i].advances(events[i], step),
{
    assert(leads(states[i], events[i], states[i + 1]));
}

/// An export that removes silences and succeeds has been probed, prepared, transcoded without
/// being cancelled, merged and cleared, in this order and each once. Its result tells the duration that
/// was probed, the sum of the silences, and the difference of the two.
pub proof fn law_success_passes_every_stage(states: Seq<Export>, events: Seq<ExportEvent>)
    requires
        is_run(states, events),
        states[0].silences@.len() > 0,
        states.last().stage matches Stage::Done { result } && result is Ok,
    ensures
        events.len() == 5,
        events[0] is Probed,
        events[1] is Prepared,
        events[2] matches ExportEvent::Transcoded { checked, .. } && checked is Ok,
        events[3] is Merged,
        events[4] is Cleared,
        ({
            let info = events[0]->info;
            let start = states[0];
            let removed = durations_sum(start.silences@, start.silences@.len() as int);
            let r = states[5].stage->result.unwrap();
            is_target(r.output_path@, start.output_path@, info.has_video) && is_success(
                r,
                start.input_path@,
                r.output_path@,
                info.duration,
                info.duration.difference(removed),
                start.silences@.len(),
                removed,
                events[4]->Cleared_elapsed,
            )
        }),
{
    lemma_next(states, events, 0);
    lemma_next(states, events, 1);
    lemma_next(states, events, 2);
    lemma_next(states, events, 3);
    lemma_next(states, events, 4);
    if events.len() > 5 {
        lemma_next(states, events, 5);
    }
}

/// An export without silences that succeeds has been probed and copied, and nothing else: its
/// result tells that nothing was removed.
pub proof fn law_nothing_to_remove_is_a_copy(states: Seq<Export>, events: Seq<ExportEvent>)
    requires
        is_run(states, events),
        states[0].silences@.len() == 0,
        states.last().stage matches Stage::Done { result } && result is Ok,
    ensures
        events.len() == 2,
        events[0] is Probed,
        events[1] is Copied,
        ({
            let info = events[0]->info;
            let r = states[2].stage->result.unwrap();
            is_target(r.output_path@, states[0].output_path@, info.has_video) && is_success(
                r,
                states[0].input_path@,
                r.output_path@,
                info.duration,
                info.duration,
                0,
                zero(),
                events[1]->Copied_elapsed,
            )
        }),
{
    lemma_next(states, events, 0);
    lemma_next(states, events, 1);
    if events.len() > 2 {
        lemma_next(states, events, 2);
    }
}

/// A recording without a picture is written to a file of the given name with the extension of a
/// sound file.
pub proof fn law_sound_only_is_m4a(r: Seq<char>, output_path: Seq<char>, name: Seq<char>)
    requires
        is_target(r, output_path, false),
        tells_stem(output_path, name),
    ensures
        r == output_path.take(start_of(output_path, name)) + stem_of(name) + ".m4a"@,
{
    reveal_strlit(".m4a");
    reveal_strlit(".");
    reveal_strlit("m4a");
    lemma_stem_in_path(output_path, name);
    assert(r =~= output_path.take(start_of(output_path, name)) + stem_of(name) + ".m4a"@);
}

/// The beginning of a path up to the stem of its name is what is before the name, and the stem.
proof fn lemma_stem_in_path(path: Seq<char>, name: Seq<char>)
    requires
        component(path, name),
    ensures
        path.take(start_of(path, name) + stem_of(name).len()) == path.take(start_of(path, name))
            + stem_of(name),
{
    lemma_last_dot(name);
    lemma_trimmed(path);
    let p = trimmed(path);
    let at = start_of(path, name);
    let stem = stem_of(name);
    assert(path.take(at + stem.len()) =~= path.take(p.len() as int).take(at + stem.len()));
    assert(p.take(at + stem.len()) =~= p.take(at) + p.skip(at).take(stem.len() as int));
    assert(p.take(at) =~= path.take(at));
    assert(name.take(stem.len() as int) =~= stem);
}

/// The temporary directory is not the file that is written, unless that has the extension of a
/// temporary directory itself.
pub proof fn law_temp_dir_is_apart(temp_dir: Seq<char>, output_path: Seq<char>, name: Seq<char>)
    requires
        extended(temp_dir, output_path, "temp_parts"@),
        tells_stem(output_path, name),
        extension_of(name) != Some("temp_parts"@),
    ensures
        temp_dir != output_path,
{
    reveal_strlit(".");
    reveal_strlit("temp_parts");
    lemma_stem_in_path(output_path, name);
    lemma_last_dot(name);
    lemma_trimmed(output_path);
    let p = trimmed(output_path);
    let at = start_of(output_path, name);
    let stem = stem_of(name);
    if temp_dir == output_path {
        assert(temp_dir.last() == 's');
        assert(p =~= output_path);
        assert(name =~= output_path.skip(at));
        assert(output_path.skip(at) =~= stem + "."@ + "temp_parts"@);
        assert(last_dot(name) == stem.len());
        assert(name.skip(last_dot(name) + 1) =~= "temp_parts"@);
    }
}

} // verus!
