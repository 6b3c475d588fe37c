//! Laws on requests, results and answers.
use vstd::prelude::*;
use crate::commands::{
    audio_missing, batch_process, detect_silences, detection_notice, extract_audio,
    extract_audio_failure, ffprobe_tool, first_step, get_video_info, next_step, process_video,
    respond, tools, AnalysisEvent, Extraction, RequestEvent, RequestStep, Task,
    VideoProcessRequest, VideoProcessResponse,
};
use crate::double::Double;
use crate::ffmpeg::{batch_outcome, ConcatMerger};
use crate::laws::naming::{
    child, file, lemma_generated_bare, lemma_generated_file, lemma_generated_front, named_dir,
    no_extension, plain_file,
};
use crate::laws::running::lemma_figures_bits;
use crate::paths::{drive, is_timestamp, separator_free};
use crate::probe::VideoInfo;
use crate::result::{batch_process_videos, ProcessResult, ProcessResultBuilder};
use crate::rounding::scale;
use crate::segments::SilenceSegment;
use crate::text::decimal;

verus! {

/// A result holds what it is built of.
pub proof fn law_result_holds_its_parts(
    input_path: &str,
    output_path: &str,
    original: Double,
    processed: Double,
    silences: usize,
    removed: Double,
    time: Double,
    success: bool,
    error: Option<String>,
    r: ProcessResult,
)
    requires
        call_ensures(
            ProcessResultBuilder::build,
            (input_path, output_path, original, processed, silences, removed, time, success, error),
            r,
        ),
    ensures
        r.input_path@ == input_path@,
        r.output_path@ == output_path@,
        r.original_duration == original,
        r.processed_duration == processed,
        r.silence_segments == silences,
        r.total_silence_removed == removed,
        r.processing_time == time,
        r.success == success,
        r.error_message == error,
{
}

/// The ratio is a hundred times the removed share of the original duration, as division and
/// multiplication give it, and zero for a recording without a length.
pub proof fn law_ratio_is_the_removed_share(
    input_path: &str,
    output_path: &str,
    original: Double,
    processed: Double,
    silences: usize,
    removed: Double,
    time: Double,
    success: bool,
    error: Option<String>,
    r: ProcessResult,
    share: Double,
    percent: Double,
)
    requires
        call_ensures(
            ProcessResultBuilder::build,
            (input_path, output_path, original, processed, silences, removed, time, success, error),
            r,
        ),
        call_ensures(Double::over, (removed, original), share),
        call_ensures(Double::times, (share, Double { bits: 0x4059_0000_0000_0000 }), percent),
    ensures
        !original.undefined() && original.units() > 0 ==> r.compression_ratio == percent,
        original.undefined() || original.units() <= 0 ==> r.compression_ratio.bits == 0,
{
    assert(scale(0) == 0);
    lemma_figures_bits();
}

/// A batch of exports gives one result for each input, in order, to a file numbered from one in the
/// given directory.
pub proof fn law_batch_results(
    inputs: &[String],
    output_dir: &str,
    results: Vec<ProcessResult>,
    i: int,
)
    requires
        call_ensures(batch_process_videos, (inputs, output_dir), results),
    ensures
        results@.len() == inputs@.len(),
        0 <= i < inputs@.len() ==> {
            let r = results@[i];
            &&& r.input_path@ == inputs@[i]@
            &&& r.output_path@ == output_dir@ + "/processed_"@ + decimal((i + 1) as nat) + ".mp4"@
            &&& r.original_duration.bits == 0x404e_0000_0000_0000
            &&& r.processed_duration.bits == 0x4049_0000_0000_0000
            &&& r.silence_segments == 5
            &&& r.total_silence_removed.bits == 0x4024_0000_0000_0000
            &&& r.compression_ratio.bits == 0x4030_ab85_1eb8_51ec
            &&& r.processing_time.bits == 0x4004_0000_0000_0000
            &&& r.success
            &&& r.error_message is None
        },
{
    lemma_figures_bits();
}

/// A command succeeds exactly when it reports success, and fails with its message.
pub proof fn law_outcomes_of_commands(
    succeeded: bool,
    batch: Result<(), String>,
    merge: Result<(), String>,
)
    requires
        call_ensures(batch_outcome, (succeeded,), batch),
        call_ensures(ConcatMerger::outcome, (succeeded,), merge),
    ensures
        batch is Ok <==> succeeded,
        merge is Ok <==> succeeded,
        batch is Err ==> batch->Err_0@ == "FFmpeg Batch Error"@,
        merge is Err ==> merge->Err_0@ == "合并片段失败"@,
{
}

/// Both tools are needed, and are handed on as they are; ffmpeg is missed first.
pub proof fn law_tools_are_needed(
    ffmpeg: Option<String>,
    ffprobe: Option<String>,
    both: Result<(String, String), String>,
    one: Result<String, String>,
)
    requires
        call_ensures(tools, (ffmpeg, ffprobe), both),
        call_ensures(ffprobe_tool, (ffprobe,), one),
    ensures
        both is Ok <==> ffmpeg is Some && ffprobe is Some,
        both is Ok ==> both->Ok_0.0 == ffmpeg->0 && both->Ok_0.1 == ffprobe->0,
        ffmpeg is None ==> both->Err_0@ == "FFmpeg not found"@,
        ffmpeg is Some && ffprobe is None ==> both->Err_0@ == "FFprobe not found"@,
        one is Ok <==> ffprobe is Some,
        one is Ok ==> one->Ok_0 == ffprobe->0,
        one is Err ==> one->Err_0@ == "FFprobe not found"@,
{
}

/// A task is what the request asks for: its paths, its figures and its silences, with a sample rate
/// of 16000 where it names none. It is refused exactly when a tool is missing.
pub proof fn law_task_is_what_is_asked_for(
    ffmpeg: Option<String>,
    ffprobe: Option<String>,
    request: VideoProcessRequest,
    r: Result<Task, String>,
)
    requires
        call_ensures(process_video, (ffmpeg, ffprobe, request), r),
    ensures
        r is Ok <==> ffmpeg is Some && ffprobe is Some,
        ffmpeg is None ==> r->Err_0@ == "FFmpeg not found"@,
        ffmpeg is Some && ffprobe is None ==> r->Err_0@ == "FFprobe not found"@,
        r is Ok ==> {
            let task = r->Ok_0;
            &&& task.ffmpeg_path == ffmpeg->0
            &&& task.ffprobe_path == ffprobe->0
            &&& task.input_path == request.input_path
            &&& request.output_path is Some ==> task.output_path == request.output_path->0
            &&& request.sample_rate is Some ==> task.sample_rate == request.sample_rate->0
            &&& request.sample_rate is None ==> task.sample_rate == 16000
            &&& task.threshold_db == request.threshold_db
            &&& task.min_silence_duration == request.min_silence_duration
            &&& task.silences == request.segments
        },
{
}

/// Where the request names no output, the task writes beside the input, with its stem and extension.
pub proof fn law_task_writes_beside_the_input(
    ffmpeg: Option<String>,
    ffprobe: Option<String>,
    request: VideoProcessRequest,
    r: Result<Task, String>,
    dir: Seq<char>,
    stem: Seq<char>,
    extension: Seq<char>,
)
    requires
        call_ensures(process_video, (ffmpeg, ffprobe, request), r),
        r is Ok,
        request.output_path is None,
        request.input_path@ == dir + seq!['/'] + file(stem, extension),
        plain_file(stem, extension),
        !drive(file(stem, extension)),
        named_dir(dir),
    ensures
        exists|stamp: Seq<char>|
            is_timestamp(stamp) && child(
                r->Ok_0.output_path@,
                dir,
                stem + "_"@ + #[trigger] (stamp + "_cut."@) + extension,
            ),
{
    lemma_generated_file(r->Ok_0.output_path@, request.input_path@, dir, stem, extension);
}

/// The same for an input without an extension, which is written as an `mp4`.
pub proof fn law_task_writes_beside_a_bare_name(
    ffmpeg: Option<String>,
    ffprobe: Option<String>,
    request: VideoProcessRequest,
    r: Result<Task, String>,
    dir: Seq<char>,
    name: Seq<char>,
)
    requires
        call_ensures(process_video, (ffmpeg, ffprobe, request), r),
        r is Ok,
        request.output_path is None,
        request.input_path@ == dir + seq!['/'] + name,
        name.len() > 0,
        no_extension(name),
        separator_free(name),
        name != seq!['.'],
        !drive(name),
        named_dir(dir),
    ensures
        exists|stamp: Seq<char>|
            is_timestamp(stamp) && child(
                r->Ok_0.output_path@,
                dir,
                name + "_"@ + #[trigger] (stamp + "_cut."@) + "mp4"@,
            ),
{
    lemma_generated_bare(r->Ok_0.output_path@, request.input_path@, dir, name);
}

/// The same for an input that is a name alone or lies in the root.
pub proof fn law_task_writes_a_name_alone(
    ffmpeg: Option<String>,
    ffprobe: Option<String>,
    request: VideoProcessRequest,
    r: Result<Task, String>,
    front: Seq<char>,
    stem: Seq<char>,
    extension: Seq<char>,
)
    requires
        call_ensures(process_video, (ffmpeg, ffprobe, request), r),
        r is Ok,
        request.output_path is None,
        request.input_path@ == front + file(stem, extension),
        plain_file(stem, extension),
        !drive(file(stem, extension)),
        front.len() == 0 || front == seq!['/'],
    ensures
        exists|stamp: Seq<char>|
            is_timestamp(stamp) && r->Ok_0.output_path@ == front + stem + "_"@ + #[trigger] (stamp
                + "_cut."@) + extension,
{
    lemma_generated_front(r->Ok_0.output_path@, front, stem, extension);
}

/// Given silences are exported at once and all of them; otherwise the sound is extracted at the rate
/// of the task, silences are detected in it at the rate it was extracted at and by the figures of the
/// task, and what was found is exported. A failure is told and ends the request.
pub proof fn law_steps_of_a_request(
    task: Task,
    event: RequestEvent,
    first: RequestStep,
    next: RequestStep,
)
    requires
        call_ensures(first_step, (&task,), first),
        call_ensures(next_step, (&task, event), next),
    ensures
        task.silences is Some ==> first is Export && first->silences@ == task.silences->0@,
        task.silences is None ==> first is Extract && first->Extract_sample_rate
            == task.sample_rate,
        event is Extracted ==> {
            &&& next is Detect
            &&& next->cache_id == event->cache_id
            &&& next->Detect_sample_rate == event->sample_rate
            &&& next->threshold_db == task.threshold_db
            &&& next->min_silence_duration == task.min_silence_duration
        },
        event is Detected ==> next is Export && next->silences@ == event->silences@,
        event is ExtractionFailed ==> next is Refuse && next->message@ == "音频提取失败: "@
            + event->ExtractionFailed_error@,
        event is DetectionFailed ==> next is Refuse && next->message@ == "静音检测失败: "@
            + event->DetectionFailed_error@,
{
}

/// The answer to a successful export tells its figures and its file, with the time of the whole
/// request; that to a cancelled one is its message; and any other failure is explained.
pub proof fn law_answer_to_an_export(
    result: Result<ProcessResult, String>,
    time: Double,
    r: Result<VideoProcessResponse, String>,
)
    requires
        call_ensures(respond, (result, time), r),
    ensures
        r is Ok <==> result is Ok,
        result is Ok ==> {
            let p = result->Ok_0;
            let a = r->Ok_0;
            &&& a.success
            &&& a.message@ == "视频处理完成"@
            &&& a.original_duration == p.original_duration
            &&& a.processed_duration == p.processed_duration
            &&& a.silence_segments == p.silence_segments
            &&& a.total_silence_removed == p.total_silence_removed
            &&& a.compression_ratio == p.compression_ratio
            &&& a.output_path == p.output_path
            &&& a.processing_time == time
        },
        result is Err && result->Err_0@ == "EXPORT_CANCELLED"@ ==> r->Err_0@
            == "EXPORT_CANCELLED"@,
        result is Err && result->Err_0@ != "EXPORT_CANCELLED"@ ==> r->Err_0@ == "视频处理失败: "@
            + result->Err_0@,
{
}

/// What was found is handed on as it is, and a failure is explained.
pub proof fn law_failures_are_explained(
    info: Result<VideoInfo, String>,
    silences: Result<Vec<SilenceSegment>, String>,
    results: Result<Vec<ProcessResult>, String>,
    error: &str,
    info_answer: Result<VideoInfo, String>,
    silences_answer: Result<Vec<SilenceSegment>, String>,
    results_answer: Result<Vec<ProcessResult>, String>,
    extraction: String,
    missing: String,
)
    requires
        call_ensures(get_video_info, (info,), info_answer),
        call_ensures(detect_silences, (silences,), silences_answer),
        call_ensures(batch_process, (results,), results_answer),
        call_ensures(extract_audio_failure, (error,), extraction),
        call_ensures(audio_missing, (error,), missing),
    ensures
        info is Ok ==> info_answer == info,
        info is Err ==> info_answer is Err && info_answer->Err_0@ == "获取视频信息失败: "@
            + info->Err_0@,
        silences is Ok ==> silences_answer == silences,
        silences is Err ==> silences_answer is Err && silences_answer->Err_0@ == "静音检测失败: "@
            + silences->Err_0@,
        results is Ok ==> results_answer == results,
        results is Err ==> results_answer is Err && results_answer->Err_0@ == "批量处理失败: "@
            + results->Err_0@,
        extraction@ == "提取音频失败: "@ + error@,
        missing@ == "音频提取失败: "@ + error@,
{
}

/// An extraction is that of the file that is asked for, at the given rate or at 16000, below -40 dB,
/// and is announced; it is refused exactly when a tool is missing.
pub proof fn law_extraction_is_what_is_asked_for(
    ffmpeg: Option<String>,
    ffprobe: Option<String>,
    path: String,
    sample_rate: Option<u32>,
    r: Result<Extraction, String>,
    detection: AnalysisEvent,
)
    requires
        call_ensures(extract_audio, (ffmpeg, ffprobe, path, sample_rate), r),
        call_ensures(detection_notice, (), detection),
    ensures
        r is Ok <==> ffmpeg is Some && ffprobe is Some,
        ffmpeg is None ==> r->Err_0@ == "FFmpeg not found"@,
        ffmpeg is Some && ffprobe is None ==> r->Err_0@ == "FFprobe not found"@,
        r is Ok ==> {
            let x = r->Ok_0;
            &&& x.ffmpeg_path == ffmpeg->0
            &&& x.ffprobe_path == ffprobe->0
            &&& x.path == path
            &&& sample_rate is Some ==> x.sample_rate == sample_rate->0
            &&& sample_rate is None ==> x.sample_rate == 16000
            &&& x.threshold_db.bits == 0xc044_0000_0000_0000
            &&& x.notice.stage@ == "extracting"@
            &&& x.notice.message@ == "正在流式提取音频..."@
            &&& x.notice.percent == 5
        },
        detection.stage@ == "detecting"@,
        detection.message@ == "正在分析音频静音片段..."@,
        detection.percent == 60,
{
    lemma_figures_bits();
}

} // verus!
