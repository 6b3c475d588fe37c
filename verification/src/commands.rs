//! The commands of the application: what they are asked, what they set off, and what they answer.
use vstd::prelude::*;
use vstd::string::StringExecFns;
use crate::cancel::cancelled_text;
use crate::double::Double;
use crate::paths::{generate_output_path, is_generated};
use crate::probe::VideoInfo;
use crate::result::ProcessResult;
use crate::segments::SilenceSegment;
use crate::text::same_text;

verus! {

/// Sample rate, in hertz, where none is asked for.
pub const DEFAULT_SAMPLE_RATE: u32 = 16000;

/// The request to remove the silences from a recording.
#[derive(Clone, Debug)]
pub struct VideoProcessRequest {
    pub input_path: String,
    pub output_path: Option<String>,
    pub threshold_db: Double,
    pub min_silence_duration: Double,
    pub sample_rate: Option<u32>,
    pub segments: Option<Vec<SilenceSegment>>,
}

/// The answer to a request that was carried out.
#[derive(Clone, Debug)]
pub struct VideoProcessResponse {
    pub success: bool,
    pub message: String,
    pub original_duration: Double,
    pub processed_duration: Double,
    pub silence_segments: usize,
    pub total_silence_removed: Double,
    pub compression_ratio: Double,
    pub output_path: String,
    pub processing_time: Double,
}

/// What a request sets off. Where `silences` is absent, they are detected in the sound of the
/// recording.
#[derive(Clone, Debug)]
pub struct Task {
    pub ffmpeg_path: String,
    pub ffprobe_path: String,
    pub input_path: String,
    pub output_path: String,
    pub sample_rate: u32,
    pub threshold_db: Double,
    pub min_silence_duration: Double,
    pub silences: Option<Vec<SilenceSegment>>,
}

/// A message on the progress of an analysis.
#[derive(Clone, Debug)]
pub struct AnalysisEvent {
    pub stage: String,
    pub message: String,
    pub percent: u32,
}

/// What the extraction of the sound of a recording sets off.
#[derive(Clone, Debug)]
pub struct Extraction {
    pub ffmpeg_path: String,
    pub ffprobe_path: String,
    pub path: String,
    pub sample_rate: u32,
    pub threshold_db: Double,
    pub notice: AnalysisEvent,
}

/// The message where ffmpeg is missing.
pub open spec fn no_ffmpeg_text() -> Seq<char> {
    "FFmpeg not found"@
}

/// The message where ffprobe is missing.
pub open spec fn no_ffprobe_text() -> Seq<char> {
    "FFprobe not found"@
}

/// A sample rate, or the default.
pub open spec fn sample_rate_or_default(sample_rate: Option<u32>) -> u32 {
    match sample_rate {
        Some(rate) => rate,
        None => DEFAULT_SAMPLE_RATE,
    }
}

/// The path of ffprobe, which must be known.
pub fn ffprobe_tool(ffprobe_path: Option<String>) -> (r: Result<String, String>)
    ensures
        match ffprobe_path {
            Some(p) => r == Ok::<String, String>(p),
            None => r matches Err(e) && e@ == no_ffprobe_text(),
        },
{
    match ffprobe_path {
        Some(path) => Ok(path),
        None => Err("FFprobe not found".to_owned()),
    }
}

/// The paths of ffmpeg and ffprobe, which must be known; ffmpeg is asked for first.
pub fn tools(ffmpeg_path: Option<String>, ffprobe_path: Option<String>) -> (r: Result<
    (String, String),
    String,
>)
    ensures
        match (ffmpeg_path, ffprobe_path) {
            (None, _) => r matches Err(e) && e@ == no_ffmpeg_text(),
            (Some(_), None) => r matches Err(e) && e@ == no_ffprobe_text(),
            (Some(a), Some(b)) => r == Ok::<(String, String), String>((a, b)),
        },
{
    match ffmpeg_path {
        Some(ffmpeg) => match ffprobe_tool(ffprobe_path) {
            Ok(ffprobe) => Ok((ffmpeg, ffprobe)),
            Err(e) => Err(e),
        },
        None => Err("FFmpeg not found".to_owned()),
    }
}

fn rate_or_default(sample_rate: Option<u32>) -> (r: u32)
    ensures
        r == sample_rate_or_default(sample_rate),
{
    match sample_rate {
        Some(rate) => rate,
        None => DEFAULT_SAMPLE_RATE,
    }
}

/// `task` is what `request` asks for.
pub open spec fn is_task(task: Task, request: VideoProcessRequest) -> bool {
    &&& task.input_path == request.input_path
    &&& match request.output_path {
        Some(path) => task.output_path == path,
        None => is_generated(task.output_path@, request.input_path@),
    }
    &&& task.sample_rate == sample_rate_or_default(request.sample_rate)
    &&& task.threshold_db == request.threshold_db
    &&& task.min_silence_duration == request.min_silence_duration
    &&& task.silences == request.segments
}

/// What a request sets off, if the tools are there.
pub fn process_video(
    ffmpeg_path: Option<String>,
    ffprobe_path: Option<String>,
    request: VideoProcessRequest,
) -> (r: Result<Task, String>)
    ensures
        match (ffmpeg_path, ffprobe_path) {
            (None, _) => r matches Err(e) && e@ == no_ffmpeg_text(),
            (Some(_), None) => r matches Err(e) && e@ == no_ffprobe_text(),
            (Some(a), Some(b)) => r matches Ok(task) && task.ffmpeg_path == a && task.ffprobe_path
                == b && is_task(task, request),
        },
{
    match tools(ffmpeg_path, ffprobe_path) {
        Ok((ffmpeg_path, ffprobe_path)) => {
            let output_path: String = match request.output_path {
                Some(path) => path,
                None => generate_output_path(request.input_path.as_str()),
            };
            Ok(
                Task {
                    ffmpeg_path,
                    ffprobe_path,
                    input_path: request.input_path,
                    output_path,
                    sample_rate: rate_or_default(request.sample_rate),
                    threshold_db: request.threshold_db,
                    min_silence_duration: request.min_silence_duration,
                    silences: request.segments,
                },
            )
        },
        Err(e) => Err(e),
    }
}

/// What is to be done next for a task.
#[derive(Clone, Debug)]
pub enum RequestStep {
    /// The sound is extracted from the recording.
    Extract { sample_rate: u32 },
    /// Silences are detected in the extracted sound.
    Detect {
        cache_id: String,
        sample_rate: u32,
        threshold_db: Double,
        min_silence_duration: Double,
    },
    /// The recording is exported without these silences.
    Export { silences: Vec<SilenceSegment> },
    /// The request is refused with this message.
    Refuse { message: String },
}

/// What came of a step.
#[derive(Clone, Debug)]
pub enum RequestEvent {
    /// The sound was extracted at this sample rate.
    Extracted { cache_id: String, sample_rate: u32 },
    ExtractionFailed { error: String },
    /// These silences were found.
    Detected { silences: Vec<SilenceSegment> },
    DetectionFailed { error: String },
}

/// The message where the sound that a request needs could not be extracted.
pub open spec fn extraction_failure_text(error: Seq<char>) -> Seq<char> {
    "音频提取失败: "@ + error
}

/// The message where silences could not be detected.
pub open spec fn detection_failure_text(error: Seq<char>) -> Seq<char> {
    "静音检测失败: "@ + error
}

impl RequestStep {
    /// The event can come of this step.
    pub open spec fn awaits(self, event: RequestEvent) -> bool {
        match event {
            RequestEvent::Extracted { .. } => self is Extract,
            RequestEvent::ExtractionFailed { .. } => self is Extract,
            RequestEvent::Detected { .. } => self is Detect,
            RequestEvent::DetectionFailed { .. } => self is Detect,
        }
    }
}

/// `step` is the first one for a task: the export where the silences are given, and the
/// extraction of the sound otherwise.
pub open spec fn is_first_step(step: RequestStep, task: Task) -> bool {
    match task.silences {
        Some(given) => step matches RequestStep::Export { silences } && silences@ == given@,
        None => step == (RequestStep::Extract { sample_rate: task.sample_rate }),
    }
}

/// `step` is what follows an event: silences are detected in the sound as it was extracted, by the
/// figures of the request; the export follows with what was found; a failure refuses the request.
pub open spec fn is_next_step(step: RequestStep, task: Task, event: RequestEvent) -> bool {
    match event {
        RequestEvent::Extracted { cache_id, sample_rate } => step == (RequestStep::Detect {
            cache_id,
            sample_rate,
            threshold_db: task.threshold_db,
            min_silence_duration: task.min_silence_duration,
        }),
        RequestEvent::ExtractionFailed { error } => step matches RequestStep::Refuse { message }
            && message@ == extraction_failure_text(error@),
        RequestEvent::Detected { silences } => step == (RequestStep::Export { silences }),
        RequestEvent::DetectionFailed { error } => step matches RequestStep::Refuse { message }
            && message@ == detection_failure_text(error@),
    }
}

/// The first step for a task.
pub fn first_step(task: &Task) -> (r: RequestStep)
    ensures
        is_first_step(r, *task),
{
    match &task.silences {
        Some(given) => {
            let silences: Vec<SilenceSegment> = given.clone();
            assert(silences@ =~= given@);
            RequestStep::Export { silences }
        },
        None => RequestStep::Extract { sample_rate: task.sample_rate },
    }
}

/// The step that follows an event.
pub fn next_step(task: &Task, event: RequestEvent) -> (r: RequestStep)
    ensures
        is_next_step(r, *task, event),
{
    match event {
        RequestEvent::Extracted { cache_id, sample_rate } => RequestStep::Detect {
            cache_id,
            sample_rate,
            threshold_db: task.threshold_db,
            min_silence_duration: task.min_silence_duration,
        },
        RequestEvent::ExtractionFailed { error } => RequestStep::Refuse {
            message: audio_missing(error.as_str()),
        },
        RequestEvent::Detected { silences } => RequestStep::Export { silences },
        RequestEvent::DetectionFailed { error } => RequestStep::Refuse {
            message: detection_failure(error.as_str()),
        },
    }
}

/// The answer to a failed export: that of a cancelled one is told as it is.
pub open spec fn failure_text(error: Seq<char>) -> Seq<char> {
    if error == cancelled_text() {
        error
    } else {
        "视频处理失败: "@ + error
    }
}

/// `answer` tells the result of an export that took this long with all that led to it.
pub open spec fn tells(
    answer: VideoProcessResponse,
    result: ProcessResult,
    processing_time: Double,
) -> bool {
    &&& answer.success
    &&& answer.message@ == "视频处理完成"@
    &&& answer.original_duration == result.original_duration
    &&& answer.processed_duration == result.processed_duration
    &&& answer.silence_segments == result.silence_segments
    &&& answer.total_silence_removed == result.total_silence_removed
    &&& answer.compression_ratio == result.compression_ratio
    &&& answer.output_path == result.output_path
    &&& answer.processing_time == processing_time
}

/// The answer to a request, once its export has ended.
pub fn respond(result: Result<ProcessResult, String>, processing_time: Double) -> (r: Result<
    VideoProcessResponse,
    String,
>)
    ensures
        match result {
            Ok(p) => r matches Ok(answer) && tells(answer, p, processing_time),
            Err(error) => r matches Err(e) && e@ == failure_text(error@),
        },
{
    match result {
        Ok(p) => Ok(
            VideoProcessResponse {
                success: true,
                message: "视频处理完成".to_owned(),
                original_duration: p.original_duration,
                processed_duration: p.processed_duration,
                silence_segments: p.silence_segments,
                total_silence_removed: p.total_silence_removed,
                compression_ratio: p.compression_ratio,
                output_path: p.output_path,
                processing_time,
            },
        ),
        Err(error) => {
            if same_text(error.as_str(), "EXPORT_CANCELLED") {
                Err(error)
            } else {
                Err(explain("视频处理失败: ", error.as_str()))
            }
        },
    }
}

fn explain(what: &str, error: &str) -> (r: String)
    ensures
        r@ == what@ + error@,
{
    let mut text: String = what.to_owned();
    text.append(error);
    text
}

/// The answer to the question for information on a recording.
pub fn get_video_info(result: Result<VideoInfo, String>) -> (r: Result<VideoInfo, String>)
    ensures
        match result {
            Ok(info) => r == Ok::<VideoInfo, String>(info),
            Err(error) => r matches Err(e) && e@ == "获取视频信息失败: "@ + error@,
        },
{
    match result {
        Ok(info) => Ok(info),
        Err(error) => Err(explain("获取视频信息失败: ", error.as_str())),
    }
}

/// What the extraction of the sound of a recording sets off, if the tools are there. Silences
/// are first looked for below -40 dB.
pub fn extract_audio(
    ffmpeg_path: Option<String>,
    ffprobe_path: Option<String>,
    path: String,
    sample_rate: Option<u32>,
) -> (r: Result<Extraction, String>)
    ensures
        match (ffmpeg_path, ffprobe_path) {
            (None, _) => r matches Err(e) && e@ == no_ffmpeg_text(),
            (Some(_), None) => r matches Err(e) && e@ == no_ffprobe_text(),
            (Some(a), Some(b)) => r matches Ok(x) && {
                &&& x.ffmpeg_path == a
                &&& x.ffprobe_path == b
                &&& x.path == path
                &&& x.sample_rate == sample_rate_or_default(sample_rate)
                &&& x.threshold_db == Double::of_fraction(40, 1).negated()
                &&& x.notice.stage@ == "extracting"@
                &&& x.notice.message@ == "正在流式提取音频..."@
                &&& x.notice.percent == 5
            },
        },
{
    match tools(ffmpeg_path, ffprobe_path) {
        Ok((ffmpeg_path, ffprobe_path)) => Ok(
            Extraction {
                ffmpeg_path,
                ffprobe_path,
                path,
                sample_rate: rate_or_default(sample_rate),
                threshold_db: Double::from_fraction(40, 1).negate(),
                notice: AnalysisEvent {
                    stage: "extracting".to_owned(),
                    message: "正在流式提取音频...".to_owned(),
                    percent: 5,
                },
            },
        ),
        Err(e) => Err(e),
    }
}

/// The answer where the sound that was asked for could not be extracted.
pub fn extract_audio_failure(error: &str) -> (r: String)
    ensures
        r@ == "提取音频失败: "@ + error@,
{
    explain("提取音频失败: ", error)
}

/// The answer where the sound that a request needs could not be extracted.
pub fn audio_missing(error: &str) -> (r: String)
    ensures
        r@ == extraction_failure_text(error@),
{
    explain("音频提取失败: ", error)
}

/// The message at the start of a detection of silences.
pub fn detection_notice() -> (r: AnalysisEvent)
    ensures
        r.stage@ == "detecting"@,
        r.message@ == "正在分析音频静音片段..."@,
        r.percent == 60,
{
    AnalysisEvent {
        stage: "detecting".to_owned(),
        message: "正在分析音频静音片段...".to_owned(),
        percent: 60,
    }
}

fn detection_failure(error: &str) -> (r: String)
    ensures
        r@ == detection_failure_text(error@),
{
    explain("静音检测失败: ", error)
}

/// The answer to a detection of silences.
pub fn detect_silences(result: Result<Vec<SilenceSegment>, String>) -> (r: Result<
    Vec<SilenceSegment>,
    String,
>)
    ensures
        match result {
            Ok(silences) => r == Ok::<Vec<SilenceSegment>, String>(silences),
            Err(error) => r matches Err(e) && e@ == detection_failure_text(error@),
        },
{
    match result {
        Ok(silences) => Ok(silences),
        Err(error) => Err(detection_failure(error.as_str())),
    }
}

/// The answer to a request for a batch of exports.
pub fn batch_process(result: Result<Vec<ProcessResult>, String>) -> (r: Result<
    Vec<ProcessResult>,
    String,
>)
    ensures
        match result {
            Ok(results) => r == Ok::<Vec<ProcessResult>, String>(results),
            Err(error) => r matches Err(e) && e@ == "批量处理失败: "@ + error@,
        },
{
    match result {
        Ok(results) => Ok(results),
        Err(error) => Err(explain("批量处理失败: ", error.as_str())),
    }
}

/// The answer to a failed export is that of a cancelled one exactly when it was cancelled.
pub proof fn law_cancellation_is_told_apart(error: Seq<char>)
    ensures
        failure_text(error) == cancelled_text() <==> error == cancelled_text(),
{
    reveal_strlit("视频处理失败: ");
    reveal_strlit("EXPORT_CANCELLED");
    if error != cancelled_text() {
        assert(failure_text(error)[0] == '视');
        assert(cancelled_text()[0] == 'E');
    }
}

/// The steps of a request from the first on, with an event that comes of it between each two.
pub open spec fn is_request(
    task: Task,
    steps: Seq<RequestStep>,
    events: Seq<RequestEvent>,
) -> bool {
    &&& steps.len() == events.len() + 1
    &&& is_first_step(steps[0], task)
    &&& forall|i: int|
        0 <= i < events.len() ==> steps[i].awaits(#[trigger] events[i]) && is_next_step(
            steps[i + 1],
            task,
            events[i],
        )
}

/// An export is started at once with the silences of the request, or, where it has none, after the
/// sound was extracted at the rate of the task and silences were detected in it: in the sound as it
/// was extracted and by the figures of the task.
pub proof fn law_export_follows_detection(
    task: Task,
    steps: Seq<RequestStep>,
    events: Seq<RequestEvent>,
)
    requires
        is_request(task, steps, events),
        steps.last() is Export,
    ensures
        match task.silences {
            Some(given) => events.len() == 0 && steps[0]->silences@ == given@,
            None => {
                &&& events.len() == 2
                &&& steps[0] == (RequestStep::Extract { sample_rate: task.sample_rate })
                &&& events[0] matches RequestEvent::Extracted { cache_id, sample_rate }
                &&& steps[1] == (RequestStep::Detect {
                    cache_id,
                    sample_rate,
                    threshold_db: task.threshold_db,
                    min_silence_duration: task.min_silence_duration,
                })
                &&& events[1] matches RequestEvent::Detected { silences }
                &&& steps[2] == (RequestStep::Export { silences })
            },
        },
{
    if events.len() > 0 {
        assert(steps[0].awaits(events[0]));
    }
    if events.len() > 1 {
        assert(steps[1].awaits(events[1]));
    }
    if events.len() > 2 {
        assert(steps[2].awaits(events[2]));
    }
}

/// A failed extraction or detection ends the request with its message: no step follows, and so no
/// export.
pub proof fn law_failure_ends_the_request(
    task: Task,
    steps: Seq<RequestStep>,
    events: Seq<RequestEvent>,
    i: int,
)
    requires
        is_request(task, steps, events),
        0 <= i < events.len(),
        events[i] is ExtractionFailed || events[i] is DetectionFailed,
    ensures
        i == events.len() - 1,
        steps.last() matches RequestStep::Refuse { message } && message@ == (match events[i] {
            RequestEvent::ExtractionFailed { error } => extraction_failure_text(error@),
            RequestEvent::DetectionFailed { error } => detection_failure_text(error@),
            _ => message@,
        }),
        forall|k: int| 0 <= k < steps.len() ==> !((#[trigger] steps[k]) is Export),
{
    assert(steps[i].awaits(events[i]));
    if i + 1 < events.len() {
        assert(steps[i + 1].awaits(events[i + 1]));
    }
    assert forall|k: int| 0 <= k < steps.len() implies !((#[trigger] steps[k]) is Export) by {
        if k < events.len() {
            assert(steps[k].awaits(events[k]));
        }
    }
}

} // verus!
