//! Batches of segments that are transcoded in parallel.
use vstd::prelude::*;
use vstd::string::StringExecFns;
use crate::double::Double;
use crate::ffmpeg::{
    batch_command, lemma_part_name_plain, part_file_name, part_name, process_batch_to_ts,
};
use crate::paths::{in_dir, join};
use crate::progress::{goes_out, submit_batch, ProgressEvent, ProgressNotifier};
use crate::segments::{
    in_order, law_speech_in_order, law_speech_lasts, speech, times_finite, SilenceSegment,
    SpeechSegment,
};
use crate::text::texts;

verus! {

/// Segments in one batch.
pub const SEGMENTS_PER_BATCH: usize = 10;

/// Batches that are transcoded at the same time.
pub const MAX_CONCURRENT_TASKS: usize = 4;

/// Number of batches of `per` that `len` segments fill, the last one perhaps not to the full.
pub open spec fn batch_count(len: int, per: int) -> int {
    (len + per - 1) / per
}

/// Where batch `i` ends.
pub open spec fn batch_end(len: int, per: int, i: int) -> int {
    if (i + 1) * per <= len {
        (i + 1) * per
    } else {
        len
    }
}

/// The segments of batch `i`.
pub open spec fn batch_of(segments: Seq<SpeechSegment>, per: int, i: int) -> Seq<SpeechSegment> {
    segments.subrange(i * per, batch_end(segments.len() as int, per, i))
}

/// One batch: its number, its segments, the file it is written to, where reading of the input
/// starts, and the message of its submission.
#[derive(Clone, Debug)]
pub struct Batch {
    pub index: usize,
    pub segments: Vec<SpeechSegment>,
    pub output: String,
    pub seek_start: Double,
    pub notice: Option<ProgressEvent>,
}

/// Splits the kept segments of a recording into batches.
#[derive(Clone, Copy, Debug)]
pub struct BatchProcessor<'a> {
    pub ffmpeg_path: &'a str,
    pub input_path: &'a str,
    pub temp_dir: &'a str,
    pub speech_segments: &'a [SpeechSegment],
    pub has_video: bool,
    pub original_bitrate: Option<u64>,
    pub segments_per_batch: usize,
    pub max_concurrent_tasks: usize,
    pub notifier: ProgressNotifier,
}

impl<'a> BatchProcessor<'a> {
    /// Batches are not empty.
    pub open spec fn wf(self) -> bool {
        self.segments_per_batch > 0
    }

    /// Number of batches.
    pub open spec fn count(self) -> int {
        batch_count(self.speech_segments@.len() as int, self.segments_per_batch as int)
    }

    /// `b` is batch `i`: reading starts where its first segment does, and it is written to the
    /// part of its number in the temporary directory.
    pub open spec fn is_batch(self, b: Batch, i: int) -> bool {
        &&& b.index == i
        &&& b.segments@ == batch_of(self.speech_segments@, self.segments_per_batch as int, i)
        &&& in_dir(b.output@, self.temp_dir@, part_name(i as nat))
        &&& b.seek_start == self.speech_segments@[i * self.segments_per_batch].start
        &&& goes_out(
            b.notice,
            self.notifier.attached,
            submit_batch(i as usize, self.count() as usize),
        )
    }

    pub fn new(
        ffmpeg_path: &'a str,
        input_path: &'a str,
        temp_dir: &'a str,
        speech_segments: &'a [SpeechSegment],
        has_video: bool,
        original_bitrate: Option<u64>,
        notifier: ProgressNotifier,
    ) -> (r: BatchProcessor<'a>)
        ensures
            r.ffmpeg_path == ffmpeg_path,
            r.input_path == input_path,
            r.temp_dir == temp_dir,
            r.speech_segments == speech_segments,
            r.has_video == has_video,
            r.original_bitrate == original_bitrate,
            r.segments_per_batch == SEGMENTS_PER_BATCH,
            r.max_concurrent_tasks == MAX_CONCURRENT_TASKS,
            r.notifier == notifier,
            r.wf(),
    {
        BatchProcessor {
            ffmpeg_path,
            input_path,
            temp_dir,
            speech_segments,
            has_video,
            original_bitrate,
            segments_per_batch: SEGMENTS_PER_BATCH,
            max_concurrent_tasks: MAX_CONCURRENT_TASKS,
            notifier,
        }
    }

    /// Number of batches.
    pub fn num_batches(&self) -> (r: usize)
        requires
            self.wf(),
        ensures
            r == self.count(),
    {
        count_batches(self.speech_segments.len(), self.segments_per_batch)
    }

    /// Batch `index`.
    pub fn batch(&self, index: usize) -> (r: Batch)
        requires
            self.wf(),
            index < self.count(),
        ensures
            self.is_batch(r, index as int),
    {
        let len: usize = self.speech_segments.len();
        let per: usize = self.segments_per_batch;
        let num_batches: usize = self.num_batches();
        proof {
            lemma_batch_bounds(len as int, per as int, index as int);
            lemma_part_name_plain(index as nat);
        }
        let start: usize = index * per;
        let end: usize = if len - start < per {
            len
        } else {
            start + per
        };
        let mut segments: Vec<SpeechSegment> = Vec::new();
        let mut i: usize = start;
        while i < end
            invariant
                start <= i <= end <= self.speech_segments@.len(),
                segments@ == self.speech_segments@.subrange(start as int, i as int),
            decreases end - i,
        {
            segments.push(self.speech_segments[i]);
            i = i + 1;
            assert(segments@ =~= self.speech_segments@.subrange(start as int, i as int));
        }
        Batch {
            index,
            segments,
            output: join(self.temp_dir, part_file_name(index).as_str()),
            seek_start: self.speech_segments[start].start,
            notice: self.notifier.emit_submit_batch(index, num_batches),
        }
    }

    /// All batches, in order.
    pub fn process(&self) -> (r: Vec<Batch>)
        requires
            self.wf(),
        ensures
            r@.len() == self.count(),
            forall|i: int| 0 <= i < r@.len() ==> self.is_batch(#[trigger] r@[i], i),
    {
        let num_batches: usize = self.num_batches();
        let mut batches: Vec<Batch> = Vec::new();
        let mut i: usize = 0;
        while i < num_batches
            invariant
                self.wf(),
                num_batches == self.count(),
                i <= num_batches,
                batches@.len() == i,
                forall|j: int| 0 <= j < i ==> self.is_batch(#[trigger] batches@[j], j),
            decreases num_batches - i,
        {
            batches.push(self.batch(i));
            i = i + 1;
        }
        batches
    }

    /// The arguments of the command that transcodes a batch. `seek_text` is the text of its
    /// `seek_start`, `macos` whether the hardware encoder of macOS is used.
    pub fn command(&self, batch: &Batch, seek_text: &str, macos: bool) -> (r: Vec<String>)
        ensures
            texts(r@) == batch_command(
                self.input_path@,
                batch.output@,
                batch.segments@,
                self.has_video,
                batch.seek_start,
                seek_text@,
                self.original_bitrate,
                macos,
            ),
    {
        process_batch_to_ts(
            self.input_path,
            batch.output.as_str(),
            batch.segments.as_slice(),
            self.has_video,
            batch.seek_start,
            seek_text,
            self.original_bitrate,
            macos,
        )
    }
}

/// Number of batches of `per` that `len` segments fill.
pub fn count_batches(len: usize, per: usize) -> (r: usize)
    requires
        per > 0,
    ensures
        r == batch_count(len as int, per as int),
{
    let whole: usize = len / per;
    proof {
        let (l, p, w) = (len as int, per as int, whole as int);
        vstd::arithmetic::div_mod::lemma_fundamental_div_mod(l, p);
        let rest = l % p;
        assert(l == p * w + rest);
        if rest == 0 {
            vstd::arithmetic::div_mod::lemma_fundamental_div_mod_converse(l + p - 1, p, w, p - 1);
        } else {
            assert(p * (w + 1) == p * w + p) by (nonlinear_arith);
            vstd::arithmetic::div_mod::lemma_fundamental_div_mod_converse(
                l + p - 1,
                p,
                w + 1,
                rest - 1,
            );
            assert(w < l) by (nonlinear_arith)
                requires
                    l == p * w + rest,
                    rest > 0,
                    p > 0,
                    w >= 0,
            ;
        }
    }
    if len % per == 0 {
        whole
    } else {
        whole + 1
    }
}

/// A batch begins within the segments.
pub proof fn lemma_batch_bounds(len: int, per: int, i: int)
    requires
        per > 0,
        len >= 0,
        0 <= i < batch_count(len, per),
    ensures
        0 <= i * per < len,
        (i + 1) * per == i * per + per,
        i * per < batch_end(len, per, i) <= len,
        batch_end(len, per, i) - i * per <= per,
{
    let count = batch_count(len, per);
    vstd::arithmetic::div_mod::lemma_fundamental_div_mod(len + per - 1, per);
    let r = (len + per - 1) % per;
    assert(0 <= i * per && i * per + per <= per * count && (i + 1) * per == i * per + per) by (nonlinear_arith)
        requires
            0 <= i < count,
            per > 0,
    ;
    assert(per * count <= len + per - 1);
}

/// Every batch holds at least one segment and no more than fit.
pub proof fn law_batches_are_filled(segments: Seq<SpeechSegment>, per: int, i: int)
    requires
        per > 0,
        0 <= i < batch_count(segments.len() as int, per),
    ensures
        0 < batch_of(segments, per, i).len() <= per,
        batch_of(segments, per, i)[0] == segments[i * per],
{
    lemma_batch_bounds(segments.len() as int, per, i);
}

/// The segments of the first `n` batches.
pub open spec fn batched(segments: Seq<SpeechSegment>, per: int, n: int) -> Seq<SpeechSegment>
    decreases n,
{
    if n <= 0 {
        Seq::empty()
    } else {
        batched(segments, per, n - 1) + batch_of(segments, per, n - 1)
    }
}

proof fn lemma_batched_prefix(segments: Seq<SpeechSegment>, per: int, n: int)
    requires
        per > 0,
        0 <= n <= batch_count(segments.len() as int, per),
    ensures
        n == 0 ==> batched(segments, per, n) == Seq::<SpeechSegment>::empty(),
        n > 0 ==> batched(segments, per, n) == segments.take(
            batch_end(segments.len() as int, per, n - 1),
        ),
    decreases n,
{
    if n > 0 {
        let len = segments.len() as int;
        lemma_batched_prefix(segments, per, n - 1);
        lemma_batch_bounds(len, per, n - 1);
        if n > 1 {
            lemma_batch_bounds(len, per, n - 2);
            assert((n - 2 + 1) * per == (n - 1) * per);
            assert(batch_end(len, per, n - 2) == (n - 1) * per);
        } else {
            assert(0 * per == 0);
        }
        assert(batched(segments, per, n) =~= segments.take(batch_end(len, per, n - 1)));
    }
}

/// The batches one after the other are all the segments, none left out and none twice.
pub proof fn law_batches_cover_all_segments(segments: Seq<SpeechSegment>, per: int)
    requires
        per > 0,
    ensures
        batched(segments, per, batch_count(segments.len() as int, per)) == segments,
{
    let len = segments.len() as int;
    let count = batch_count(len, per);
    vstd::arithmetic::div_mod::lemma_fundamental_div_mod(len + per - 1, per);
    let r = (len + per - 1) % per;
    assert(per * count + r == len + per - 1);
    assert(count >= 0 && (count == 0 ==> len == 0) && count * per >= len) by (nonlinear_arith)
        requires
            per * count + r == len + per - 1,
            0 <= r < per,
            len >= 0,
            per > 0,
    ;
    lemma_batched_prefix(segments, per, count);
    if count > 0 {
        assert((count - 1 + 1) * per == count * per);
        assert(batch_end(len, per, count - 1) == len);
        assert(segments.take(len) =~= segments);
    } else {
        assert(segments =~= Seq::<SpeechSegment>::empty());
    }
}

/// The number of batches announced before the work starts, a tenth of the segments rounded up,
/// is the number of batches that are made.
pub proof fn law_announced_batches(len: int)
    requires
        len >= 0,
    ensures
        batch_count(len, SEGMENTS_PER_BATCH as int) == (len + 9) / 10,
{
}

/// With silences in order, no segment of a batch begins before the point from which the batch
/// reads its input.
pub proof fn law_batch_reads_ahead(
    silences: Seq<SilenceSegment>,
    duration: Double,
    per: int,
    i: int,
    k: int,
)
    requires
        times_finite(silences, duration),
        in_order(silences, duration),
        per > 0,
        0 <= i < batch_count(speech(silences, duration).len() as int, per),
        0 <= k < batch_of(speech(silences, duration), per, i).len(),
    ensures
        speech(silences, duration)[i * per].start.units() <= batch_of(
            speech(silences, duration),
            per,
            i,
        )[k].start.units(),
{
    let segments = speech(silences, duration);
    lemma_batch_bounds(segments.len() as int, per, i);
    law_speech_in_order(silences, duration);
    law_speech_lasts(silences, duration);
    let first = segments[i * per];
    assert(first.end.exceeds(first.start));
    assert(batch_of(segments, per, i)[k] == segments[i * per + k]);
}

/// The message where no batch can be started any more.
pub fn permit_failure(error: &str) -> (r: String)
    ensures
        r@ == "Semaphore error: "@ + error@,
{
    let mut message: String = "Semaphore error: ".to_owned();
    message.append(error);
    message
}

} // verus!
