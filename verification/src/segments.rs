//! Silences, and the stretches of speech that remain between them.
use vstd::prelude::*;
use vstd::arithmetic::power2::{lemma2_to64, lemma2_to64_rest};
use crate::double::{
    lemma_difference_shrinks, lemma_fraction_bits, lemma_positive_difference, lemma_signed,
    lemma_sum_grows, zero, Double,
};
use crate::rounding::{lemma_scale_increases, scale};

verus! {

/// A silent stretch of a recording; times are in seconds.
#[derive(Clone, Copy, Debug, PartialEq, Eq, Structural)]
pub struct SilenceSegment {
    pub start_time: Double,
    pub end_time: Double,
    pub duration: Double,
}

/// A stretch of a recording that is kept.
#[derive(Clone, Copy, Debug, PartialEq, Eq, Structural)]
pub struct SpeechSegment {
    pub start: Double,
    pub end: Double,
}

/// 0.05 s: what is shorter counts as imprecision of the detected times.
pub open spec fn tolerance() -> Double {
    Double::of_fraction(5, 100)
}

/// 0.1 s: a remainder at the end that is not longer counts as imprecision of the probed
/// duration.
pub open spec fn tail_tolerance() -> Double {
    Double::of_fraction(1, 10)
}

/// Where the stretch before silence `i` begins: at the end of the silence before it, or at
/// the start of the recording.
pub open spec fn boundary(silences: Seq<SilenceSegment>, i: int) -> Double {
    if i == 0 {
        zero()
    } else {
        silences[i - 1].end_time
    }
}

/// The stretch before silence `i`.
pub open spec fn gap(silences: Seq<SilenceSegment>, i: int) -> SpeechSegment {
    SpeechSegment { start: boundary(silences, i), end: silences[i].start_time }
}

/// The stretch after the last silence.
pub open spec fn tail(silences: Seq<SilenceSegment>, duration: Double) -> SpeechSegment {
    SpeechSegment { start: boundary(silences, silences.len() as int), end: duration }
}

/// The segment lasts longer than the tolerance.
pub open spec fn lasting(s: SpeechSegment) -> bool {
    s.end.difference(s.start).exceeds(tolerance())
}

/// A stretch before a silence is kept.
pub open spec fn keeps_gap(s: SpeechSegment) -> bool {
    s.end.exceeds(s.start.sum(tolerance())) && lasting(s)
}

/// The stretch after the last silence is kept.
pub open spec fn keeps_tail(s: SpeechSegment) -> bool {
    s.end.difference(tail_tolerance()).exceeds(s.start) && lasting(s)
}

/// The stretches kept before the first `n` silences, in order.
pub open spec fn kept_gaps(silences: Seq<SilenceSegment>, n: int) -> Seq<SpeechSegment>
    decreases n,
{
    if n <= 0 {
        Seq::empty()
    } else if keeps_gap(gap(silences, n - 1)) {
        kept_gaps(silences, n - 1).push(gap(silences, n - 1))
    } else {
        kept_gaps(silences, n - 1)
    }
}

/// Everything that is kept of a recording.
pub open spec fn speech(silences: Seq<SilenceSegment>, duration: Double) -> Seq<SpeechSegment> {
    let gaps = kept_gaps(silences, silences.len() as int);
    if keeps_tail(tail(silences, duration)) {
        gaps.push(tail(silences, duration))
    } else {
        gaps
    }
}

/// Finds what to keep of a recording.
pub struct SpeechSegmentCalculator;

impl SpeechSegmentCalculator {
    /// The stretches between the silences, and after them up to the end of the recording.
    pub fn calculate(silences: &[SilenceSegment], original_duration: Double) -> (r: Vec<SpeechSegment>)
        ensures
            r@ == speech(silences@, original_duration),
    {
        let tolerance: Double = Double::from_fraction(5, 100);
        let mut segments: Vec<SpeechSegment> = Vec::new();
        let mut last_end: Double = Double { bits: 0 };
        let mut i: usize = 0;
        while i < silences.len()
            invariant
                i <= silences@.len(),
                tolerance == self::tolerance(),
                last_end == boundary(silences@, i as int),
                segments@ == kept_gaps(silences@, i as int),
            decreases silences@.len() - i,
        {
            let silence: SilenceSegment = silences[i];
            let start: Double = last_end;
            let end: Double = silence.start_time;
            if end.gt(start.plus(tolerance)) && end.minus(start).gt(tolerance) {
                segments.push(SpeechSegment { start, end });
            }
            last_end = silence.end_time;
            i = i + 1;
        }
        if last_end.lt(original_duration.minus(Double::from_fraction(1, 10)))
            && original_duration.minus(last_end).gt(tolerance) {
            segments.push(SpeechSegment { start: last_end, end: original_duration });
        }
        segments
    }
}

/// Sum of the durations of the first `n` silences.
pub open spec fn durations_sum(silences: Seq<SilenceSegment>, n: int) -> Double
    decreases n,
{
    if n <= 0 {
        zero().negated()
    } else {
        durations_sum(silences, n - 1).sum(silences[n - 1].duration)
    }
}

/// How much silence a recording holds.
pub fn total_silence(silences: &[SilenceSegment]) -> (r: Double)
    ensures
        r == durations_sum(silences@, silences@.len() as int),
{
    let mut sum: Double = Double { bits: 0 }.negate();
    let mut i: usize = 0;
    while i < silences.len()
        invariant
            i <= silences@.len(),
            sum == durations_sum(silences@, i as int),
        decreases silences@.len() - i,
    {
        sum = sum.plus(silences[i].duration);
        i = i + 1;
    }
    sum
}

/// Bits of the two tolerances.
pub proof fn lemma_tolerances()
    ensures
        tolerance().bits == 0x3fa9_9999_9999_999a,
        tail_tolerance().bits == 0x3fb9_9999_9999_999a,
        tolerance().finite(),
        tail_tolerance().finite(),
        tolerance().units() > 0,
        tail_tolerance().units() > 0,
{
    lemma2_to64();
    lemma2_to64_rest();
    lemma_fraction_bits(5, 100, 1017, 0x19_9999_9999_999a);
    lemma_fraction_bits(1, 10, 1018, 0x19_9999_9999_999a);
    lemma_scale_increases(0, 0x3fa9_9999_9999_999a);
    lemma_scale_increases(0, 0x3fb9_9999_9999_999a);
}

/// All times are finite numbers.
pub open spec fn times_finite(silences: Seq<SilenceSegment>, duration: Double) -> bool {
    &&& forall|i: int|
        0 <= i < silences.len() ==> (#[trigger] silences[i]).start_time.finite()
            && silences[i].end_time.finite()
    &&& duration.finite()
}

/// The silences follow one another: none begins before the start of the recording or before
/// the end of an earlier one, none ends before it begins, and the recording does not end
/// before the last of them.
pub open spec fn in_order(silences: Seq<SilenceSegment>, duration: Double) -> bool {
    &&& forall|i: int|
        0 <= i < silences.len() ==> 0 <= (#[trigger] silences[i]).start_time.units()
            <= silences[i].end_time.units() <= duration.units()
    &&& forall|i: int, j: int|
        0 <= i < j < silences.len() ==> (#[trigger] silences[i]).end_time.units() <= (
        #[trigger] silences[j]).start_time.units()
}

/// Two stretches have at most an end point in common.
pub open spec fn apart(s: SpeechSegment, silence: SilenceSegment) -> bool {
    s.end.units() <= silence.start_time.units() || silence.end_time.units() <= s.start.units()
}

/// `s` is a kept stretch before one of the first `n` silences.
pub open spec fn is_kept_gap(silences: Seq<SilenceSegment>, n: int, s: SpeechSegment) -> bool {
    exists|i: int| 0 <= i < n && s == #[trigger] gap(silences, i) && keeps_gap(s)
}

proof fn lemma_kept_gaps_members(silences: Seq<SilenceSegment>, n: int, s: SpeechSegment)
    requires
        0 <= n <= silences.len(),
    ensures
        kept_gaps(silences, n).contains(s) <==> is_kept_gap(silences, n, s),
    decreases n,
{
    if n > 0 {
        lemma_kept_gaps_members(silences, n - 1, s);
        let before = kept_gaps(silences, n - 1);
        let after = kept_gaps(silences, n);
        if after.contains(s) {
            let k = choose|k: int| 0 <= k < after.len() && after[k] == s;
            if k < before.len() {
                assert(before[k] == s);
                let i = choose|i: int|
                    0 <= i < n - 1 && s == #[trigger] gap(silences, i) && keeps_gap(s);
                assert(s == gap(silences, i));
            } else {
                assert(s == gap(silences, n - 1));
            }
        }
        if is_kept_gap(silences, n, s) {
            let i = choose|i: int| 0 <= i < n && s == #[trigger] gap(silences, i) && keeps_gap(s);
            if i == n - 1 {
                assert(after[after.len() - 1] == s);
            } else {
                assert(s == gap(silences, i));
                assert(is_kept_gap(silences, n - 1, s));
                let k = choose|k: int| 0 <= k < before.len() && before[k] == s;
                assert(after[k] == s);
            }
        }
    } else {
        assert(kept_gaps(silences, n) =~= Seq::empty());
    }
}

/// What is kept is exactly the long enough stretches: every segment is a kept stretch before
/// a silence or the kept stretch at the end, and each of those is among the segments.
pub proof fn law_speech_is_what_is_long_enough(
    silences: Seq<SilenceSegment>,
    duration: Double,
    s: SpeechSegment,
)
    ensures
        speech(silences, duration).contains(s) <==> {
            ||| is_kept_gap(silences, silences.len() as int, s)
            ||| s == tail(silences, duration) && keeps_tail(s)
        },
{
    let n = silences.len() as int;
    lemma_kept_gaps_members(silences, n, s);
    let gaps = kept_gaps(silences, n);
    let all = speech(silences, duration);
    let t = tail(silences, duration);
    if all.contains(s) {
        let k = choose|k: int| 0 <= k < all.len() && all[k] == s;
        if k < gaps.len() {
            assert(gaps[k] == s);
        }
    }
    if gaps.contains(s) {
        let k = choose|k: int| 0 <= k < gaps.len() && gaps[k] == s;
        assert(all[k] == s);
    }
    if s == t && keeps_tail(s) {
        assert(all[all.len() - 1] == s);
    }
}

/// Every kept segment lasts longer than the tolerance and ends after it begins.
pub proof fn law_speech_lasts(silences: Seq<SilenceSegment>, duration: Double)
    requires
        times_finite(silences, duration),
    ensures
        forall|k: int|
            0 <= k < speech(silences, duration).len() ==> lasting(
                #[trigger] speech(silences, duration)[k],
            ) && speech(silences, duration)[k].end.exceeds(speech(silences, duration)[k].start),
{
    let all = speech(silences, duration);
    lemma_tolerances();
    assert forall|k: int| 0 <= k < all.len() implies lasting(#[trigger] all[k])
        && all[k].end.exceeds(all[k].start) by {
        let s = all[k];
        law_speech_is_what_is_long_enough(silences, duration, s);
        assert(s.start.finite() && s.end.finite()) by {
            if is_kept_gap(silences, silences.len() as int, s) {
                let i = choose|i: int|
                    0 <= i < silences.len() && s == #[trigger] gap(silences, i) && keeps_gap(s);
                assert(silences[i].start_time.finite());
                if i > 0 {
                    assert(silences[i - 1].end_time.finite());
                }
            } else {
                if silences.len() > 0 {
                    assert(silences[silences.len() - 1].end_time.finite());
                }
            }
        }
        assert(s.end.difference(s.start).exceeds(tolerance()));
        assert(tolerance().exceeds(zero()));
        lemma_positive_difference(s.end, s.start);
    }
}

proof fn lemma_kept_gaps_in_order(silences: Seq<SilenceSegment>, duration: Double, n: int)
    requires
        times_finite(silences, duration),
        in_order(silences, duration),
        0 <= n <= silences.len(),
    ensures
        forall|a: int, b: int|
            0 <= a < b < kept_gaps(silences, n).len() ==> (#[trigger] kept_gaps(
                silences,
                n,
            )[a]).end.units() <= (#[trigger] kept_gaps(silences, n)[b]).start.units(),
        forall|a: int|
            0 <= a < kept_gaps(silences, n).len() ==> (#[trigger] kept_gaps(
                silences,
                n,
            )[a]).end.units() <= boundary(silences, n).units(),
    decreases n,
{
    if n > 0 {
        lemma_kept_gaps_in_order(silences, duration, n - 1);
        let before = kept_gaps(silences, n - 1);
        let after = kept_gaps(silences, n);
        assert(silences[n - 1].start_time.units() <= silences[n - 1].end_time.units());
        if n > 1 {
            assert(silences[n - 2].end_time.units() <= silences[n - 1].start_time.units());
        }
        assert forall|a: int| 0 <= a < before.len() implies (#[trigger] after[a]).end.units()
            <= boundary(silences, n - 1).units() by {
            assert(after[a] == before[a]);
        }
        assert forall|a: int, b: int| 0 <= a < b < after.len() implies (
        #[trigger] after[a]).end.units() <= (#[trigger] after[b]).start.units() by {
            if b < before.len() {
                assert(after[a] == before[a] && after[b] == before[b]);
            } else {
                assert(after[b] == gap(silences, n - 1));
            }
        }
    }
}

/// With silences in order, the kept segments are in order too, lie between the start and the
/// end of the recording, and none of them reaches into a silence.
pub proof fn law_speech_in_order(silences: Seq<SilenceSegment>, duration: Double)
    requires
        times_finite(silences, duration),
        in_order(silences, duration),
    ensures
        forall|a: int, b: int|
            0 <= a < b < speech(silences, duration).len() ==> (#[trigger] speech(
                silences,
                duration,
            )[a]).end.units() <= (#[trigger] speech(silences, duration)[b]).start.units(),
        forall|k: int|
            0 <= k < speech(silences, duration).len() ==> 0 <= (#[trigger] speech(
                silences,
                duration,
            )[k]).start.units() && speech(silences, duration)[k].end.units() <= duration.units(),
        forall|k: int, j: int|
            0 <= k < speech(silences, duration).len() && 0 <= j < silences.len() ==> apart(
                #[trigger] speech(silences, duration)[k],
                #[trigger] silences[j],
            ),
{
    let n = silences.len() as int;
    let gaps = kept_gaps(silences, n);
    let all = speech(silences, duration);
    lemma_kept_gaps_in_order(silences, duration, n);
    assert(zero().units() == 0) by {
        assert(scale(0) == 0);
    }
    assert forall|a: int, b: int| 0 <= a < b < all.len() implies (#[trigger] all[a]).end.units()
        <= (#[trigger] all[b]).start.units() by {
        assert(all[a] == gaps[a]);
        if b < gaps.len() {
            assert(all[b] == gaps[b]);
        }
    }
    assert forall|k: int| 0 <= k < all.len() implies 0 <= (#[trigger] all[k]).start.units()
        && all[k].end.units() <= duration.units() by {
        law_speech_is_what_is_long_enough(silences, duration, all[k]);
        if is_kept_gap(silences, n, all[k]) {
            let i = choose|i: int|
                0 <= i < n && all[k] == #[trigger] gap(silences, i) && keeps_gap(all[k]);
            assert(silences[i].start_time.units() <= silences[i].end_time.units());
            if i > 0 {
                assert(0 <= silences[i - 1].start_time.units());
            }
        } else if n > 0 {
            assert(0 <= silences[n - 1].start_time.units());
        }
    }
    assert forall|k: int, j: int| 0 <= k < all.len() && 0 <= j < n implies apart(
        #[trigger] all[k],
        #[trigger] silences[j],
    ) by {
        law_speech_is_what_is_long_enough(silences, duration, all[k]);
        if is_kept_gap(silences, n, all[k]) {
            let i = choose|i: int|
                0 <= i < n && all[k] == #[trigger] gap(silences, i) && keeps_gap(all[k]);
            if j > i {
                assert(silences[i].end_time.units() <= silences[j].start_time.units());
                assert(silences[i].start_time.units() <= silences[i].end_time.units());
            } else if j < i - 1 {
                assert(silences[j].end_time.units() <= silences[i - 1].start_time.units());
                assert(silences[i - 1].start_time.units() <= silences[i - 1].end_time.units());
            }
        } else if j < n - 1 {
            assert(silences[j].end_time.units() <= silences[n - 1].start_time.units());
            assert(silences[n - 1].start_time.units() <= silences[n - 1].end_time.units());
        }
    }
}

/// The silences last no negative time.
pub open spec fn durations_plain(silences: Seq<SilenceSegment>) -> bool {
    forall|i: int|
        0 <= i < silences.len() ==> (#[trigger] silences[i]).duration.finite()
            && silences[i].duration.units() >= 0
}

pub proof fn lemma_durations_sum(silences: Seq<SilenceSegment>, n: int)
    requires
        durations_plain(silences),
        0 <= n <= silences.len(),
    ensures
        !durations_sum(silences, n).undefined(),
        durations_sum(silences, n).units() >= 0,
    decreases n,
{
    if n > 0 {
        lemma_durations_sum(silences, n - 1);
        let before = durations_sum(silences, n - 1);
        let next = silences[n - 1].duration;
        if before.finite() {
            lemma_sum_grows(before, next);
        }
    }
}

/// Removing the silences never makes a recording longer.
pub proof fn law_removal_never_lengthens(silences: Seq<SilenceSegment>, duration: Double)
    requires
        durations_plain(silences),
        duration.finite(),
    ensures
        ({
            let processed = duration.difference(durations_sum(silences, silences.len() as int));
            !processed.undefined() && !processed.exceeds(duration)
        }),
{
    let removed = durations_sum(silences, silences.len() as int);
    lemma_durations_sum(silences, silences.len() as int);
    if removed.finite() {
        lemma_difference_shrinks(duration, removed);
    } else {
        lemma_scale_increases(0, removed.pattern());
        lemma_scale_increases(duration.pattern(), removed.pattern());
        lemma_signed(true, removed.pattern());
    }
}

} // verus!
