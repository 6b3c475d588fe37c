//! Laws on what is kept of a recording, and on how much silence is removed.
use vstd::prelude::*;
use vstd::arithmetic::power2::{
    lemma2_to64, lemma2_to64_rest, lemma_pow2_adds, lemma_pow2_pos,
    lemma_pow2_strictly_increases, lemma_pow2_unfold, pow2,
};
use crate::double::{
    lemma_difference_units, lemma_round_exact, lemma_round_ordered, lemma_sum_grows,
    lemma_sum_units, magnitude, round_units, Double,
};
use crate::laws::arithmetic::law_rounding_is_nearest;
use crate::rounding::{
    lemma_scale_increases, lemma_scale_nonnegative, lemma_scale_step, scale, step, HIDDEN, INFINITY,
};
use crate::segments::{
    durations_sum, keeps_gap, keeps_tail, kept_gaps, law_speech_is_what_is_long_enough,
    lemma_durations_sum,
    lemma_tolerances, tail_tolerance, tolerance, total_silence, SilenceSegment, SpeechSegment,
    SpeechSegmentCalculator,
};

verus! {

/// The number nearest to 0.05, in units of the smallest subnormal.
pub open spec fn twentieth() -> int {
    (Double { bits: 0x3fa9_9999_9999_999a }).units()
}

/// The number nearest to 0.1, in units of the smallest subnormal.
pub open spec fn tenth() -> int {
    (Double { bits: 0x3fb9_9999_9999_999a }).units()
}

/// Stretch `i` of a recording: that before silence `i`, or the one after the last silence.
pub open spec fn stretch(silences: Seq<SilenceSegment>, duration: Double, i: int) -> SpeechSegment {
    SpeechSegment {
        start: if i == 0 {
            Double { bits: 0 }
        } else {
            silences[i - 1].end_time
        },
        end: if i < silences.len() {
            silences[i].start_time
        } else {
            duration
        },
    }
}

/// Both ends are finite.
pub open spec fn bounded(s: SpeechSegment) -> bool {
    s.start.finite() && s.end.finite()
}

/// A stretch of which the times say that it is kept: a silence follows that begins later than 0.05
/// after the start, or, at the end of the recording, the recording goes on for more than 0.1; and
/// it lasts longer than 0.05. Sums and differences are rounded. A stretch without a finite start or
/// end is kept where it ends after it starts.
pub open spec fn worth_keeping(s: SpeechSegment, last: bool) -> bool {
    if !bounded(s) {
        !s.start.undefined() && !s.end.undefined() && s.end.units() > s.start.units()
    } else {
        &&& round_units(s.end.units() - s.start.units(), 1) > twentieth()
        &&& if last {
            round_units(s.end.units() - tenth(), 1) > s.start.units()
        } else {
            s.end.units() > round_units(s.start.units() + twentieth(), 1)
        }
    }
}

/// The infinities are further from every finite number than the thresholds.
proof fn lemma_infinity_is_far(x: Double)
    requires
        !x.undefined(),
    ensures
        scale(INFINITY as int) > 2 * tenth(),
        -scale(INFINITY as int) <= x.units() <= scale(INFINITY as int),
        x.finite() ==> magnitude(x.units()) + 2 * tenth() < scale(INFINITY as int),
{
    lemma_thresholds();
    let top = INFINITY as int - 1;
    lemma_scale_step(top);
    lemma_scale_nonnegative(top);
    lemma_scale_nonnegative(x.pattern());
    let t = tail_tolerance().pattern();
    assert(step(t) + 60 < step(top));
    lemma_pow2_adds(step(t), 60);
    if step(t) + 60 < step(top) {
        lemma_pow2_strictly_increases(step(t) + 60, step(top));
    }
    lemma2_to64();
    lemma2_to64_rest();
    let m = HIDDEN as int + t % HIDDEN as int;
    let p = pow2(step(t)) as int;
    lemma_pow2_pos(step(t));
    assert(2 * (m * p) < p * 0x1000_0000_0000_0000) by (nonlinear_arith)
        requires
            p > 0,
            2 * m < 0x1000_0000_0000_0000,
    ;
    if x.finite() && x.pattern() < top {
        lemma_scale_increases(x.pattern(), top);
    }
}

/// A stretch without a finite start or end is kept where it ends after it starts.
proof fn lemma_unbounded(s: SpeechSegment)
    requires
        !bounded(s),
    ensures
        keeps_gap(s) == worth_keeping(s, false),
        keeps_tail(s) == worth_keeping(s, true),
{
    lemma_thresholds();
    assert(scale(0) == 0);
    if !s.start.undefined() && !s.end.undefined() {
        lemma_infinity_is_far(s.start);
        lemma_infinity_is_far(s.end);
        let infinity = Double { bits: INFINITY };
        if s.start.finite() {
            lemma_sum_units(s.start, tolerance());
            lemma_round_prefers(s.start.units() + twentieth(), s.start, infinity);
            lemma_infinity_is_far(s.start.sum(tolerance()));
        }
        if s.end.finite() {
            lemma_difference_units(s.end, tail_tolerance());
            lemma_round_prefers(s.end.units() - tenth(), s.end, infinity.negated());
            lemma_infinity_is_far(s.end.difference(tail_tolerance()));
        }
    }
}

proof fn lemma_thresholds()
    ensures
        tolerance() == (Double { bits: 0x3fa9_9999_9999_999a }),
        tail_tolerance() == (Double { bits: 0x3fb9_9999_9999_999a }),
        tolerance().finite(),
        tail_tolerance().finite(),
        tolerance().units() == twentieth(),
        tail_tolerance().units() == tenth(),
        tenth() == 2 * twentieth(),
        twentieth() > 0,
{
    lemma_tolerances();
    let t = tolerance().pattern();
    let u = tail_tolerance().pattern();
    assert(u == t + HIDDEN);
    assert(step(u) == step(t) + 1);
    lemma_pow2_unfold(step(u));
    let h = HIDDEN as int;
    assert(u % h == t % h);
    let m = h + t % h;
    let p = pow2(step(t)) as int;
    assert(m * (2 * p) == 2 * (m * p)) by (nonlinear_arith);
}

/// A stretch before a silence is among the kept ones of the first silences exactly when its times
/// say so.
proof fn lemma_kept_gap(silences: Seq<SilenceSegment>, duration: Double, i: int)
    requires
        0 <= i < silences.len(),
    ensures
        kept_gaps(silences, i + 1) == (if worth_keeping(stretch(silences, duration, i), false) {
            kept_gaps(silences, i).push(stretch(silences, duration, i))
        } else {
            kept_gaps(silences, i)
        }),
{
    lemma_thresholds();
    let s = stretch(silences, duration, i);
    if bounded(s) {
        lemma_sum_units(s.start, tolerance());
        lemma_difference_units(s.end, s.start);
    } else {
        lemma_unbounded(s);
    }
}

/// The positions at which the kept segments stand among the stretches.
pub open spec fn picked(
    silences: Seq<SilenceSegment>,
    duration: Double,
    kept: Seq<SpeechSegment>,
    at: Seq<int>,
) -> bool {
    &&& at.len() == kept.len()
    &&& forall|k: int|
        0 <= k < at.len() ==> 0 <= #[trigger] at[k] <= silences.len() && kept[k] == stretch(
            silences,
            duration,
            at[k],
        )
    &&& forall|k: int, l: int| 0 <= k < l < at.len() ==> #[trigger] at[k] < #[trigger] at[l]
    &&& forall|i: int|
        0 <= i <= silences.len() ==> (#[trigger] at.contains(i) <==> worth_keeping(
            stretch(silences, duration, i),
            i == silences.len(),
        ))
}

proof fn lemma_gaps_picked(silences: Seq<SilenceSegment>, duration: Double, n: int) -> (at: Seq<int>)
    requires
        0 <= n <= silences.len(),
    ensures
        at.len() == kept_gaps(silences, n).len(),
        forall|k: int|
            0 <= k < at.len() ==> 0 <= #[trigger] at[k] < n && kept_gaps(silences, n)[k] == stretch(
                silences,
                duration,
                at[k],
            ),
        forall|k: int, l: int| 0 <= k < l < at.len() ==> #[trigger] at[k] < #[trigger] at[l],
        forall|i: int|
            0 <= i < n ==> (#[trigger] at.contains(i) <==> worth_keeping(
                stretch(silences, duration, i),
                false,
            )),
    decreases n,
{
    if n == 0 {
        Seq::empty()
    } else {
        let before = lemma_gaps_picked(silences, duration, n - 1);
        lemma_kept_gap(silences, duration, n - 1);
        if worth_keeping(stretch(silences, duration, n - 1), false) {
            let at = before.push(n - 1);
            lemma_push_contains(before, n - 1);
            at
        } else {
            assert(!before.contains(n - 1)) by {
                if before.contains(n - 1) {
                    let k = choose|k: int| 0 <= k < before.len() && before[k] == n - 1;
                    assert(before[k] < n - 1);
                }
            }
            before
        }
    }
}

proof fn lemma_push_contains(s: Seq<int>, x: int)
    ensures
        forall|i: int| #[trigger] s.push(x).contains(i) <==> s.contains(i) || i == x,
{
    assert forall|i: int| #[trigger] s.push(x).contains(i) <==> s.contains(i) || i == x by {
        if s.contains(i) {
            let k = choose|k: int| 0 <= k < s.len() && s[k] == i;
            assert(s.push(x)[k] == i);
        }
        assert(s.push(x)[s.len() as int] == x);
        if s.push(x).contains(i) {
            let k = choose|k: int| 0 <= k < s.push(x).len() && s.push(x)[k] == i;
            if k < s.len() {
                assert(s[k] == i);
            }
        }
    }
}

/// What is kept of a recording are the stretches between its silences that last long enough, each
/// of them whole, once and in order, however long they are, and nothing else.
pub proof fn law_kept_are_the_long_stretches(
    silences: &[SilenceSegment],
    duration: Double,
    kept: Vec<SpeechSegment>,
)
    requires
        call_ensures(SpeechSegmentCalculator::calculate, (silences, duration), kept),
    ensures
        exists|at: Seq<int>| picked(silences@, duration, kept@, at),
{
    let n = silences@.len() as int;
    let at = lemma_gaps_picked(silences@, duration, n);
    let last = stretch(silences@, duration, n);
    lemma_thresholds();
    if bounded(last) {
        lemma_difference_units(last.end, tail_tolerance());
        lemma_difference_units(last.end, last.start);
    } else {
        lemma_unbounded(last);
    }
    if worth_keeping(last, true) {
        lemma_push_contains(at, n);
        assert(picked(silences@, duration, kept@, at.push(n)));
    } else {
        assert(!at.contains(n)) by {
            if at.contains(n) {
                let k = choose|k: int| 0 <= k < at.len() && at[k] == n;
                assert(at[k] < n);
            }
        }
        assert(picked(silences@, duration, kept@, at));
    }
}

/// Among two numbers that could be meant, rounding does not take the one further away.
proof fn lemma_round_prefers(x: int, near: Double, far: Double)
    requires
        !near.undefined(),
        magnitude(x - near.units()) < magnitude(x - far.units()),
    ensures
        round_units(x, 1) != far.units(),
{
    law_rounding_is_nearest(x, 1, near);
}

/// Every stretch before a silence that lasts longer than 0.1, and every one at the end of the
/// recording that lasts longer than 0.2, is kept, however long it is.
pub proof fn law_long_speech_is_kept(
    silences: &[SilenceSegment],
    duration: Double,
    kept: Vec<SpeechSegment>,
    i: int,
)
    requires
        call_ensures(SpeechSegmentCalculator::calculate, (silences, duration), kept),
        0 <= i <= silences@.len(),
        bounded(stretch(silences@, duration, i)),
        ({
            let s = stretch(silences@, duration, i);
            s.end.units() - s.start.units() > (if i < silences@.len() {
                2 * twentieth()
            } else {
                2 * tenth()
            })
        }),
    ensures
        kept@.contains(stretch(silences@, duration, i)),
{
    lemma_thresholds();
    let s = stretch(silences@, duration, i);
    let two = tail_tolerance();
    lemma_round_exact(two, 1);
    lemma_round_ordered(two.units() * 1, 1, s.end.units() - s.start.units(), 1);
    lemma_round_exact(s.end, 1);
    lemma_round_exact(s.start, 1);
    if i < silences@.len() {
        lemma_round_ordered(s.start.units() + twentieth(), 1, s.end.units() * 1, 1);
        lemma_round_prefers(s.start.units() + twentieth(), s.start, s.end);
    } else {
        lemma_round_ordered(s.start.units() * 1, 1, s.end.units() - tenth(), 1);
        lemma_round_prefers(s.end.units() - tenth(), s.end, s.start);
    }
    law_kept_are_the_long_stretches(silences, duration, kept);
    let at = choose|at: Seq<int>| picked(silences@, duration, kept@, at);
    assert(at.contains(i));
    let k = choose|k: int| 0 <= k < at.len() && at[k] == i;
    assert(kept@[k] == s);
}

/// Every kept segment begins and ends at times that are defined.
pub proof fn law_kept_segments_are_defined(
    silences: &[SilenceSegment],
    duration: Double,
    kept: Vec<SpeechSegment>,
    k: int,
)
    requires
        call_ensures(SpeechSegmentCalculator::calculate, (silences, duration), kept),
        0 <= k < kept@.len(),
    ensures
        !kept@[k].start.undefined(),
        !kept@[k].end.undefined(),
{
    law_speech_is_what_is_long_enough(silences@, duration, kept@[k]);
}

/// Without silences there is nothing to remove.
pub proof fn law_total_of_none(silences: &[SilenceSegment], total: Double)
    requires
        call_ensures(total_silence, (silences,), total),
        silences@.len() == 0,
    ensures
        !total.undefined(),
        total.units() == 0,
{
    assert(scale(0) == 0);
}

proof fn lemma_sum_of_beginning(a: Seq<SilenceSegment>, b: Seq<SilenceSegment>, n: int)
    requires
        0 <= n <= a.len(),
        n <= b.len(),
        forall|i: int| 0 <= i < n ==> a[i] == b[i],
    ensures
        durations_sum(a, n) == durations_sum(b, n),
    decreases n,
{
    if n > 0 {
        lemma_sum_of_beginning(a, b, n - 1);
    }
}

/// One more silence at the end adds its duration to the total, rounded, whatever it lasts.
pub proof fn law_total_of_one_more(
    fewer: &[SilenceSegment],
    more: &[SilenceSegment],
    one: SilenceSegment,
    before: Double,
    after: Double,
)
    requires
        call_ensures(total_silence, (fewer,), before),
        call_ensures(total_silence, (more,), after),
        more@ == fewer@.push(one),
    ensures
        before.finite() && one.duration.finite() ==> !after.undefined() && after.units()
            == round_units(before.units() + one.duration.units(), 1),
        forall|sum: Double| #[trigger]
            call_ensures(Double::plus, (before, one.duration), sum) ==> after == sum,
{
    lemma_sum_of_beginning(fewer@, more@, fewer@.len() as int);
    if before.finite() && one.duration.finite() {
        lemma_sum_units(before, one.duration);
    }
}

/// The sum of the durations of the first `n` silences, without rounding.
pub open spec fn exact_sum(silences: Seq<SilenceSegment>, n: int) -> int
    decreases n,
{
    if n <= 0 {
        0
    } else {
        exact_sum(silences, n - 1) + silences[n - 1].duration.units()
    }
}

proof fn lemma_total_counts(silences: Seq<SilenceSegment>, n: int, i: int)
    requires
        0 <= i < n <= silences.len(),
        forall|j: int|
            0 <= j < silences.len() ==> (#[trigger] silences[j]).duration.finite()
                && silences[j].duration.units() >= 0,
    ensures
        !durations_sum(silences, n).undefined(),
        durations_sum(silences, n).units() >= silences[i].duration.units(),
    decreases n,
{
    lemma_durations_sum(silences, n - 1);
    lemma_durations_sum(silences, n);
    let before = durations_sum(silences, n - 1);
    let next = silences[n - 1].duration;
    assert(next.finite() && next.units() >= 0);
    if i < n - 1 {
        lemma_total_counts(silences, n - 1, i);
    }
    if before.finite() {
        lemma_sum_grows(before, next);
        lemma_sum_units(before, next);
        lemma_round_exact(next, 1);
        lemma_round_ordered(next.units() * 1, 1, before.units() + next.units(), 1);
    } else {
        let d = silences[i].duration;
        assert(d.finite());
        lemma_scale_increases(d.pattern(), before.pattern());
        assert(!before.negative()) by {
            lemma_scale_increases(0, before.pattern());
        }
    }
}

/// Every silence counts: the total is at least the duration of each of them.
pub proof fn law_total_counts_every_silence(silences: &[SilenceSegment], total: Double, i: int)
    requires
        call_ensures(total_silence, (silences,), total),
        0 <= i < silences@.len(),
        forall|j: int|
            0 <= j < silences@.len() ==> (#[trigger] silences@[j]).duration.finite()
                && silences@[j].duration.units() >= 0,
    ensures
        !total.undefined(),
        total.units() >= silences@[i].duration.units(),
{
    lemma_total_counts(silences@, silences@.len() as int, i);
}

proof fn lemma_exact_total(silences: Seq<SilenceSegment>, sums: Seq<Double>, n: int)
    requires
        0 <= n <= silences.len(),
        sums.len() == silences.len() + 1,
        forall|j: int| 0 <= j < silences.len() ==> (#[trigger] silences[j]).duration.finite(),
        forall|j: int|
            0 <= j < sums.len() ==> (#[trigger] sums[j]).finite() && sums[j].units() == exact_sum(
                silences,
                j,
            ),
    ensures
        durations_sum(silences, n).finite(),
        durations_sum(silences, n).units() == exact_sum(silences, n),
    decreases n,
{
    assert(scale(0) == 0);
    if n > 0 {
        lemma_exact_total(silences, sums, n - 1);
        let before = durations_sum(silences, n - 1);
        let next = silences[n - 1].duration;
        assert(next.finite());
        assert(sums[n].finite());
        lemma_sum_units(before, next);
        lemma_round_exact(sums[n], 1);
        let after = durations_sum(silences, n);
        if after.infinite() {
            lemma_scale_increases(sums[n].pattern(), after.pattern());
        }
    }
}

/// Where no partial sum needs rounding, the total is the exact sum of the durations: `sums` are
/// numbers with the values of the partial sums.
pub proof fn law_total_is_the_exact_sum(
    silences: &[SilenceSegment],
    total: Double,
    sums: Seq<Double>,
)
    requires
        call_ensures(total_silence, (silences,), total),
        sums.len() == silences@.len() + 1,
        forall|j: int| 0 <= j < silences@.len() ==> (#[trigger] silences@[j]).duration.finite(),
        forall|j: int|
            0 <= j < sums.len() ==> (#[trigger] sums[j]).finite() && sums[j].units() == exact_sum(
                silences@,
                j,
            ),
    ensures
        total.finite(),
        total.units() == exact_sum(silences@, silences@.len() as int),
{
    lemma_exact_total(silences@, sums, silences@.len() as int);
}

} // verus!
