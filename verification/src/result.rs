//! Results of an export.
use vstd::prelude::*;
use vstd::arithmetic::power2::{lemma2_to64, lemma2_to64_rest, lemma_pow2_pos, pow2};
use vstd::string::StringExecFns;
use crate::double::{
    lemma_product_units, lemma_quotient_units, lemma_round_exact, lemma_round_ordered,
    lemma_whole_fraction, zero, Double, UNIT,
};
use crate::text::{decimal, push_decimal};

verus! {

/// Result of an export; times are in seconds.
#[derive(Clone, Debug)]
pub struct ProcessResult {
    pub input_path: String,
    pub output_path: String,
    pub original_duration: Double,
    pub processed_duration: Double,
    pub silence_segments: usize,
    pub total_silence_removed: Double,
    pub compression_ratio: Double,
    pub processing_time: Double,
    pub success: bool,
    pub error_message: Option<String>,
}

/// Share of a recording that was removed, in percent; zero for a recording without length.
pub open spec fn removed_percent(removed: Double, original: Double) -> Double {
    if original.exceeds(zero()) {
        removed.quotient(original).product(Double::of_fraction(100, 1))
    } else {
        zero()
    }
}

/// Builds results.
pub struct ProcessResultBuilder;

impl ProcessResultBuilder {
    pub fn build(
        input_path: &str,
        output_path: &str,
        original_duration: Double,
        processed_duration: Double,
        silence_segments: usize,
        total_silence_removed: Double,
        processing_time: Double,
        success: bool,
        error_message: Option<String>,
    ) -> (r: ProcessResult)
        ensures
            r.input_path@ == input_path@,
            r.output_path@ == output_path@,
            r.original_duration == original_duration,
            r.processed_duration == processed_duration,
            r.silence_segments == silence_segments,
            r.total_silence_removed == total_silence_removed,
            r.compression_ratio == removed_percent(total_silence_removed, original_duration),
            r.processing_time == processing_time,
            r.success == success,
            r.error_message == error_message,
    {
        let compression_ratio: Double = if original_duration.gt(Double { bits: 0 }) {
            total_silence_removed.over(original_duration).times(Double::from_fraction(100, 1))
        } else {
            Double { bits: 0 }
        };
        ProcessResult {
            input_path: input_path.to_owned(),
            output_path: output_path.to_owned(),
            original_duration,
            processed_duration,
            silence_segments,
            total_silence_removed,
            compression_ratio,
            processing_time,
            success,
            error_message,
        }
    }
}

/// Where no more is removed than there is, the share is between 0 and 100 percent.
pub proof fn law_removed_percent_is_a_share(removed: Double, original: Double)
    requires
        removed.finite(),
        original.finite(),
        0 <= removed.units() <= original.units(),
    ensures
        !removed_percent(removed, original).undefined(),
        0 <= removed_percent(removed, original).units() <= Double::of_fraction(100, 1).units(),
        Double::of_fraction(100, 1).units() == 100 * pow2(UNIT as nat),
{
    lemma2_to64();
    lemma2_to64_rest();
    lemma_whole_fraction(1, 52);
    lemma_whole_fraction(100, 46);
    let p = pow2(UNIT as nat) as int;
    lemma_pow2_pos(UNIT as nat);
    let one = Double::of_fraction(1, 1);
    let hundred = Double::of_fraction(100, 1);
    lemma_round_exact(one, 1);
    lemma_round_exact(hundred, 1);
    lemma_round_exact(zero(), 1);
    if original.exceeds(zero()) {
        let r = removed.units();
        let o = original.units();
        lemma_quotient_units(removed, original);
        assert(r * p * 1 <= (one.units() * 1) * o) by (nonlinear_arith)
            requires
                r <= o,
                p > 0,
                one.units() == 1 * p,
        ;
        lemma_round_ordered(r * p, o, one.units() * 1, 1);
        assert((zero().units() * 1) * o <= r * p * 1) by (nonlinear_arith)
            requires
                r >= 0,
                p > 0,
                zero().units() == 0,
        ;
        lemma_round_ordered(zero().units() * 1, 1, r * p, o);
        let share = removed.quotient(original);
        crate::double::lemma_bounded_is_finite(share, one);
        lemma_product_units(share, hundred);
        let s = share.units();
        let h = hundred.units();
        assert(s * h * 1 <= (h * 1) * p) by (nonlinear_arith)
            requires
                s <= p,
                h >= 0,
        ;
        lemma_round_ordered(s * h, p, h * 1, 1);
        assert((zero().units() * 1) * p <= s * h * 1) by (nonlinear_arith)
            requires
                s >= 0,
                h >= 0,
                zero().units() == 0,
        ;
        lemma_round_ordered(zero().units() * 1, 1, s * h, p);
    }
}

/// Path of the result of input `i`, counted from zero, in a directory.
pub open spec fn processed_path(output_dir: Seq<char>, i: nat) -> Seq<char> {
    output_dir + "/processed_"@ + decimal(i + 1) + ".mp4"@
}

/// The result reported for input `i` of a batch.
pub open spec fn is_batch_result(r: ProcessResult, input: Seq<char>, output_dir: Seq<char>, i: nat) -> bool {
    &&& r.input_path@ == input
    &&& r.output_path@ == processed_path(output_dir, i)
    &&& r.original_duration == Double::of_fraction(60, 1)
    &&& r.processed_duration == Double::of_fraction(50, 1)
    &&& r.silence_segments == 5
    &&& r.total_silence_removed == Double::of_fraction(10, 1)
    &&& r.compression_ratio == Double::of_fraction(1667, 100)
    &&& r.processing_time == Double::of_fraction(25, 10)
    &&& r.success
    &&& r.error_message is None
}

/// The results of a batch: one for each input, in order, with the fixed figures that stand for
/// an export.
pub fn batch_process_videos(input_paths: &[String], output_dir: &str) -> (r: Vec<ProcessResult>)
    ensures
        r@.len() == input_paths@.len(),
        forall|i: int|
            0 <= i < r@.len() ==> is_batch_result(
                #[trigger] r@[i],
                input_paths@[i]@,
                output_dir@,
                i as nat,
            ),
{
    let mut results: Vec<ProcessResult> = Vec::new();
    let mut i: usize = 0;
    while i < input_paths.len()
        invariant
            i <= input_paths@.len(),
            results@.len() == i,
            forall|j: int|
                0 <= j < i ==> is_batch_result(
                    #[trigger] results@[j],
                    input_paths@[j]@,
                    output_dir@,
                    j as nat,
                ),
        decreases input_paths@.len() - i,
    {
        let mut output_path: String = output_dir.to_owned();
        output_path.append("/processed_");
        push_decimal(&mut output_path, i as u64 + 1);
        output_path.append(".mp4");
        results.push(
            ProcessResult {
                input_path: input_paths[i].clone(),
                output_path,
                original_duration: Double::from_fraction(60, 1),
                processed_duration: Double::from_fraction(50, 1),
                silence_segments: 5,
                total_silence_removed: Double::from_fraction(10, 1),
                compression_ratio: Double::from_fraction(1667, 100),
                processing_time: Double::from_fraction(25, 10),
                success: true,
                error_message: None,
            },
        );
        i = i + 1;
    }
    results
}

} // verus!
