//! Progress messages of an export.
use vstd::prelude::*;
use vstd::arithmetic::power2::{lemma2_to64, lemma2_to64_rest, lemma_pow2_pos, pow2};
use crate::double::{
    lemma_bounded_is_finite, lemma_counts_ordered, lemma_fraction_bits, lemma_product_units,
    lemma_quotient_units, lemma_round_exact, lemma_round_ordered, lemma_sum_units,
    lemma_whole_fraction, round_units, zero, Double, UNIT,
};
use crate::rounding::{lemma_scale_increases, HIDDEN};

verus! {

/// A progress message: how much is done in percent, what is being done with its figures, and
/// the seconds that are left.
#[derive(Clone, Debug)]
pub struct ProgressEvent {
    pub percent: Double,
    pub message_key: String,
    pub params: Vec<(String, usize)>,
    pub eta: Double,
}

/// The content of a progress message.
pub struct ProgressView {
    pub percent: Double,
    pub message_key: Seq<char>,
    pub params: Seq<(Seq<char>, usize)>,
    pub eta: Double,
}

/// The figures of a message.
pub open spec fn figures(params: Seq<(String, usize)>) -> Seq<(Seq<char>, usize)> {
    params.map_values(|p: (String, usize)| (p.0@, p.1))
}

impl View for ProgressEvent {
    type V = ProgressView;

    open spec fn view(&self) -> ProgressView {
        ProgressView {
            percent: self.percent,
            message_key: self.message_key@,
            params: figures(self.params@),
            eta: self.eta,
        }
    }
}

/// A message without figures.
pub open spec fn plain(percent: Double, key: Seq<char>, eta: Double) -> ProgressView {
    ProgressView { percent, message_key: key, params: Seq::empty(), eta }
}

pub open spec fn probe_start() -> ProgressView {
    plain(Double::of_fraction(1, 2), "probe_start"@, zero())
}

pub open spec fn analysis() -> ProgressView {
    plain(Double::of_fraction(1, 1), "analysis"@, zero())
}

pub open spec fn init_parallel(num_batches: usize) -> ProgressView {
    ProgressView {
        percent: Double::of_fraction(2, 1),
        message_key: "init_parallel"@,
        params: seq![("batches"@, num_batches)],
        eta: zero(),
    }
}

pub open spec fn submit_batch(batch_idx: usize, num_batches: usize) -> ProgressView {
    ProgressView {
        percent: Double::of_fraction(2, 1),
        message_key: "submit_batch"@,
        params: seq![("current"@, (batch_idx + 1) as usize), ("total"@, num_batches)],
        eta: zero(),
    }
}

/// Percentage after `completed` of `num_batches` batches: 1 and their share of 90.
pub open spec fn batch_percent(completed: usize, num_batches: usize) -> Double {
    Double::of_fraction(1, 1).sum(
        Double::of_count(completed as nat).quotient(Double::of_count(num_batches as nat)).product(
            Double::of_fraction(90, 1),
        ),
    )
}

/// Time left after `completed` of `num_batches` batches, if the others take as long on average.
pub open spec fn batch_eta(completed: usize, num_batches: usize, elapsed: Double) -> Double {
    elapsed.quotient(Double::of_count(completed as nat)).product(
        Double::of_count((num_batches - completed) as nat),
    )
}

pub open spec fn batch_completed(
    completed: usize,
    num_batches: usize,
    elapsed: Double,
) -> ProgressView {
    ProgressView {
        percent: batch_percent(completed, num_batches),
        message_key: "batch_completed"@,
        params: seq![("completed"@, completed), ("total"@, num_batches)],
        eta: batch_eta(completed, num_batches, elapsed),
    }
}

pub open spec fn merging() -> ProgressView {
    plain(Double::of_fraction(95, 1), "merging"@, Double::of_fraction(1, 1))
}

pub open spec fn complete() -> ProgressView {
    plain(Double::of_fraction(100, 1), "complete"@, zero())
}

/// The message goes out where there is a window to show it.
pub open spec fn goes_out(sent: Option<ProgressEvent>, attached: bool, message: ProgressView) -> bool {
    match sent {
        Some(e) => attached && e@ == message,
        None => !attached,
    }
}

/// Makes the progress messages for a window, if there is one.
#[derive(Clone, Copy, Debug, PartialEq, Eq, Structural)]
pub struct ProgressNotifier {
    /// Whether there is a window.
    pub attached: bool,
}

fn no_params() -> (r: Vec<(String, usize)>)
    ensures
        figures(r@) == Seq::<(Seq<char>, usize)>::empty(),
{
    let r: Vec<(String, usize)> = Vec::new();
    assert(figures(r@) =~= Seq::<(Seq<char>, usize)>::empty());
    r
}

fn two_params(a: &str, x: usize, b: &str, y: usize) -> (r: Vec<(String, usize)>)
    ensures
        figures(r@) == seq![(a@, x), (b@, y)],
{
    let mut r: Vec<(String, usize)> = Vec::new();
    r.push((a.to_owned(), x));
    r.push((b.to_owned(), y));
    assert(figures(r@) =~= seq![(a@, x), (b@, y)]);
    r
}

impl ProgressNotifier {
    pub fn new(attached: bool) -> (r: ProgressNotifier)
        ensures
            r.attached == attached,
    {
        ProgressNotifier { attached }
    }

    /// A message with these contents.
    pub fn emit(
        &self,
        percent: Double,
        message_key: &str,
        params: Vec<(String, usize)>,
        eta: Double,
    ) -> (r: Option<ProgressEvent>)
        ensures
            goes_out(
                r,
                self.attached,
                (ProgressView { percent, message_key: message_key@, params: figures(params@), eta }),
            ),
    {
        if self.attached {
            Some(ProgressEvent { percent, message_key: message_key.to_owned(), params, eta })
        } else {
            None
        }
    }

    pub fn emit_probe_start(&self) -> (r: Option<ProgressEvent>)
        ensures
            goes_out(r, self.attached, probe_start()),
    {
        self.emit(Double::from_fraction(1, 2), "probe_start", no_params(), Double { bits: 0 })
    }

    pub fn emit_analysis(&self) -> (r: Option<ProgressEvent>)
        ensures
            goes_out(r, self.attached, analysis()),
    {
        self.emit(Double::from_fraction(1, 1), "analysis", no_params(), Double { bits: 0 })
    }

    pub fn emit_init_parallel(&self, num_batches: usize) -> (r: Option<ProgressEvent>)
        ensures
            goes_out(r, self.attached, init_parallel(num_batches)),
    {
        let mut params: Vec<(String, usize)> = Vec::new();
        params.push(("batches".to_owned(), num_batches));
        assert(figures(params@) =~= seq![("batches"@, num_batches)]);
        self.emit(Double::from_fraction(2, 1), "init_parallel", params, Double { bits: 0 })
    }

    pub fn emit_submit_batch(&self, batch_idx: usize, num_batches: usize) -> (r: Option<
        ProgressEvent,
    >)
        requires
            batch_idx < usize::MAX,
        ensures
            goes_out(r, self.attached, submit_batch(batch_idx, num_batches)),
    {
        self.emit(
            Double::from_fraction(2, 1),
            "submit_batch",
            two_params("current", batch_idx + 1, "total", num_batches),
            Double { bits: 0 },
        )
    }

    pub fn emit_batch_completed(&self, completed: usize, num_batches: usize, elapsed: Double) -> (r:
        Option<ProgressEvent>)
        requires
            completed <= num_batches,
        ensures
            goes_out(r, self.attached, batch_completed(completed, num_batches, elapsed)),
    {
        let average: Double = elapsed.over(Double::from_count(completed as u64));
        let remaining: usize = num_batches - completed;
        let eta: Double = average.times(Double::from_count(remaining as u64));
        let share: Double = Double::from_count(completed as u64).over(
            Double::from_count(num_batches as u64),
        );
        let percent: Double = Double::from_fraction(1, 1).plus(
            share.times(Double::from_fraction(90, 1)),
        );
        self.emit(
            percent,
            "batch_completed",
            two_params("completed", completed, "total", num_batches),
            eta,
        )
    }

    pub fn emit_merging(&self) -> (r: Option<ProgressEvent>)
        ensures
            goes_out(r, self.attached, merging()),
    {
        self.emit(Double::from_fraction(95, 1), "merging", no_params(), Double::from_fraction(1, 1))
    }

    pub fn emit_complete(&self) -> (r: Option<ProgressEvent>)
        ensures
            goes_out(r, self.attached, complete()),
    {
        self.emit(Double::from_fraction(100, 1), "complete", no_params(), Double { bits: 0 })
    }
}

proof fn lemma_figures_of_progress()
    ensures
        Double::of_fraction(1, 1).finite(),
        Double::of_fraction(1, 1).units() == pow2(UNIT as nat),
        Double::of_fraction(90, 1).finite(),
        Double::of_fraction(90, 1).units() == 90 * pow2(UNIT as nat),
        Double::of_fraction(91, 1).finite(),
        Double::of_fraction(91, 1).units() == 91 * pow2(UNIT as nat),
        Double::of_fraction(95, 1).finite(),
        Double::of_fraction(95, 1).units() == 95 * pow2(UNIT as nat),
        pow2(UNIT as nat) > 0,
{
    lemma2_to64();
    lemma2_to64_rest();
    lemma_pow2_pos(UNIT as nat);
    lemma_whole_fraction(1, 52);
    lemma_whole_fraction(90, 46);
    lemma_whole_fraction(91, 46);
    lemma_whole_fraction(95, 46);
    assert(1 * pow2(UNIT as nat) == pow2(UNIT as nat));
}

/// Share of 90 of the completed batches, and what is known of it.
proof fn lemma_share(completed: usize, num_batches: usize)
    requires
        completed <= num_batches,
        num_batches > 0,
    ensures
        ({
            let share = Double::of_count(completed as nat).quotient(
                Double::of_count(num_batches as nat),
            );
            let part = share.product(Double::of_fraction(90, 1));
            &&& !share.undefined()
            &&& 0 <= share.units() <= Double::of_fraction(1, 1).units()
            &&& part.finite()
            &&& 0 <= part.units() <= Double::of_fraction(90, 1).units()
            &&& part.units() == round_units(
                share.units() * Double::of_fraction(90, 1).units(),
                pow2(UNIT as nat) as int,
            )
        }),
{
    lemma_figures_of_progress();
    lemma_counts_ordered(completed as nat, num_batches as nat);
    lemma_counts_ordered(num_batches as nat, num_batches as nat);
    let c = Double::of_count(completed as nat);
    let n = Double::of_count(num_batches as nat);
    let p = pow2(UNIT as nat) as int;
    let one = Double::of_fraction(1, 1);
    let ninety = Double::of_fraction(90, 1);
    let share = c.quotient(n);
    let part = share.product(ninety);
    lemma_quotient_units(c, n);
    lemma_round_exact(one, 1);
    lemma_round_exact(zero(), 1);
    lemma_round_exact(ninety, 1);
    let cu = c.units();
    let nu = n.units();
    assert(cu * p * 1 <= (one.units() * 1) * nu) by (nonlinear_arith)
        requires
            cu <= nu,
            p > 0,
            one.units() == p,
    ;
    lemma_round_ordered(cu * p, nu, one.units() * 1, 1);
    assert((zero().units() * 1) * nu <= cu * p * 1) by (nonlinear_arith)
        requires
            cu >= 0,
            p > 0,
            zero().units() == 0,
    ;
    lemma_round_ordered(zero().units() * 1, 1, cu * p, nu);
    // a number between zero and one is finite
    lemma_bounded_is_finite(share, one);
    lemma_product_units(share, ninety);
    let su = share.units();
    let x = ninety.units();
    assert(su * x * 1 <= (x * 1) * p) by (nonlinear_arith)
        requires
            su <= p,
            x >= 0,
    ;
    lemma_round_ordered(su * x, p, x * 1, 1);
    assert((zero().units() * 1) * p <= su * x * 1) by (nonlinear_arith)
        requires
            su >= 0,
            x >= 0,
            zero().units() == 0,
    ;
    lemma_round_ordered(zero().units() * 1, 1, su * x, p);
    lemma_bounded_is_finite(part, ninety);
}

/// The percentage never falls while batches complete.
pub proof fn law_batch_percent_rises(a: usize, b: usize, num_batches: usize)
    requires
        a <= b <= num_batches,
        num_batches > 0,
    ensures
        !batch_percent(a, num_batches).undefined(),
        !batch_percent(b, num_batches).undefined(),
        batch_percent(a, num_batches).units() <= batch_percent(b, num_batches).units(),
{
    lemma_figures_of_progress();
    lemma_share(a, num_batches);
    lemma_share(b, num_batches);
    lemma_counts_ordered(a as nat, b as nat);
    lemma_counts_ordered(num_batches as nat, num_batches as nat);
    let p = pow2(UNIT as nat) as int;
    let n = Double::of_count(num_batches as nat);
    let ca = Double::of_count(a as nat);
    let cb = Double::of_count(b as nat);
    let one = Double::of_fraction(1, 1);
    let ninety = Double::of_fraction(90, 1);
    lemma_quotient_units(ca, n);
    lemma_quotient_units(cb, n);
    assert(ca.units() * p * n.units() <= cb.units() * p * n.units()) by (nonlinear_arith)
        requires
            ca.units() <= cb.units(),
            p > 0,
            n.units() > 0,
    ;
    lemma_round_ordered(ca.units() * p, n.units(), cb.units() * p, n.units());
    let sa = ca.quotient(n).units();
    let sb = cb.quotient(n).units();
    let x = ninety.units();
    assert(sa * x * p <= sb * x * p) by (nonlinear_arith)
        requires
            sa <= sb,
            x >= 0,
            p > 0,
    ;
    lemma_round_ordered(sa * x, p, sb * x, p);
    lemma_sum_units(one, ca.quotient(n).product(ninety));
    lemma_sum_units(one, cb.quotient(n).product(ninety));
    lemma_round_ordered(
        one.units() + ca.quotient(n).product(ninety).units(),
        1,
        one.units() + cb.quotient(n).product(ninety).units(),
        1,
    );
}

/// While batches run, the percentage stays between that of the analysis and 91, so that the
/// merge, reported at 95, is a step forward.
pub proof fn law_batch_percent_below_merging(completed: usize, num_batches: usize, elapsed: Double)
    requires
        completed <= num_batches,
        num_batches > 0,
    ensures
        analysis().percent.units() <= batch_completed(completed, num_batches, elapsed).percent.units(),
        merging().percent.exceeds(batch_completed(completed, num_batches, elapsed).percent),
{
    lemma_figures_of_progress();
    lemma_share(completed, num_batches);
    let one = Double::of_fraction(1, 1);
    let top = Double::of_fraction(91, 1);
    let part = Double::of_count(completed as nat).quotient(
        Double::of_count(num_batches as nat),
    ).product(Double::of_fraction(90, 1));
    lemma_sum_units(one, part);
    lemma_round_exact(one, 1);
    lemma_round_exact(top, 1);
    lemma_round_ordered(one.units() * 1, 1, one.units() + part.units(), 1);
    lemma_round_ordered(one.units() + part.units(), 1, top.units() * 1, 1);
}

/// From the probe to the start of the batches, and from the merge to the end, each message shows
/// more than the one before.
pub proof fn law_stages_move_forward(num_batches: usize)
    ensures
        analysis().percent.exceeds(probe_start().percent),
        init_parallel(num_batches).percent.exceeds(analysis().percent),
        complete().percent.exceeds(merging().percent),
{
    lemma2_to64();
    lemma2_to64_rest();
    lemma_pow2_pos(UNIT as nat);
    lemma_whole_fraction(1, 52);
    lemma_whole_fraction(2, 51);
    lemma_whole_fraction(95, 46);
    lemma_whole_fraction(100, 46);
    lemma_fraction_bits(1, 2, 1021, HIDDEN as int);
    lemma_fraction_bits(1, 1, 1022, HIDDEN as int);
    lemma_scale_increases(probe_start().percent.pattern(), analysis().percent.pattern());
}

} // verus!
