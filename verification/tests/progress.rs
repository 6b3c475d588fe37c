use silence_cutter::double::Double;
use silence_cutter::progress::{ProgressEvent, ProgressNotifier};

fn value(x: Double) -> f64 {
    f64::from_bits(x.bits)
}

fn shown(event: Option<ProgressEvent>) -> (f64, String, Vec<(String, usize)>, f64) {
    let e = event.unwrap();
    (value(e.percent), e.message_key, e.params, value(e.eta))
}

fn params(list: &[(&str, usize)]) -> Vec<(String, usize)> {
    list.iter().map(|p| (p.0.to_string(), p.1)).collect()
}

#[test]
fn messages_of_the_stages() {
    let n = ProgressNotifier::new(true);
    assert_eq!(shown(n.emit_probe_start()), (0.5, "probe_start".to_string(), params(&[]), 0.0));
    assert_eq!(shown(n.emit_analysis()), (1.0, "analysis".to_string(), params(&[]), 0.0));
    assert_eq!(
        shown(n.emit_init_parallel(7)),
        (2.0, "init_parallel".to_string(), params(&[("batches", 7)]), 0.0)
    );
    assert_eq!(
        shown(n.emit_submit_batch(0, 7)),
        (2.0, "submit_batch".to_string(), params(&[("current", 1), ("total", 7)]), 0.0)
    );
    assert_eq!(shown(n.emit_merging()), (95.0, "merging".to_string(), params(&[]), 1.0));
    assert_eq!(shown(n.emit_complete()), (100.0, "complete".to_string(), params(&[]), 0.0));
}

#[test]
fn completed_batches_are_reported() {
    let n = ProgressNotifier::new(true);
    let elapsed = 7.3f64;
    for total in 1..40usize {
        for completed in 1..=total {
            let event = n.emit_batch_completed(completed, total, Double { bits: elapsed.to_bits() });
            let percent = 1.0 + (completed as f64 / total as f64 * 90.0);
            let eta = elapsed / completed as f64 * (total - completed) as f64;
            let key = "batch_completed".to_string();
            let figures = params(&[("completed", completed), ("total", total)]);
            assert_eq!(shown(event), (percent, key, figures, eta));
        }
    }
}

#[test]
fn percentage_rises_to_that_before_the_merge() {
    let n = ProgressNotifier::new(true);
    let mut last = 1.0;
    for completed in 0..=13usize {
        let event = n.emit_batch_completed(completed, 13, Double { bits: 0 });
        let percent = shown(event).0;
        assert!(last <= percent && percent < 95.0);
        last = percent;
    }
    assert_eq!(last, 91.0);
}

#[test]
fn without_a_window_nothing_goes_out() {
    let n = ProgressNotifier::new(false);
    assert!(n.emit_probe_start().is_none());
    assert!(n.emit_analysis().is_none());
    assert!(n.emit_init_parallel(1).is_none());
    assert!(n.emit_submit_batch(0, 1).is_none());
    assert!(n.emit_batch_completed(1, 1, Double { bits: 0 }).is_none());
    assert!(n.emit_merging().is_none());
    assert!(n.emit_complete().is_none());
    assert!(n.emit(Double { bits: 0 }, "any", Vec::new(), Double { bits: 0 }).is_none());
}

#[test]
fn any_message_is_passed_on() {
    let n = ProgressNotifier::new(true);
    let event = n.emit(
        Double { bits: 33.5f64.to_bits() },
        "other",
        params(&[("x", 3)]),
        Double { bits: 2.0f64.to_bits() },
    );
    assert_eq!(shown(event), (33.5, "other".to_string(), params(&[("x", 3)]), 2.0));
}

#[test]
fn stages_move_forward() {
    let n = ProgressNotifier::new(true);
    let percents = vec![
        shown(n.emit_probe_start()).0,
        shown(n.emit_analysis()).0,
        shown(n.emit_init_parallel(3)).0,
        shown(n.emit_merging()).0,
        shown(n.emit_complete()).0,
    ];
    for pair in percents.windows(2) {
        assert!(pair[0] < pair[1]);
    }
}
