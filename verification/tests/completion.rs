use silence_cutter::completion::{Completion, TaskEvent, Waiting};
use silence_cutter::double::Double;
use silence_cutter::progress::{ProgressEvent, ProgressNotifier};

fn written() -> TaskEvent {
    TaskEvent::Succeeded { elapsed: Double { bits: 4.0f64.to_bits() } }
}

fn run(num_batches: usize, events: Vec<TaskEvent>) -> (Waiting, Vec<ProgressEvent>) {
    let mut waiting = Completion::await_completion(num_batches);
    let mut notices = Vec::new();
    for event in events {
        let completion = match waiting {
            Waiting::On(c) => c,
            _ => break,
        };
        let step = completion.on_event(event, ProgressNotifier::new(true));
        notices.extend(step.notice);
        waiting = step.waiting;
    }
    (waiting, notices)
}

#[test]
fn wait_ends_with_all_batches() {
    let tick = TaskEvent::Tick { cancelled: false };
    let (waiting, notices) = run(2, vec![written(), tick, written(), written()]);
    assert_eq!(waiting.outcome(), Some(Ok(2)));
    assert_eq!(notices.len(), 2);
    assert_eq!(f64::from_bits(notices[0].percent.bits), 46.0);
    assert_eq!(f64::from_bits(notices[0].eta.bits), 4.0);
    assert_eq!(notices[1].params, vec![("completed".to_string(), 2), ("total".to_string(), 2)]);
}

#[test]
fn wait_goes_on_while_batches_are_missing() {
    let (waiting, _) = run(3, vec![written(), written()]);
    assert_eq!(waiting.outcome(), None);
}

#[test]
fn no_batches_need_no_wait() {
    assert_eq!(Completion::await_completion(0).outcome(), Some(Ok(0)));
}

#[test]
fn cancellation_ends_the_wait() {
    let cancel = TaskEvent::Tick { cancelled: true };
    let (waiting, notices) = run(3, vec![written(), cancel, written(), written()]);
    assert_eq!(waiting.outcome(), Some(Err("EXPORT_CANCELLED".to_string())));
    assert_eq!(notices.len(), 1);
}

#[test]
fn failed_batch_ends_the_wait() {
    let event = TaskEvent::Failed { error: "FFmpeg Batch Error".to_string() };
    let (waiting, _) = run(3, vec![event]);
    let message = "Batch processing error: FFmpeg Batch Error".to_string();
    assert_eq!(waiting.outcome(), Some(Err(message)));
}

#[test]
fn panicked_task_ends_the_wait() {
    let (waiting, _) = run(3, vec![TaskEvent::Panicked { error: "task 7 panicked".to_string() }]);
    let message = "Parallel task panicked: task 7 panicked".to_string();
    assert_eq!(waiting.outcome(), Some(Err(message)));
}

#[test]
fn exhausted_tasks_end_the_wait() {
    let (waiting, _) = run(3, vec![written(), TaskEvent::Exhausted]);
    assert_eq!(waiting.outcome(), Some(Ok(1)));
}
