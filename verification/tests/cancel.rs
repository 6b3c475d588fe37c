use silence_cutter::cancel::CancelChecker;
use std::sync::atomic::{AtomicBool, Ordering};
use std::sync::Arc;

#[test]
fn signal_is_read() {
    let signal = Arc::new(AtomicBool::new(false));
    let checker = CancelChecker::new(&signal, "out.temp_parts");
    assert!(checker.check().is_ok());
    signal.store(true, Ordering::SeqCst);
    let cancelled = checker.check().unwrap_err();
    assert_eq!(cancelled.temp_dir, "out.temp_parts");
    assert_eq!(cancelled.message(), "EXPORT_CANCELLED");
    signal.store(false, Ordering::SeqCst);
    assert!(checker.check().is_ok());
}

#[test]
fn decision_follows_the_signal() {
    let signal = Arc::new(AtomicBool::new(false));
    let checker = CancelChecker::new(&signal, "dir");
    assert!(checker.decide(false).is_ok());
    assert_eq!(checker.decide(true).unwrap_err().temp_dir, "dir");
}
