//! Cancellation of an export.
use std::sync::atomic::{AtomicBool, Ordering};
use std::sync::Arc;
use vstd::prelude::*;

verus! {

/// The message of a cancelled export.
pub open spec fn cancelled_text() -> Seq<char> {
    "EXPORT_CANCELLED"@
}

/// An export was cancelled, and this directory is left to be removed.
#[derive(Clone, Debug)]
pub struct Cancelled {
    pub temp_dir: String,
}

impl Cancelled {
    /// The message of a cancelled export.
    pub fn message(&self) -> (r: String)
        ensures
            r@ == cancelled_text(),
    {
        "EXPORT_CANCELLED".to_owned()
    }
}

/// Looks whether an export has been cancelled.
#[derive(Clone, Copy, Debug)]
pub struct CancelChecker<'a> {
    pub cancel_signal: &'a Arc<AtomicBool>,
    pub temp_dir: &'a str,
}

impl<'a> CancelChecker<'a> {
    pub fn new(cancel_signal: &'a Arc<AtomicBool>, temp_dir: &'a str) -> (r: CancelChecker<'a>)
        ensures
            r.cancel_signal == cancel_signal,
            r.temp_dir == temp_dir,
    {
        CancelChecker { cancel_signal, temp_dir }
    }

    /// What follows from the state of the signal: nothing, or the removal of the directory.
    pub fn decide(&self, cancelled: bool) -> (r: Result<(), Cancelled>)
        ensures
            match r {
                Ok(_) => !cancelled,
                Err(c) => cancelled && c.temp_dir@ == self.temp_dir@,
            },
    {
        if cancelled {
            Err(Cancelled { temp_dir: self.temp_dir.to_owned() })
        } else {
            Ok(())
        }
    }

    /// Reads the signal. A cancellation is reported exactly when that read gave `true`, and names
    /// the directory to remove. What a read gives depends on who has written to the signal, and
    /// is left open.
    pub fn check(&self) -> (r: Result<(), Cancelled>)
        ensures
            call_ensures(
                AtomicBool::load,
                (&**self.cancel_signal, Ordering::SeqCst),
                r is Err,
            ),
            r matches Err(c) ==> c.temp_dir@ == self.temp_dir@,
    {
        let cancelled: bool = self.cancel_signal.load(Ordering::SeqCst);
        self.decide(cancelled)
    }
}

/// A checker looks at the signal it was made with: what it reports is decided by one read of that
/// signal, made when it checks, and a cancellation names the directory it was made with and has
/// the message of a cancelled export.
pub proof fn law_check_follows_the_signal(
    cancel_signal: &Arc<AtomicBool>,
    temp_dir: &str,
    checker: CancelChecker<'_>,
    checked: Result<(), Cancelled>,
    decided: Result<(), Cancelled>,
    message: String,
)
    requires
        call_ensures(CancelChecker::new, (cancel_signal, temp_dir), checker),
        call_ensures(CancelChecker::check, (&checker,), checked),
        call_ensures(CancelChecker::decide, (&checker, checked is Err), decided),
        checked is Err ==> call_ensures(Cancelled::message, (&checked->Err_0,), message),
    ensures
        call_ensures(AtomicBool::load, (&**cancel_signal, Ordering::SeqCst), checked is Err),
        decided is Err <==> checked is Err,
        checked is Err ==> checked->Err_0.temp_dir@ == temp_dir@,
        decided is Err ==> decided->Err_0.temp_dir@ == temp_dir@,
        checked is Err ==> message@ == cancelled_text(),
{
}

} // verus!
