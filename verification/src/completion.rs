//! Waiting for the batches of an export.
use vstd::prelude::*;
use vstd::string::StringExecFns;
use crate::cancel::cancelled_text;
use crate::double::Double;
use crate::progress::{batch_completed, goes_out, ProgressEvent, ProgressNotifier};

verus! {

/// What happened while waiting.
#[derive(Clone, Debug)]
pub enum TaskEvent {
    /// A batch was written, this many seconds after the first was submitted.
    Succeeded { elapsed: Double },
    /// A batch failed.
    Failed { error: String },
    /// The task of a batch broke down.
    Panicked { error: String },
    /// There are no more tasks to wait for.
    Exhausted,
    /// Some time has passed; the export has been cancelled or not.
    Tick { cancelled: bool },
}

/// How far the batches are.
#[derive(Clone, Copy, Debug, PartialEq, Eq, Structural)]
pub struct Completion {
    pub completed: usize,
    pub num_batches: usize,
}

/// Whether to go on waiting.
#[derive(Clone, Debug)]
pub enum Waiting {
    /// Wait for the next event.
    On(Completion),
    /// The wait is over after this many batches.
    Done(usize),
    /// The export has failed with this message.
    Failed(String),
    /// The export has been cancelled: stop all tasks.
    Cancelled,
}

/// `Waiting` with the text of its message.
pub enum WaitingView {
    On(Completion),
    Done(usize),
    Failed(Seq<char>),
    Cancelled,
}

impl View for Waiting {
    type V = WaitingView;

    open spec fn view(&self) -> WaitingView {
        match *self {
            Waiting::On(c) => WaitingView::On(c),
            Waiting::Done(n) => WaitingView::Done(n),
            Waiting::Failed(e) => WaitingView::Failed(e@),
            Waiting::Cancelled => WaitingView::Cancelled,
        }
    }
}

impl Waiting {
    /// How the wait ended, if it has: with a number of batches, or with the message of a failure
    /// or of the cancellation.
    pub fn outcome(self) -> (r: Option<Result<usize, String>>)
        ensures
            match self@ {
                WaitingView::On(_) => r is None,
                WaitingView::Done(n) => r == Some(Ok::<usize, String>(n)),
                WaitingView::Failed(m) => r matches Some(Err(e)) && e@ == m,
                WaitingView::Cancelled => r matches Some(Err(e)) && e@ == cancelled_text(),
            },
    {
        match self {
            Waiting::On(_) => None,
            Waiting::Done(n) => Some(Ok(n)),
            Waiting::Failed(message) => Some(Err(message)),
            Waiting::Cancelled => Some(Err("EXPORT_CANCELLED".to_owned())),
        }
    }
}

/// What follows an event: a message, and whether to go on waiting.
#[derive(Clone, Debug)]
pub struct WaitStep {
    pub notice: Option<ProgressEvent>,
    pub waiting: Waiting,
}

/// Waiting goes on until all batches are completed.
pub open spec fn wait_for(c: Completion) -> WaitingView {
    if c.completed < c.num_batches {
        WaitingView::On(c)
    } else {
        WaitingView::Done(c.completed)
    }
}

/// One more batch is completed.
pub open spec fn one_more(c: Completion) -> Completion {
    Completion { completed: (c.completed + 1) as usize, num_batches: c.num_batches }
}

/// Whether to go on waiting after an event.
pub open spec fn after_event(c: Completion, event: TaskEvent) -> WaitingView {
    match event {
        TaskEvent::Succeeded { .. } => wait_for(one_more(c)),
        TaskEvent::Failed { error } => WaitingView::Failed("Batch processing error: "@ + error@),
        TaskEvent::Panicked { error } => WaitingView::Failed("Parallel task panicked: "@ + error@),
        TaskEvent::Exhausted => WaitingView::Done(c.completed),
        TaskEvent::Tick { cancelled } => if cancelled {
            WaitingView::Cancelled
        } else {
            wait_for(c)
        },
    }
}

impl Completion {
    /// The wait for `num_batches` batches.
    pub fn await_completion(num_batches: usize) -> (r: Waiting)
        ensures
            r@ == wait_for((Completion { completed: 0, num_batches })),
    {
        Completion { completed: 0, num_batches }.wait()
    }

    fn wait(self) -> (r: Waiting)
        ensures
            r@ == wait_for(self),
    {
        if self.completed < self.num_batches {
            Waiting::On(self)
        } else {
            Waiting::Done(self.completed)
        }
    }

    /// What follows an event while batches are missing. Every written batch is reported.
    pub fn on_event(self, event: TaskEvent, notifier: ProgressNotifier) -> (r: WaitStep)
        requires
            self.completed < self.num_batches,
        ensures
            r.waiting@ == after_event(self, event),
            match event {
                TaskEvent::Succeeded { elapsed } => goes_out(
                    r.notice,
                    notifier.attached,
                    batch_completed((self.completed + 1) as usize, self.num_batches, elapsed),
                ),
                _ => r.notice is None,
            },
    {
        match event {
            TaskEvent::Succeeded { elapsed } => {
                let next: Completion = Completion {
                    completed: self.completed + 1,
                    num_batches: self.num_batches,
                };
                WaitStep {
                    notice: notifier.emit_batch_completed(
                        next.completed,
                        next.num_batches,
                        elapsed,
                    ),
                    waiting: next.wait(),
                }
            },
            TaskEvent::Failed { error } => {
                let mut message: String = "Batch processing error: ".to_owned();
                message.append(error.as_str());
                WaitStep { notice: None, waiting: Waiting::Failed(message) }
            },
            TaskEvent::Panicked { error } => {
                let mut message: String = "Parallel task panicked: ".to_owned();
                message.append(error.as_str());
                WaitStep { notice: None, waiting: Waiting::Failed(message) }
            },
            TaskEvent::Exhausted => {
                WaitStep { notice: None, waiting: Waiting::Done(self.completed) }
            },
            TaskEvent::Tick { cancelled } => {
                if cancelled {
                    WaitStep { notice: None, waiting: Waiting::Cancelled }
                } else {
                    WaitStep { notice: None, waiting: self.wait() }
                }
            },
        }
    }
}

/// Whether to go on waiting after a series of events; what comes after the end of the wait is
/// not looked at.
pub open spec fn after_events(w: WaitingView, events: Seq<TaskEvent>) -> WaitingView
    decreases events.len(),
{
    if events.len() == 0 {
        w
    } else {
        match w {
            WaitingView::On(c) => after_events(after_event(c, events[0]), events.skip(1)),
            _ => w,
        }
    }
}

/// Number of batches that were written among the events.
pub open spec fn successes(events: Seq<TaskEvent>) -> nat
    decreases events.len(),
{
    if events.len() == 0 {
        0
    } else {
        successes(events.skip(1)) + (if events[0] is Succeeded {
            1nat
        } else {
            0
        })
    }
}

/// A batch was written, or time passed without a cancellation.
pub open spec fn harmless(event: TaskEvent) -> bool {
    match event {
        TaskEvent::Succeeded { .. } => true,
        TaskEvent::Tick { cancelled } => !cancelled,
        _ => false,
    }
}

proof fn lemma_over(w: WaitingView, events: Seq<TaskEvent>)
    requires
        !(w is On),
    ensures
        after_events(w, events) == w,
{
}

/// With harmless events only, the wait ends once every batch is written, reports all of them,
/// and goes on before that.
pub proof fn law_wait_ends_with_all_batches(c: Completion, events: Seq<TaskEvent>)
    requires
        c.completed <= c.num_batches,
        forall|i: int| 0 <= i < events.len() ==> harmless(#[trigger] events[i]),
    ensures
        c.completed + successes(events) >= c.num_batches ==> after_events(wait_for(c), events)
            == WaitingView::Done(c.num_batches),
        c.completed + successes(events) < c.num_batches ==> after_events(wait_for(c), events)
            == WaitingView::On(
            Completion {
                completed: (c.completed + successes(events)) as usize,
                num_batches: c.num_batches,
            },
        ),
    decreases events.len(),
{
    if c.completed == c.num_batches {
        lemma_over(wait_for(c), events);
    } else if events.len() > 0 {
        let rest = events.skip(1);
        assert(harmless(events[0]));
        assert forall|i: int| 0 <= i < rest.len() implies harmless(#[trigger] rest[i]) by {
            assert(rest[i] == events[i + 1]);
        }
        if events[0] is Succeeded {
            law_wait_ends_with_all_batches(one_more(c), rest);
        } else {
            law_wait_ends_with_all_batches(c, rest);
        }
    }
}

/// A wait that ends well has seen every batch, unless the tasks ran out before.
pub proof fn law_done_is_complete(c: Completion, events: Seq<TaskEvent>, n: usize)
    requires
        c.completed <= c.num_batches,
        after_events(wait_for(c), events) == WaitingView::Done(n),
        forall|i: int| 0 <= i < events.len() ==> !((#[trigger] events[i]) is Exhausted),
    ensures
        n == c.num_batches,
    decreases events.len(),
{
    if c.completed == c.num_batches {
        lemma_over(wait_for(c), events);
    } else if events.len() > 0 {
        let rest = events.skip(1);
        assert(!(events[0] is Exhausted));
        assert forall|i: int| 0 <= i < rest.len() implies !((#[trigger] rest[i]) is Exhausted) by {
            assert(rest[i] == events[i + 1]);
        }
        match events[0] {
            TaskEvent::Succeeded { .. } => {
                law_done_is_complete(one_more(c), rest, n);
            },
            TaskEvent::Tick { cancelled } => {
                if cancelled {
                    lemma_over(after_event(c, events[0]), rest);
                } else {
                    law_done_is_complete(c, rest, n);
                }
            },
            _ => {
                lemma_over(after_event(c, events[0]), rest);
            },
        }
    }
}

/// A cancellation that is seen while batches are missing cancels the export, whatever comes
/// after it.
pub proof fn law_cancellation_ends_the_wait(
    c: Completion,
    events: Seq<TaskEvent>,
    later: Seq<TaskEvent>,
)
    requires
        c.completed + successes(events) < c.num_batches,
        forall|i: int| 0 <= i < events.len() ==> harmless(#[trigger] events[i]),
    ensures
        after_events(
            wait_for(c),
            events + seq![TaskEvent::Tick { cancelled: true }] + later,
        ) == WaitingView::Cancelled,
    decreases events.len(),
{
    let tick = TaskEvent::Tick { cancelled: true };
    let all = events + seq![tick] + later;
    if events.len() == 0 {
        assert(all[0] == tick);
        lemma_over(WaitingView::Cancelled, all.skip(1));
    } else {
        let rest = events.skip(1);
        assert(harmless(events[0]));
        assert(all[0] == events[0]);
        assert(all.skip(1) =~= rest + seq![tick] + later);
        assert forall|i: int| 0 <= i < rest.len() implies harmless(#[trigger] rest[i]) by {
            assert(rest[i] == events[i + 1]);
        }
        if events[0] is Succeeded {
            law_cancellation_ends_the_wait(one_more(c), rest, later);
        } else {
            law_cancellation_ends_the_wait(c, rest, later);
        }
    }
}

} // verus!
