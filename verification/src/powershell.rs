//! How one run of a script goes: what is done next, given what came of the last thing
//! that was done. Performing a step is left to the caller.

use vstd::prelude::*;

use crate::windows::{OutputView, ScriptOutput};

verus! {

/// When a request to cancel is heeded. A script that only reads may be stopped at any
/// time. One that changes the system must not be stopped once it has started, so that
/// its final state can be seen and undone.
#[derive(Debug, Clone, Copy, PartialEq, Eq, Structural)]
pub enum Cancellation {
    Never,
    BeforeStart,
    Always,
}

/// The next thing to do.
#[derive(Debug, PartialEq, Eq)]
pub enum ScriptStep {
    /// Look whether the run is to be cancelled, before it starts.
    CheckBeforeStart,
    /// Start the process.
    Spawn,
    /// Write the input to the process.
    WriteInput,
    /// Look whether the run is to be cancelled, while the process runs.
    CheckWhileRunning,
    /// Look whether the process has exited.
    Poll,
    /// Wait a moment.
    Sleep,
    /// Kill the process and wait for it to end.
    Kill,
    /// Wait for the process to exit and take its output.
    Collect,
    /// Nothing is left to do.
    Finished(Result<ScriptOutput, String>),
}

/// What a `ScriptStep` stands for.
#[verifier::ext_equal]
pub ghost enum StepView {
    CheckBeforeStart,
    Spawn,
    WriteInput,
    CheckWhileRunning,
    Poll,
    Sleep,
    Kill,
    Collect,
    Finished(Result<OutputView, Seq<char>>),
}

/// What came of a step.
#[derive(Debug, PartialEq, Eq)]
pub enum ScriptEvent {
    /// Whether the run is to be cancelled.
    CancelRequested(bool),
    /// The step was done.
    Done,
    /// Whether the process has exited.
    Exited(bool),
    /// The output of the process.
    Output(ScriptOutput),
    /// The step failed.
    Failed(String),
}

/// What a `ScriptEvent` stands for.
#[verifier::ext_equal]
pub ghost enum EventView {
    CancelRequested(bool),
    Done,
    Exited(bool),
    Output(OutputView),
    Failed(Seq<char>),
}

impl DeepView for ScriptStep {
    type V = StepView;

    open spec fn deep_view(&self) -> StepView {
        match self {
            ScriptStep::CheckBeforeStart => StepView::CheckBeforeStart,
            ScriptStep::Spawn => StepView::Spawn,
            ScriptStep::WriteInput => StepView::WriteInput,
            ScriptStep::CheckWhileRunning => StepView::CheckWhileRunning,
            ScriptStep::Poll => StepView::Poll,
            ScriptStep::Sleep => StepView::Sleep,
            ScriptStep::Kill => StepView::Kill,
            ScriptStep::Collect => StepView::Collect,
            ScriptStep::Finished(Ok(output)) => StepView::Finished(Ok(output.deep_view())),
            ScriptStep::Finished(Err(reason)) => StepView::Finished(Err(reason@)),
        }
    }
}

impl DeepView for ScriptEvent {
    type V = EventView;

    open spec fn deep_view(&self) -> EventView {
        match self {
            ScriptEvent::CancelRequested(requested) => EventView::CancelRequested(*requested),
            ScriptEvent::Done => EventView::Done,
            ScriptEvent::Exited(exited) => EventView::Exited(*exited),
            ScriptEvent::Output(output) => EventView::Output(output.deep_view()),
            ScriptEvent::Failed(reason) => EventView::Failed(reason@),
        }
    }
}

/// A run that was cancelled.
pub open spec fn cancelled() -> StepView {
    StepView::Finished(Err("PowerShell 工作已取消。"@))
}

/// The step that follows.
pub open spec fn step_after(
    step: StepView,
    cancellation: Cancellation,
    event: EventView,
) -> StepView {
    match (step, event) {
        (StepView::CheckBeforeStart, EventView::CancelRequested(requested)) => {
            if requested && cancellation != Cancellation::Never {
                cancelled()
            } else {
                StepView::Spawn
            }
        },
        (StepView::Spawn, EventView::Failed(reason)) => StepView::Finished(
            Err("無法啟動 Windows PowerShell："@ + reason),
        ),
        (StepView::Spawn, _) => StepView::WriteInput,
        (StepView::WriteInput, EventView::Failed(reason)) => StepView::Finished(
            Err("無法傳送資料給 Windows PowerShell："@ + reason),
        ),
        (StepView::WriteInput, _) => if cancellation == Cancellation::Always {
            StepView::CheckWhileRunning
        } else {
            StepView::Collect
        },
        (StepView::CheckWhileRunning, EventView::CancelRequested(requested)) => {
            if requested && cancellation == Cancellation::Always {
                StepView::Kill
            } else {
                StepView::Poll
            }
        },
        (StepView::Poll, EventView::Exited(exited)) => if exited {
            StepView::Collect
        } else {
            StepView::Sleep
        },
        (StepView::Poll, EventView::Failed(reason)) => StepView::Finished(
            Err("檢查 Windows PowerShell 狀態時發生錯誤："@ + reason),
        ),
        (StepView::Sleep, _) => StepView::CheckWhileRunning,
        (StepView::Kill, _) => cancelled(),
        (StepView::Collect, EventView::Output(output)) => StepView::Finished(Ok(output)),
        (StepView::Collect, EventView::Failed(reason)) => StepView::Finished(
            Err("等待 Windows PowerShell 時發生錯誤："@ + reason),
        ),
        (step, _) => step,
    }
}

/// The message with the reason behind it.
fn with_reason(message: &str, reason: &str) -> (text: String)
    ensures
        text@ == message@ + reason@,
{
    let mut text: String = message.to_owned();
    text.append(reason);
    text
}

/// The step that follows. A step from which the event cannot come is to be done again.
pub fn next_step(step: ScriptStep, cancellation: Cancellation, event: ScriptEvent) -> (next:
    ScriptStep)
    ensures
        next.deep_view() == step_after(step.deep_view(), cancellation, event.deep_view()),
{
    match (step, event) {
        (ScriptStep::CheckBeforeStart, ScriptEvent::CancelRequested(requested)) => {
            if requested && cancellation != Cancellation::Never {
                ScriptStep::Finished(Err("PowerShell 工作已取消。".to_owned()))
            } else {
                ScriptStep::Spawn
            }
        },
        (ScriptStep::Spawn, ScriptEvent::Failed(reason)) => {
            ScriptStep::Finished(
                Err(with_reason("無法啟動 Windows PowerShell：", reason.as_str())),
            )
        },
        (ScriptStep::Spawn, _) => ScriptStep::WriteInput,
        (ScriptStep::WriteInput, ScriptEvent::Failed(reason)) => {
            ScriptStep::Finished(
                Err(with_reason("無法傳送資料給 Windows PowerShell：", reason.as_str())),
            )
        },
        (ScriptStep::WriteInput, _) => {
            if cancellation == Cancellation::Always {
                ScriptStep::CheckWhileRunning
            } else {
                ScriptStep::Collect
            }
        },
        (ScriptStep::CheckWhileRunning, ScriptEvent::CancelRequested(requested)) => {
            if requested && cancellation == Cancellation::Always {
                ScriptStep::Kill
            } else {
                ScriptStep::Poll
            }
        },
        (ScriptStep::Poll, ScriptEvent::Exited(exited)) => {
            if exited {
                ScriptStep::Collect
            } else {
                ScriptStep::Sleep
            }
        },
        (ScriptStep::Poll, ScriptEvent::Failed(reason)) => {
            ScriptStep::Finished(
                Err(with_reason("檢查 Windows PowerShell 狀態時發生錯誤：", reason.as_str())),
            )
        },
        (ScriptStep::Sleep, _) => ScriptStep::CheckWhileRunning,
        (ScriptStep::Kill, _) => ScriptStep::Finished(Err("PowerShell 工作已取消。".to_owned())),
        (ScriptStep::Collect, ScriptEvent::Output(output)) => ScriptStep::Finished(Ok(output)),
        (ScriptStep::Collect, ScriptEvent::Failed(reason)) => {
            ScriptStep::Finished(
                Err(with_reason("等待 Windows PowerShell 時發生錯誤：", reason.as_str())),
            )
        },
        (step, _) => step,
    }
}

/// The step that the events lead to, one after the other.
pub open spec fn step_after_all(
    step: StepView,
    cancellation: Cancellation,
    events: Seq<EventView>,
) -> StepView
    decreases events.len(),
{
    if events.len() == 0 {
        step
    } else {
        step_after(
            step_after_all(step, cancellation, events.drop_last()),
            cancellation,
            events.last(),
        )
    }
}

/// A script that changes the system is never stopped once its process has started,
/// whatever is requested: it ends with its output or with a failure of the system.
pub proof fn law_started_change_is_never_cancelled(
    cancellation: Cancellation,
    events: Seq<EventView>,
)
    requires
        cancellation != Cancellation::Always,
    ensures
        ({
            let step = step_after_all(StepView::WriteInput, cancellation, events);
            ||| step is WriteInput
            ||| step is Collect
            ||| step matches StepView::Finished(Ok(_))
            ||| exists|reason: Seq<char>|
                step == StepView::Finished(
                    Err(#[trigger] ("無法傳送資料給 Windows PowerShell："@ + reason)),
                )
            ||| exists|reason: Seq<char>|
                step == StepView::Finished(
                    Err(#[trigger] ("等待 Windows PowerShell 時發生錯誤："@ + reason)),
                )
        }),
    decreases events.len(),
{
    if events.len() > 0 {
        law_started_change_is_never_cancelled(cancellation, events.drop_last());
    }
}

/// A request to cancel that is seen where it is heeded ends the run as cancelled: at
/// once before the start, and by killing the process while it runs.
pub proof fn law_request_to_cancel_is_heeded(step: StepView, cancellation: Cancellation)
    requires
        (step is CheckBeforeStart && cancellation != Cancellation::Never) || (
        step is CheckWhileRunning && cancellation == Cancellation::Always),
    ensures
        step_after_all(
            step,
            cancellation,
            seq![EventView::CancelRequested(true), EventView::Done],
        ) == cancelled(),
        step is CheckWhileRunning ==> step_after(
            step,
            cancellation,
            EventView::CancelRequested(true),
        ) is Kill,
{
    let events = seq![EventView::CancelRequested(true), EventView::Done];
    assert(events.drop_last() =~= seq![EventView::CancelRequested(true)]);
    assert(events.drop_last().drop_last() =~= Seq::empty());
    reveal_with_fuel(step_after_all, 3);
}

/// Without a request to cancel, a run whose steps all succeed ends with the output of
/// the process, however often it is looked at before it exits.
pub proof fn law_uncancelled_run_collects_output(
    cancellation: Cancellation,
    waits: nat,
    output: OutputView,
)
    ensures
        ({
            let no = EventView::CancelRequested(false);
            let started = step_after(
                step_after(
                    step_after(StepView::CheckBeforeStart, cancellation, no),
                    cancellation,
                    EventView::Done,
                ),
                cancellation,
                EventView::Done,
            );
            let exited = if cancellation == Cancellation::Always {
                step_after(
                    step_after(polled(waits), cancellation, no),
                    cancellation,
                    EventView::Exited(true),
                )
            } else {
                started
            };
            &&& cancellation == Cancellation::Always ==> started == polled(0)
            &&& step_after(exited, cancellation, EventView::Output(output)) == StepView::Finished(
                Ok(output),
            )
        }),
    decreases waits,
{
    if waits > 0 {
        law_uncancelled_run_collects_output(cancellation, (waits - 1) as nat, output);
    }
}

/// Where a run that may be stopped stands after it was looked at `waits` times without
/// having exited.
pub open spec fn polled(waits: nat) -> StepView
    decreases waits,
{
    if waits == 0 {
        StepView::CheckWhileRunning
    } else {
        let no = EventView::CancelRequested(false);
        let looked = step_after(polled((waits - 1) as nat), Cancellation::Always, no);
        step_after(
            step_after(looked, Cancellation::Always, EventView::Exited(false)),
            Cancellation::Always,
            EventView::Done,
        )
    }
}

}
