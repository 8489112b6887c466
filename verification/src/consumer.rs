//! The decisions of a workflow consumer: one loop per pipeline stage that
//! waits for a job, runs one step of its workflow, and reads what the step
//! reports.
//!
//! The loop itself waits and runs the workflow; what it does next is decided
//! here, from the state of the consumer and from what has just happened.

use crate::trigger::{Listen, Trigger};
use vstd::prelude::*;

verus! {

/// What a consumer gets when it waits for work.
#[derive(Clone, Copy, Debug, PartialEq, Eq, Structural)]
pub enum Job {
    /// The trigger fired: run the workflow.
    Run,
    /// The shutdown signal was seen: end the loop.
    Shutdown,
}

/// What a step of a workflow reports when it succeeds.
#[derive(Clone, Copy, Debug, PartialEq, Eq, Structural)]
pub enum WorkComplete {
    /// No work is left.
    Complete,
    /// Work is left: the step is to run again without waiting.
    Incomplete,
}

/// How a step of a workflow ended.
#[derive(Clone, Copy, Debug, PartialEq, Eq, Structural)]
pub enum StepResult {
    Done(WorkComplete),
    Failed,
}

/// What the escalation policy decides of a failed step.
#[derive(Clone, Copy, Debug, PartialEq, Eq, Structural)]
pub enum Escalation {
    /// The failure is recorded and the loop goes on.
    Continue,
    /// The failure ends the task and is passed to its supervisor.
    Terminate,
}

/// Where a consumer stands in its loop.
#[derive(Clone, Copy, Debug, PartialEq, Eq, Structural)]
pub enum ConsumerState {
    WaitingForJob,
    Running,
    Stopped,
}

/// Why a consumer stopped.
#[derive(Clone, Copy, Debug, PartialEq, Eq, Structural)]
pub enum Exit {
    /// The shutdown signal was seen.
    Shutdown,
    /// A step failed and the escalation policy ended the task.
    Failed,
}

/// What happens to a consumer.
#[derive(Clone, Copy, Debug, PartialEq, Eq, Structural)]
pub enum Event {
    /// The loop is between two steps and asks what to do; `shutdown` says
    /// whether it has seen the shutdown signal.
    Poll { shutdown: bool },
    /// The trigger was fired.
    Triggered,
    /// The interval of the back-off passed while the consumer slept.
    IntervalPassed,
    /// The step of the workflow returned.
    StepDone(StepResult),
    /// The escalation policy decided of the failed step.
    Escalated(Escalation),
}

/// What the loop of a consumer is to do next.
#[derive(Clone, Copy, Debug, PartialEq, Eq, Structural)]
pub enum Action {
    /// Sleep until the trigger fires or the shutdown signal comes or, where
    /// an interval is given, until it has passed; then poll again.
    Sleep(Option<u64>),
    /// Run one step of the workflow and report how it ended.
    RunWorkflow,
    /// Hand the failure to the escalation policy and report its decision.
    Escalate,
    /// End the task.
    Exit(Exit),
    /// Nothing is to be done for this event.
    Continue,
}

/// The job that a waiting consumer gets: shutdown as soon as the signal has
/// been seen, also where a wake is pending; else a run where a wake is
/// pending; else none yet.
pub open spec fn job_or_exit(rx: Trigger, shutdown: bool) -> Option<Job> {
    if shutdown {
        Some(Job::Shutdown)
    } else if rx.pending {
        Some(Job::Run)
    } else {
        None
    }
}

/// Decides between the wake of a trigger and the shutdown signal. A wake
/// that gives a run is taken from the trigger; one that loses against the
/// shutdown signal stays where it is.
pub fn next_job_or_exit(rx: &mut Trigger, shutdown: bool) -> (job: Option<Job>)
    ensures
        job == job_or_exit(*old(rx), shutdown),
        *final(rx) == if shutdown {
            *old(rx)
        } else {
            old(rx).listened()
        },
{
    if shutdown {
        Some(Job::Shutdown)
    } else {
        match rx.listen() {
            Listen::Woken => Some(Job::Run),
            Listen::Sleep(_) => None,
        }
    }
}

/// One consumer: where it stands, its trigger, and whether it failed.
#[derive(Clone, Copy, Debug, PartialEq, Eq)]
pub struct Consumer {
    pub state: ConsumerState,
    pub trigger: Trigger,
    /// Whether the consumer stopped over a failed step.
    pub failed: bool,
}

impl Consumer {
    /// Whether the record is in order: the trigger is, and only a stopped
    /// consumer has failed.
    pub open spec fn wf(&self) -> bool {
        &&& self.trigger.wf()
        &&& self.failed ==> self.state is Stopped
    }

    /// Why a stopped consumer stopped.
    pub open spec fn exit(&self) -> Exit {
        if self.failed {
            Exit::Failed
        } else {
            Exit::Shutdown
        }
    }

    /// The consumer after an event, and what its loop is to do.
    ///
    /// A waiting consumer that polls stops on shutdown, runs where a wake is
    /// pending and sleeps otherwise. A step that reports more work fires the
    /// consumer's own trigger, so that the next poll runs at once; a failed
    /// step is handed to the escalation policy, whose decision sends the
    /// consumer back to waiting or stops it. A stopped consumer stays
    /// stopped. An event that does not belong to the state changes nothing.
    pub open spec fn reaction(&self, event: Event) -> (Consumer, Action) {
        match (self.state, event) {
            (ConsumerState::Stopped, Event::Poll { .. }) => (*self, Action::Exit(self.exit())),
            (ConsumerState::Stopped, _) => (*self, Action::Continue),
            (_, Event::Triggered) => (
                Consumer { trigger: self.trigger.fired(), ..*self },
                Action::Continue,
            ),
            (ConsumerState::WaitingForJob, Event::Poll { shutdown }) => match job_or_exit(
                self.trigger,
                shutdown,
            ) {
                Some(Job::Shutdown) => (
                    Consumer { state: ConsumerState::Stopped, ..*self },
                    Action::Exit(Exit::Shutdown),
                ),
                Some(Job::Run) => (
                    Consumer {
                        state: ConsumerState::Running,
                        trigger: self.trigger.listened(),
                        ..*self
                    },
                    Action::RunWorkflow,
                ),
                None => (
                    *self,
                    Action::Sleep(
                        match self.trigger.back_off {
                            Some(back_off) => Some(back_off.interval),
                            None => None,
                        },
                    ),
                ),
            },
            (ConsumerState::WaitingForJob, Event::IntervalPassed) => (
                Consumer { trigger: self.trigger.woken_naturally(), ..*self },
                Action::Continue,
            ),
            (ConsumerState::Running, Event::StepDone(StepResult::Done(WorkComplete::Complete))) => (
                Consumer { state: ConsumerState::WaitingForJob, ..*self },
                Action::Continue,
            ),
            (
                ConsumerState::Running,
                Event::StepDone(StepResult::Done(WorkComplete::Incomplete)),
            ) => (
                Consumer {
                    state: ConsumerState::WaitingForJob,
                    trigger: self.trigger.fired(),
                    ..*self
                },
                Action::Continue,
            ),
            (ConsumerState::Running, Event::StepDone(StepResult::Failed)) => (
                *self,
                Action::Escalate,
            ),
            (ConsumerState::Running, Event::Escalated(Escalation::Continue)) => (
                Consumer { state: ConsumerState::WaitingForJob, ..*self },
                Action::Continue,
            ),
            (ConsumerState::Running, Event::Escalated(Escalation::Terminate)) => (
                Consumer { state: ConsumerState::Stopped, failed: true, ..*self },
                Action::Exit(Exit::Failed),
            ),
            _ => (*self, Action::Continue),
        }
    }

    /// A consumer that waits for its first job on this trigger.
    pub fn new(trigger: Trigger) -> (consumer: Self)
        ensures
            consumer == (Consumer { state: ConsumerState::WaitingForJob, trigger, failed: false }),
    {
        Consumer { state: ConsumerState::WaitingForJob, trigger, failed: false }
    }

    /// The consumer of the stage that publishes operations. Its trigger
    /// loops: it wakes the stage after one minute, then after intervals that
    /// double up to five minutes, and starts again at one minute whenever it
    /// is fired.
    pub fn publish_dht_ops() -> (consumer: Self)
        ensures
            consumer.wf(),
            consumer.state is WaitingForJob,
            !consumer.failed,
            !consumer.trigger.pending,
            consumer.trigger.back_off == Some(
                crate::trigger::BackOff {
                    first: 60_000,
                    ceiling: 300_000,
                    interval: 60_000,
                    reset_on_trigger: true,
                },
            ),
    {
        Consumer::new(Trigger::new_with_loop(60_000, 300_000, true))
    }

    /// The consumer of the stage that sends validation receipts. It runs
    /// only when its trigger is fired.
    pub fn validation_receipt() -> (consumer: Self)
        ensures
            consumer.wf(),
            consumer == (Consumer {
                state: ConsumerState::WaitingForJob,
                trigger: Trigger { pending: false, back_off: None },
                failed: false,
            }),
    {
        Consumer::new(Trigger::new())
    }

    /// Takes an event and says what the loop is to do next.
    pub fn react(&mut self, event: Event) -> (action: Action)
        ensures
            (*final(self), action) == old(self).reaction(event),
            old(self).wf() ==> final(self).wf(),
    {
        match self.state {
            ConsumerState::Stopped => match event {
                Event::Poll { .. } => if self.failed {
                    Action::Exit(Exit::Failed)
                } else {
                    Action::Exit(Exit::Shutdown)
                },
                _ => Action::Continue,
            },
            ConsumerState::WaitingForJob => match event {
                Event::Triggered => {
                    self.trigger.trigger();
                    Action::Continue
                },
                Event::Poll { shutdown } => {
                    let interval = match self.trigger.back_off {
                        Some(back_off) => Some(back_off.interval),
                        None => None,
                    };
                    match next_job_or_exit(&mut self.trigger, shutdown) {
                        Some(Job::Shutdown) => {
                            self.state = ConsumerState::Stopped;
                            Action::Exit(Exit::Shutdown)
                        },
                        Some(Job::Run) => {
                            self.state = ConsumerState::Running;
                            Action::RunWorkflow
                        },
                        None => Action::Sleep(interval),
                    }
                },
                Event::IntervalPassed => {
                    self.trigger.natural_wake();
                    Action::Continue
                },
                _ => Action::Continue,
            },
            ConsumerState::Running => match event {
                Event::Triggered => {
                    self.trigger.trigger();
                    Action::Continue
                },
                Event::StepDone(StepResult::Done(WorkComplete::Complete)) => {
                    self.state = ConsumerState::WaitingForJob;
                    Action::Continue
                },
                Event::StepDone(StepResult::Done(WorkComplete::Incomplete)) => {
                    self.trigger.trigger();
                    self.state = ConsumerState::WaitingForJob;
                    Action::Continue
                },
                Event::StepDone(StepResult::Failed) => Action::Escalate,
                Event::Escalated(Escalation::Continue) => {
                    self.state = ConsumerState::WaitingForJob;
                    Action::Continue
                },
                Event::Escalated(Escalation::Terminate) => {
                    self.state = ConsumerState::Stopped;
                    self.failed = true;
                    Action::Exit(Exit::Failed)
                },
                _ => Action::Continue,
            },
        }
    }
}

/// The consumer after a sequence of events.
pub open spec fn after(consumer: Consumer, events: Seq<Event>) -> Consumer
    decreases events.len(),
{
    if events.len() == 0 {
        consumer
    } else {
        after(consumer, events.drop_last()).reaction(events.last()).0
    }
}

/// What the loop is told to do on the event at position `i` of a sequence.
pub open spec fn action_at(consumer: Consumer, events: Seq<Event>, i: int) -> Action {
    after(consumer, events.take(i)).reaction(events[i]).1
}

/// Whether every poll of the sequence sees the shutdown signal.
pub open spec fn shutdown_seen(events: Seq<Event>) -> bool {
    forall|i: int|
        0 <= i < events.len() ==> match #[trigger] events[i] {
            Event::Poll { shutdown } => shutdown,
            _ => true,
        }
}

/// A stopped consumer stays as it is and never runs its workflow again,
/// whatever happens.
pub proof fn lemma_stopped_is_final(consumer: Consumer, events: Seq<Event>)
    requires
        consumer.state is Stopped,
    ensures
        after(consumer, events) == consumer,
        forall|i: int|
            0 <= i < events.len() ==> #[trigger] action_at(consumer, events, i)
                != Action::RunWorkflow,
    decreases events.len(),
{
    if events.len() > 0 {
        lemma_stopped_is_final(consumer, events.drop_last());
        assert forall|i: int| 0 <= i < events.len() implies #[trigger] action_at(
            consumer,
            events,
            i,
        ) != Action::RunWorkflow by {
            lemma_stopped_is_final(consumer, events.take(i));
        }
    }
}

/// Once the shutdown signal has fired, a consumer between two steps stops at
/// its next poll, also where a wake is pending.
pub proof fn lemma_shutdown_stops_at_poll(consumer: Consumer)
    requires
        !(consumer.state is Running),
    ensures
        consumer.reaction(Event::Poll { shutdown: true }).0.state is Stopped,
        consumer.reaction(Event::Poll { shutdown: true }).1 is Exit,
{
}

/// Once the shutdown signal has fired, the workflow is never run again: no
/// event makes the loop run it, and a consumer that is not in a step does
/// not enter one. A step that was in flight when the signal fired is the
/// last one.
pub proof fn lemma_no_run_after_shutdown(consumer: Consumer, events: Seq<Event>)
    requires
        shutdown_seen(events),
    ensures
        forall|i: int|
            0 <= i < events.len() ==> #[trigger] action_at(consumer, events, i)
                != Action::RunWorkflow,
        after(consumer, events).state is Running ==> consumer.state is Running,
    decreases events.len(),
{
    if events.len() > 0 {
        let front = events.drop_last();
        assert(shutdown_seen(front)) by {
            assert forall|i: int| 0 <= i < front.len() implies match #[trigger] front[i] {
                Event::Poll { shutdown } => shutdown,
                _ => true,
            } by {
                assert(front[i] == events[i]);
            }
        }
        lemma_no_run_after_shutdown(consumer, front);
        assert forall|i: int| 0 <= i < events.len() implies #[trigger] action_at(
            consumer,
            events,
            i,
        ) != Action::RunWorkflow by {
            if i < events.len() - 1 {
                assert(events.take(i) == front.take(i));
                assert(events[i] == front[i]);
                assert(action_at(consumer, events, i) == action_at(consumer, front, i));
            } else {
                assert(events.take(i) == front);
                let last = events[i];
                assert(match last {
                    Event::Poll { shutdown } => shutdown,
                    _ => true,
                });
            }
        }
        let last = events[events.len() - 1];
        assert(match last {
            Event::Poll { shutdown } => shutdown,
            _ => true,
        });
    }
}

/// Taking the events of a sequence in two parts leads to the same consumer
/// as taking them in one.
proof fn lemma_after_in_parts(consumer: Consumer, events: Seq<Event>, i: int)
    requires
        0 <= i <= events.len(),
    ensures
        after(consumer, events) == after(after(consumer, events.take(i)), events.skip(i)),
    decreases events.len() - i,
{
    if i == events.len() {
        assert(events.take(i) == events);
        assert(events.skip(i).len() == 0);
    } else {
        lemma_after_in_parts(consumer, events.drop_last(), i);
        assert(events.drop_last().take(i) == events.take(i));
        assert(events.drop_last().skip(i) == events.skip(i).drop_last());
        assert(events.skip(i).last() == events.last());
    }
}

/// Once the shutdown signal has fired, the loop ends at its next turn: after
/// a poll that finds the consumer between two steps, the consumer is stopped
/// and stays stopped, whatever follows.
pub proof fn lemma_shutdown_ends_the_loop(consumer: Consumer, events: Seq<Event>, i: int)
    requires
        0 <= i < events.len(),
        events[i] == (Event::Poll { shutdown: true }),
        !(after(consumer, events.take(i)).state is Running),
    ensures
        after(consumer, events).state is Stopped,
        forall|j: int|
            i < j < events.len() ==> #[trigger] action_at(consumer, events, j)
                != Action::RunWorkflow,
{
    let before = after(consumer, events.take(i));
    let stopped = after(consumer, events.take(i + 1));
    assert(events.take(i + 1).drop_last() == events.take(i));
    assert(stopped == before.reaction(events[i]).0);
    lemma_shutdown_stops_at_poll(before);
    lemma_after_in_parts(consumer, events, i + 1);
    lemma_stopped_is_final(stopped, events.skip(i + 1));
    assert forall|j: int| i < j < events.len() implies #[trigger] action_at(consumer, events, j)
        != Action::RunWorkflow by {
        lemma_after_in_parts(consumer, events.take(j), i + 1);
        assert(events.take(j).take(i + 1) == events.take(i + 1));
        lemma_stopped_is_final(stopped, events.take(j).skip(i + 1));
    }
}

/// A step that reports more work makes the next turn run at once: the
/// consumer goes back to waiting with a wake pending, so that its next poll
/// runs the workflow and does not sleep, whatever the interval of the
/// back-off.
pub proof fn lemma_incomplete_runs_at_once(consumer: Consumer)
    requires
        consumer.state is Running,
    ensures
        ({
            let waiting = consumer.reaction(
                Event::StepDone(StepResult::Done(WorkComplete::Incomplete)),
            ).0;
            &&& waiting.state is WaitingForJob
            &&& waiting.trigger.pending
            &&& waiting.reaction(Event::Poll { shutdown: false }).1 == Action::RunWorkflow
            &&& waiting.reaction(Event::Poll { shutdown: false }).0.state is Running
        }),
{
}

/// A step that reports no more work sends the consumer back to waiting; with
/// no wake pending its next poll sleeps.
pub proof fn lemma_complete_waits(consumer: Consumer)
    requires
        consumer.state is Running,
        !consumer.trigger.pending,
    ensures
        ({
            let waiting = consumer.reaction(
                Event::StepDone(StepResult::Done(WorkComplete::Complete)),
            ).0;
            &&& waiting.state is WaitingForJob
            &&& waiting.reaction(Event::Poll { shutdown: false }).1 is Sleep
            &&& waiting.reaction(Event::Poll { shutdown: false }).0 == waiting
        }),
{
}

} // verus!
