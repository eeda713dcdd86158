//! The order in which the compositor's connection is read, dispatched and flushed while
//! waiting for a capture event.
use vstd::prelude::*;

verus! {

/// What to do next on the connection.
///
/// Reading takes a guard, which is obtained by preparing to read and used up by reading.
/// Preparing is refused while events are queued; they are dispatched first.
#[derive(Debug, Clone, Copy, PartialEq, Eq, Structural)]
pub enum Step {
    /// Hand out a pending capture event, if there is one.
    Deliver,
    /// Wait until the connection is readable.
    Wait,
    /// Read from the connection.
    Read,
    /// Prepare to read again at once.
    PrepareToRead,
    /// Dispatch what stands in the way of preparing to read again at once.
    ClearToRead,
    /// Dispatch what was read.
    Dispatch,
    /// Send what is queued to be sent.
    Flush,
    /// Prepare to read after the next wait.
    PrepareToWait,
    /// Dispatch what stands in the way of preparing to read after the next wait.
    ClearToWait,
    /// Give up: the connection is lost.
    End,
}

/// How a step went. A violation of the protocol is no outcome: it ends the program.
#[derive(Debug, Clone, Copy, PartialEq, Eq, Structural)]
pub enum Outcome {
    Done,
    /// There was nothing to hand out, or the preparation was refused.
    Nothing,
    /// The operation would have had to wait.
    WouldBlock,
    Failed,
}

impl Step {
    /// The outcomes that a step can have.
    pub open spec fn allows(self, outcome: Outcome) -> bool {
        match self {
            Step::Deliver | Step::PrepareToRead | Step::PrepareToWait => outcome is Done
                || outcome is Nothing,
            Step::Wait | Step::ClearToRead | Step::ClearToWait | Step::Dispatch => outcome is Done
                || outcome is Failed,
            Step::Read | Step::Flush => outcome is Done || outcome is WouldBlock
                || outcome is Failed,
            Step::End => false,
        }
    }

    /// The step that follows. The connection is read until there is nothing more to read;
    /// what was read is dispatched, what is queued is sent, and the next wait begins once
    /// no capture event came of it. The connection is lost where waiting fails, where
    /// clearing the way for a preparation fails, and where sending fails, unless it would
    /// only have had to wait; that reading or dispatching fails does not end it by itself.
    pub open spec fn then_comes(self, outcome: Outcome) -> Step {
        match (self, outcome) {
            (Step::Deliver, Outcome::Done) => Step::Deliver,
            (Step::Deliver, _) => Step::Wait,
            (Step::Wait, Outcome::Done) => Step::Read,
            (Step::Read, Outcome::Done) => Step::PrepareToRead,
            (Step::Read, _) => Step::Dispatch,
            (Step::PrepareToRead, Outcome::Done) => Step::Read,
            (Step::PrepareToRead, _) => Step::ClearToRead,
            (Step::ClearToRead, Outcome::Done) => Step::PrepareToRead,
            (Step::Dispatch, _) => Step::Flush,
            (Step::Flush, Outcome::Done) => Step::PrepareToWait,
            (Step::Flush, Outcome::WouldBlock) => Step::PrepareToWait,
            (Step::PrepareToWait, Outcome::Done) => Step::Deliver,
            (Step::PrepareToWait, _) => Step::ClearToWait,
            (Step::ClearToWait, Outcome::Done) => Step::PrepareToWait,
            _ => Step::End,
        }
    }

    /// `then_comes`, computed.
    pub fn next(self, outcome: Outcome) -> (next: Step)
        requires
            self.allows(outcome),
        ensures
            next == self.then_comes(outcome),
    {
        match self {
            Step::Deliver => match outcome {
                Outcome::Done => Step::Deliver,
                _ => Step::Wait,
            },
            Step::Wait => match outcome {
                Outcome::Done => Step::Read,
                _ => Step::End,
            },
            Step::Read => match outcome {
                Outcome::Done => Step::PrepareToRead,
                _ => Step::Dispatch,
            },
            Step::PrepareToRead => match outcome {
                Outcome::Done => Step::Read,
                _ => Step::ClearToRead,
            },
            Step::ClearToRead => match outcome {
                Outcome::Done => Step::PrepareToRead,
                _ => Step::End,
            },
            Step::Dispatch => Step::Flush,
            Step::Flush => match outcome {
                Outcome::Done | Outcome::WouldBlock => Step::PrepareToWait,
                _ => Step::End,
            },
            Step::PrepareToWait => match outcome {
                Outcome::Done => Step::Deliver,
                _ => Step::ClearToWait,
            },
            Step::ClearToWait => match outcome {
                Outcome::Done => Step::PrepareToWait,
                _ => Step::End,
            },
            Step::End => Step::End,
        }
    }

    /// Whether the guard is held when the step begins.
    pub open spec fn holds_guard(self) -> bool {
        self is Deliver || self is Wait || self is Read
    }

    /// Whether the guard is held after a step, if `held` tells so for before it.
    pub open spec fn guard_after(self, outcome: Outcome, held: bool) -> bool {
        match self {
            Step::Read => false,
            Step::PrepareToRead | Step::PrepareToWait => held || outcome is Done,
            _ => held,
        }
    }
}

/// The guard is there whenever the connection is read, and never obtained twice: it is held
/// at the start of a step exactly where `holds_guard` says so.
pub proof fn guard_is_held_to_read(step: Step, outcome: Outcome)
    requires
        step.allows(outcome),
        step.then_comes(outcome) != Step::End,
    ensures
        step.guard_after(outcome, step.holds_guard()) == step.then_comes(outcome).holds_guard(),
        step is PrepareToRead || step is PrepareToWait ==> !step.holds_guard(),
{
}

/// The connection is given up only where waiting, clearing the way for a preparation, or
/// sending failed.
pub proof fn connection_ends_on_failure_only(step: Step, outcome: Outcome)
    requires
        step.allows(outcome),
    ensures
        step.then_comes(outcome) is End <==> outcome is Failed && (step is Wait
            || step is ClearToRead || step is ClearToWait || step is Flush),
{
}

/// After a wait the connection is read until there is nothing more to read; what was read is
/// dispatched and what is queued is sent before the next wait, whatever reading and dispatching
/// came to.
pub proof fn a_round_reads_dispatches_and_sends(read: Outcome, dispatched: Outcome, sent: Outcome)
    requires
        read is WouldBlock || read is Failed,
        dispatched is Done || dispatched is Failed,
        sent is Done || sent is WouldBlock,
    ensures
        Step::Deliver.then_comes(Outcome::Nothing) == Step::Wait,
        Step::Deliver.then_comes(Outcome::Done) == Step::Deliver,
        ({
            let reading = Step::Wait.then_comes(Outcome::Done);
            let again = reading.then_comes(Outcome::Done);
            let dispatching = reading.then_comes(read);
            let sending = dispatching.then_comes(dispatched);
            let preparing = sending.then_comes(sent);
            &&& reading == Step::Read
            &&& again == Step::PrepareToRead
            &&& again.then_comes(Outcome::Done) == Step::Read
            &&& again.then_comes(Outcome::Nothing).then_comes(Outcome::Done) == again
            &&& dispatching == Step::Dispatch
            &&& sending == Step::Flush
            &&& preparing == Step::PrepareToWait
            &&& preparing.then_comes(Outcome::Done) == Step::Deliver
            &&& preparing.then_comes(Outcome::Nothing).then_comes(Outcome::Done) == preparing
            &&& again.then_comes(Outcome::Nothing) == Step::ClearToRead
            &&& preparing.then_comes(Outcome::Nothing) == Step::ClearToWait
        }),
{
}

/// Whatever a step comes to is answered: waiting, reading, dispatching and sending can fail,
/// reading and sending can have to wait, and a preparation or a delivery can come to nothing.
pub proof fn every_outcome_is_answered(step: Step)
    requires
        step != Step::End,
    ensures
        step.allows(Outcome::Done),
        step.allows(Outcome::Failed) <==> !(step is Deliver || step is PrepareToRead
            || step is PrepareToWait),
        step.allows(Outcome::Nothing) <==> step is Deliver || step is PrepareToRead
            || step is PrepareToWait,
        step.allows(Outcome::WouldBlock) <==> step is Read || step is Flush,
{
}

} // verus!
