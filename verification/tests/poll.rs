use styx::poll::{Outcome, Step};

#[test]
fn an_event_is_waited_for_read_and_delivered() {
    let mut step = Step::Deliver;
    let outcomes = [
        (Outcome::Nothing, Step::Wait),
        (Outcome::Done, Step::Read),
        (Outcome::Done, Step::PrepareToRead),
        (Outcome::Nothing, Step::ClearToRead),
        (Outcome::Done, Step::PrepareToRead),
        (Outcome::Done, Step::Read),
        (Outcome::WouldBlock, Step::Dispatch),
        (Outcome::Done, Step::Flush),
        (Outcome::WouldBlock, Step::PrepareToWait),
        (Outcome::Nothing, Step::ClearToWait),
        (Outcome::Done, Step::PrepareToWait),
        (Outcome::Done, Step::Deliver),
        (Outcome::Done, Step::Deliver),
        (Outcome::Nothing, Step::Wait),
    ];
    for (outcome, expected) in outcomes {
        step = step.next(outcome);
        assert_eq!(step, expected);
    }
}

#[test]
fn failures_end_the_connection() {
    assert_eq!(Step::Wait.next(Outcome::Failed), Step::End);
    assert_eq!(Step::ClearToRead.next(Outcome::Failed), Step::End);
    assert_eq!(Step::ClearToWait.next(Outcome::Failed), Step::End);
    assert_eq!(Step::Flush.next(Outcome::Failed), Step::End);
}

#[test]
fn failed_reads_and_dispatches_go_on() {
    assert_eq!(Step::Read.next(Outcome::Failed), Step::Dispatch);
    assert_eq!(Step::Dispatch.next(Outcome::Failed), Step::Flush);
    assert_eq!(Step::Flush.next(Outcome::Done), Step::PrepareToWait);
}
