use diff_pipeline::channel::ResultChannel;
use diff_pipeline::coordinator::{join, Coordinator, Half};
use diff_pipeline::fault::{
    escalated, exit_code, task_outcome, Fault, EXIT_ABORTED, EXIT_CLEAN, EXIT_STARTUP,
};
use diff_pipeline::sink::{Sink, SinkStep};

#[test]
fn only_a_record_decode_fault_is_not_fatal() {
    assert!(!Fault::RecordDecode.is_fatal());
    assert!(Fault::Startup.is_fatal());
    assert!(Fault::Comparison.is_fatal());
    assert!(Fault::Delivery.is_fatal());
    assert!(Fault::Worker.is_fatal());
}

#[test]
fn record_level_faults_do_not_escalate() {
    assert_eq!(escalated(Ok(())), None);
    assert_eq!(escalated(Err(Fault::RecordDecode)), None);
    assert_eq!(escalated(Err(Fault::Comparison)), Some(Fault::Comparison));
    assert_eq!(escalated(Err(Fault::Delivery)), Some(Fault::Delivery));
    assert_eq!(escalated(Err(Fault::Worker)), Some(Fault::Worker));
    assert_eq!(escalated(Err(Fault::Startup)), Some(Fault::Startup));
}

#[test]
fn task_without_outcome_has_a_worker_fault() {
    assert_eq!(task_outcome(None), Err(Fault::Worker));
    assert_eq!(task_outcome(Some(Ok(()))), Ok(()));
    assert_eq!(task_outcome(Some(Err(Fault::Delivery))), Err(Fault::Delivery));
    assert_eq!(task_outcome(Some(Err(Fault::RecordDecode))), Err(Fault::RecordDecode));
}

#[test]
fn exit_code_is_zero_exactly_for_a_clean_run() {
    assert_eq!(EXIT_CLEAN, 0);
    assert_eq!(EXIT_STARTUP, 1);
    assert_eq!(EXIT_ABORTED, 101);
    assert_eq!(exit_code(Ok(())), 0);
    assert_eq!(exit_code(Err(Fault::RecordDecode)), 0);
    assert_eq!(exit_code(Err(Fault::Startup)), 1);
    assert_eq!(exit_code(Err(Fault::Comparison)), 101);
    assert_eq!(exit_code(Err(Fault::Delivery)), 101);
    assert_eq!(exit_code(Err(Fault::Worker)), 101);
}

#[test]
fn run_is_clean_only_if_both_halves_are() {
    assert_eq!(join(Ok(()), Ok(())), Ok(()));
    assert_eq!(join(Err(Fault::Comparison), Ok(())), Err(Fault::Comparison));
    assert_eq!(join(Ok(()), Err(Fault::Delivery)), Err(Fault::Delivery));
    assert_eq!(join(Err(Fault::Worker), Err(Fault::Delivery)), Err(Fault::Worker));
    assert_eq!(join(Err(Fault::RecordDecode), Ok(())), Ok(()));
}

#[test]
fn coordinator_waits_for_both_halves() {
    let mut coordinator = Coordinator::new();
    assert_eq!(coordinator.verdict(), None);
    coordinator.report(Half::Sink, Ok(()));
    assert_eq!(coordinator.verdict(), None);
    coordinator.report(Half::Dispatcher, Ok(()));
    assert_eq!(coordinator.verdict(), Some(Ok(())));
}

#[test]
fn coordinator_fails_as_soon_as_one_half_fails() {
    let mut coordinator = Coordinator::new();
    coordinator.report(Half::Sink, Err(Fault::Delivery));
    assert_eq!(coordinator.verdict(), Some(Err(Fault::Delivery)));
    coordinator.report(Half::Dispatcher, Err(Fault::Comparison));
    assert_eq!(coordinator.verdict(), Some(Err(Fault::Delivery)));
}

#[test]
fn coordinator_does_not_end_on_one_clean_half() {
    let mut coordinator = Coordinator::new();
    coordinator.report(Half::Dispatcher, Ok(()));
    coordinator.report(Half::Dispatcher, Ok(()));
    assert_eq!(coordinator.verdict(), None);
}

#[test]
fn sink_writes_in_order_and_finishes_when_closed_and_empty() {
    let mut channel = ResultChannel::new(4);
    let mut sink = Sink::new();
    assert_eq!(sink.stopped(), None);
    assert_eq!(sink.poll(&mut channel), SinkStep::Suspend);
    assert_eq!(channel.try_send(10), Ok(()));
    assert_eq!(channel.try_send(20), Ok(()));
    channel.close();
    assert_eq!(sink.poll(&mut channel), SinkStep::Write(10));
    sink.write_finished(true);
    assert_eq!(sink.poll(&mut channel), SinkStep::Write(20));
    sink.write_finished(true);
    assert_eq!(sink.poll(&mut channel), SinkStep::Finish(Ok(())));
    assert_eq!(sink.stopped(), Some(Ok(())));
    assert_eq!(sink.poll(&mut channel), SinkStep::Finish(Ok(())));
}

#[test]
fn sink_stops_at_the_first_write_that_fails() {
    let mut channel = ResultChannel::new(4);
    let mut sink = Sink::new();
    assert_eq!(channel.try_send(10), Ok(()));
    assert_eq!(channel.try_send(20), Ok(()));
    assert_eq!(sink.poll(&mut channel), SinkStep::Write(10));
    sink.write_finished(false);
    assert_eq!(sink.stopped(), Some(Err(Fault::Delivery)));
    assert_eq!(sink.poll(&mut channel), SinkStep::Finish(Err(Fault::Delivery)));
    assert_eq!(channel.len(), 1);
    sink.write_finished(true);
    assert_eq!(sink.stopped(), Some(Err(Fault::Delivery)));
}
