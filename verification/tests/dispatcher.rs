use diff_pipeline::dispatcher::{Dispatcher, Step};
use diff_pipeline::fault::Fault;

#[test]
fn new_dispatcher_pulls() {
    let dispatcher = Dispatcher::new(8);
    assert_eq!(dispatcher.budget(), 8);
    assert_eq!(dispatcher.active(), 0);
    assert!(!dispatcher.input_done());
    assert_eq!(dispatcher.failure(), None);
    assert_eq!(dispatcher.next_step(), Step::Pull);
}

#[test]
fn dispatcher_waits_when_every_slot_is_taken() {
    let mut dispatcher = Dispatcher::new(2);
    assert!(dispatcher.start_work());
    assert_eq!(dispatcher.next_step(), Step::Pull);
    assert!(dispatcher.start_work());
    assert_eq!(dispatcher.active(), 2);
    assert_eq!(dispatcher.next_step(), Step::Wait);
    assert!(!dispatcher.start_work());
    assert_eq!(dispatcher.active(), 2);
    assert!(dispatcher.finish_work(Ok(())));
    assert_eq!(dispatcher.active(), 1);
    assert_eq!(dispatcher.next_step(), Step::Pull);
}

#[test]
fn dispatcher_closes_cleanly_after_input_and_work_have_ended() {
    let mut dispatcher = Dispatcher::new(2);
    assert!(dispatcher.start_work());
    dispatcher.end_of_input();
    assert!(dispatcher.input_done());
    assert_eq!(dispatcher.next_step(), Step::Wait);
    assert!(!dispatcher.start_work());
    assert!(dispatcher.finish_work(Ok(())));
    assert_eq!(dispatcher.next_step(), Step::Close(Ok(())));
}

#[test]
fn dispatcher_closes_at_once_on_empty_input() {
    let mut dispatcher = Dispatcher::new(1);
    dispatcher.end_of_input();
    assert_eq!(dispatcher.next_step(), Step::Close(Ok(())));
}

#[test]
fn skipped_record_frees_its_slot_and_nothing_else() {
    let mut dispatcher = Dispatcher::new(1);
    assert!(dispatcher.start_work());
    assert!(dispatcher.finish_work(Err(Fault::RecordDecode)));
    assert_eq!(dispatcher.failure(), None);
    assert_eq!(dispatcher.active(), 0);
    assert_eq!(dispatcher.next_step(), Step::Pull);
}

#[test]
fn fatal_fault_closes_the_dispatcher_at_once() {
    let mut dispatcher = Dispatcher::new(4);
    assert!(dispatcher.start_work());
    assert!(dispatcher.start_work());
    assert!(dispatcher.finish_work(Err(Fault::Comparison)));
    assert_eq!(dispatcher.failure(), Some(Fault::Comparison));
    assert_eq!(dispatcher.active(), 1);
    assert_eq!(dispatcher.next_step(), Step::Close(Err(Fault::Comparison)));
    assert!(!dispatcher.start_work());
}

#[test]
fn first_fatal_fault_is_the_one_reported() {
    let mut dispatcher = Dispatcher::new(4);
    assert!(dispatcher.start_work());
    assert!(dispatcher.start_work());
    assert!(dispatcher.start_work());
    assert!(dispatcher.finish_work(Err(Fault::Delivery)));
    assert!(dispatcher.finish_work(Err(Fault::Worker)));
    assert!(dispatcher.finish_work(Ok(())));
    assert_eq!(dispatcher.failure(), Some(Fault::Delivery));
    assert_eq!(dispatcher.next_step(), Step::Close(Err(Fault::Delivery)));
}

#[test]
fn finish_without_active_work_changes_nothing() {
    let mut dispatcher = Dispatcher::new(2);
    assert!(!dispatcher.finish_work(Err(Fault::Worker)));
    assert_eq!(dispatcher.failure(), None);
    assert_eq!(dispatcher.active(), 0);
    assert_eq!(dispatcher.next_step(), Step::Pull);
}

#[test]
fn active_work_never_exceeds_the_budget() {
    let mut dispatcher = Dispatcher::new(3);
    let mut started = 0;
    for _ in 0..10 {
        if dispatcher.start_work() {
            started += 1;
        }
        assert!(dispatcher.active() <= 3);
    }
    assert_eq!(started, 3);
}
