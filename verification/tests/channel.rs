use diff_pipeline::channel::{RecvError, ResultChannel, SendError};

#[test]
fn new_channel_is_open_and_empty() {
    let channel: ResultChannel<u8> = ResultChannel::new(32);
    assert_eq!(channel.capacity(), 32);
    assert_eq!(channel.len(), 0);
    assert!(channel.is_empty());
    assert!(!channel.is_full());
    assert!(!channel.is_closed());
}

#[test]
fn channel_hands_items_out_in_the_order_taken() {
    let mut channel = ResultChannel::new(3);
    assert_eq!(channel.try_send('a'), Ok(()));
    assert_eq!(channel.try_send('b'), Ok(()));
    assert_eq!(channel.try_recv(), Ok('a'));
    assert_eq!(channel.try_send('c'), Ok(()));
    assert_eq!(channel.try_recv(), Ok('b'));
    assert_eq!(channel.try_recv(), Ok('c'));
    assert_eq!(channel.try_recv(), Err(RecvError::Empty));
}

#[test]
fn full_channel_gives_the_item_back() {
    let mut channel = ResultChannel::new(2);
    assert_eq!(channel.try_send(1), Ok(()));
    assert_eq!(channel.try_send(2), Ok(()));
    assert!(channel.is_full());
    assert_eq!(channel.try_send(3), Err(SendError::Full(3)));
    assert_eq!(channel.len(), 2);
    assert_eq!(channel.try_recv(), Ok(1));
    assert_eq!(channel.try_send(3), Ok(()));
    assert_eq!(channel.try_recv(), Ok(2));
    assert_eq!(channel.try_recv(), Ok(3));
}

#[test]
fn channel_of_one_slot_holds_one_item() {
    let mut channel = ResultChannel::new(1);
    assert_eq!(channel.try_send("x"), Ok(()));
    assert_eq!(channel.try_send("y"), Err(SendError::Full("y")));
}

#[test]
fn channel_holds_thirty_two_results_and_no_more() {
    let mut channel = ResultChannel::new(32);
    for item in 0..32 {
        assert_eq!(channel.try_send(item), Ok(()));
    }
    assert_eq!(channel.try_send(32), Err(SendError::Full(32)));
    assert_eq!(channel.len(), 32);
}

#[test]
fn closed_channel_takes_nothing_but_drains() {
    let mut channel = ResultChannel::new(4);
    assert_eq!(channel.try_send(1), Ok(()));
    assert_eq!(channel.try_send(2), Ok(()));
    channel.close();
    assert!(channel.is_closed());
    assert_eq!(channel.try_send(3), Err(SendError::Closed(3)));
    assert_eq!(channel.try_recv(), Ok(1));
    assert_eq!(channel.try_recv(), Ok(2));
    assert_eq!(channel.try_recv(), Err(RecvError::Closed));
    assert_eq!(channel.try_recv(), Err(RecvError::Closed));
}

#[test]
fn closed_full_channel_reports_closed() {
    let mut channel = ResultChannel::new(1);
    assert_eq!(channel.try_send(1), Ok(()));
    channel.close();
    assert_eq!(channel.try_send(2), Err(SendError::Closed(2)));
}

#[test]
fn empty_open_channel_says_more_may_come() {
    let mut channel: ResultChannel<u8> = ResultChannel::new(1);
    assert_eq!(channel.try_recv(), Err(RecvError::Empty));
    channel.close();
    channel.close();
    assert_eq!(channel.try_recv(), Err(RecvError::Closed));
}
