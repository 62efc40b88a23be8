use rgrok::parallel::Aggregator;
use rgrok::parallel::AggregatorAction;
use rgrok::parallel::ChannelEvent;
use rgrok::parallel::ProtocolError;
use rgrok::render::RenderedResult;
use rgrok::util::ItemType;

fn result(n: usize) -> RenderedResult {
    RenderedResult { kind: ItemType::Fn, line_range: (n, n + 1), text: format!("text {}", n) }
}

#[test]
fn aggregator_writes_in_the_order_of_receipt() {
    let mut aggregator = Aggregator::new();
    assert!(aggregator.receiving());
    let mut written = Vec::new();
    for n in [3, 1, 2] {
        match aggregator.step(ChannelEvent::Received(result(n))) {
            Ok(AggregatorAction::Write(found)) => written.push(found),
            other => panic!("{:?}", other),
        }
        assert!(aggregator.receiving());
    }
    assert_eq!(aggregator.step(ChannelEvent::Disconnected), Ok(AggregatorAction::Finish));
    assert!(!aggregator.receiving());
    assert_eq!(written, vec![result(3), result(1), result(2)]);
}

#[test]
fn empty_channel_does_not_end_the_search() {
    let mut aggregator = Aggregator::new();
    for _ in 0..3 {
        assert_eq!(aggregator.step(ChannelEvent::Empty), Ok(AggregatorAction::Wait));
        assert!(aggregator.receiving());
    }
    assert_eq!(
        aggregator.step(ChannelEvent::Received(result(1))),
        Ok(AggregatorAction::Write(result(1)))
    );
    assert_eq!(aggregator.step(ChannelEvent::Empty), Ok(AggregatorAction::Wait));
    assert!(aggregator.receiving());
    assert_eq!(aggregator.step(ChannelEvent::Disconnected), Ok(AggregatorAction::Finish));
    assert_eq!(aggregator.step(ChannelEvent::Empty), Err(ProtocolError::EmptyAfterDisconnect));
    assert!(!aggregator.receiving());
}

#[test]
fn aggregator_polls_a_channel_with_live_senders() {
    let (tx, rx) = crossbeam::channel::unbounded::<RenderedResult>();
    let mut aggregator = Aggregator::new();
    let mut written = Vec::new();
    let mut sends = vec![Some(result(1)), None, Some(result(2)), None, None];
    let mut sender = Some(tx);
    while aggregator.receiving() {
        match sends.pop() {
            Some(Some(found)) => sender.as_ref().unwrap().send(found).unwrap(),
            Some(None) => {}
            None => sender = None,
        }
        let event = match rx.try_recv() {
            Ok(found) => ChannelEvent::Received(found),
            Err(crossbeam::channel::TryRecvError::Empty) => ChannelEvent::Empty,
            Err(crossbeam::channel::TryRecvError::Disconnected) => ChannelEvent::Disconnected,
        };
        match aggregator.step(event) {
            Ok(AggregatorAction::Write(found)) => written.push(found),
            Ok(AggregatorAction::Wait) | Ok(AggregatorAction::Finish) => {}
            Err(error) => panic!("{:?}", error),
        }
    }
    assert_eq!(written, vec![result(2), result(1)]);
}

#[test]
fn aggregator_finishes_without_results() {
    let mut aggregator = Aggregator::new();
    assert_eq!(aggregator.step(ChannelEvent::Disconnected), Ok(AggregatorAction::Finish));
    assert!(!aggregator.receiving());
}

#[test]
fn result_after_the_end_is_an_error() {
    let mut aggregator = Aggregator::new();
    assert_eq!(aggregator.step(ChannelEvent::Disconnected), Ok(AggregatorAction::Finish));
    assert_eq!(
        aggregator.step(ChannelEvent::Received(result(1))),
        Err(ProtocolError::ReceivedAfterDisconnect)
    );
    assert!(!aggregator.receiving());
}

#[test]
fn second_end_is_an_error() {
    let mut aggregator = Aggregator::new();
    assert_eq!(aggregator.step(ChannelEvent::Disconnected), Ok(AggregatorAction::Finish));
    assert_eq!(aggregator.step(ChannelEvent::Disconnected), Err(ProtocolError::DisconnectedTwice));
    assert_eq!(aggregator.step(ChannelEvent::Disconnected), Err(ProtocolError::DisconnectedTwice));
}

#[test]
fn aggregator_over_a_real_channel() {
    let (tx, rx) = crossbeam::channel::unbounded::<RenderedResult>();
    for n in 0..50 {
        tx.send(result(n)).unwrap();
    }
    drop(tx);
    let mut aggregator = Aggregator::new();
    let mut written = Vec::new();
    while aggregator.receiving() {
        let event = match rx.recv() {
            Ok(found) => ChannelEvent::Received(found),
            Err(_) => ChannelEvent::Disconnected,
        };
        match aggregator.step(event) {
            Ok(AggregatorAction::Write(found)) => written.push(found),
            Ok(AggregatorAction::Wait) | Ok(AggregatorAction::Finish) => {}
            Err(error) => panic!("{:?}", error),
        }
    }
    assert_eq!(written.len(), 50);
    for (n, found) in written.iter().enumerate() {
        assert_eq!(*found, result(n));
    }
}
