//! The consumer of the parallel search. Workers send rendered results over a
//! channel; the aggregator takes what the channel hands out, one event at a
//! time, and says what to do with it. A result is written when it is
//! received, so the results are written in the order of their receipt. The
//! search is over when the channel reports that every sender is gone, which
//! it does only once it holds no result any more. A channel that is empty for
//! the moment is another thing: it never ends the search.

use crate::render::RenderedResult;
use vstd::prelude::*;

verus! {

/// What a receive on the channel of results comes back with.
#[derive(Debug, PartialEq, Eq)]
pub enum ChannelEvent {
    /// A worker's result.
    Received(RenderedResult),
    /// The channel holds nothing for the moment; a sender is still there.
    Empty,
    /// The channel is empty and every sender is gone.
    Disconnected,
}

/// What the consumer does next.
#[derive(Debug, PartialEq, Eq)]
pub enum AggregatorAction {
    /// Write this result, then receive again.
    Write(RenderedResult),
    /// Nothing to write: receive again.
    Wait,
    /// Stop receiving: the search is over.
    Finish,
}

/// The channel did what a channel cannot do; the run cannot go on.
#[derive(Clone, Copy, Debug, PartialEq, Eq, Structural)]
pub enum ProtocolError {
    /// A result came after the channel had reported that every sender is gone.
    ReceivedAfterDisconnect,
    /// The channel was found waiting for senders after it had reported that
    /// every sender is gone.
    EmptyAfterDisconnect,
    /// The channel reported a second time that every sender is gone.
    DisconnectedTwice,
}

/// The state of the consumer: whether it still receives.
#[derive(Debug)]
pub struct Aggregator {
    receiving: bool,
}

/// What an event leads to: whether the consumer receives afterwards, and
/// what it does.
pub open spec fn transition(receiving: bool, event: ChannelEvent) -> (
    bool,
    Result<AggregatorAction, ProtocolError>,
) {
    match event {
        ChannelEvent::Received(result) => if receiving {
            (true, Ok(AggregatorAction::Write(result)))
        } else {
            (false, Err(ProtocolError::ReceivedAfterDisconnect))
        },
        ChannelEvent::Empty => if receiving {
            (true, Ok(AggregatorAction::Wait))
        } else {
            (false, Err(ProtocolError::EmptyAfterDisconnect))
        },
        ChannelEvent::Disconnected => if receiving {
            (false, Ok(AggregatorAction::Finish))
        } else {
            (false, Err(ProtocolError::DisconnectedTwice))
        },
    }
}

/// The results that are written while the first `count` events come in.
pub open spec fn written(events: Seq<ChannelEvent>, count: int) -> Seq<RenderedResult>
    decreases count,
{
    if count <= 0 {
        Seq::empty()
    } else {
        let before = written(events, count - 1);
        match transition(receiving_after(events, count - 1), events[count - 1]).1 {
            Ok(AggregatorAction::Write(result)) => before.push(result),
            _ => before,
        }
    }
}

/// Whether the consumer still receives after the first `count` events.
pub open spec fn receiving_after(events: Seq<ChannelEvent>, count: int) -> bool
    decreases count,
{
    if count <= 0 {
        true
    } else {
        transition(receiving_after(events, count - 1), events[count - 1]).0
    }
}

/// The results of the workers in the order in which the channel handed them
/// out, and behind them the report that every sender is gone.
pub open spec fn receipt(results: Seq<RenderedResult>) -> Seq<ChannelEvent> {
    results.map_values(|result: RenderedResult| ChannelEvent::Received(result)).push(
        ChannelEvent::Disconnected,
    )
}

/// Receipt order is output order: of the results that the channel hands out
/// before it reports that every sender is gone, each is written, none twice,
/// in the order of their receipt, and then the consumer has stopped.
pub proof fn lemma_written_in_receipt_order(results: Seq<RenderedResult>, count: int)
    requires
        0 <= count <= results.len(),
    ensures
        written(receipt(results), count) == results.take(count),
        receiving_after(receipt(results), count),
        written(receipt(results), receipt(results).len() as int) == results,
        !receiving_after(receipt(results), receipt(results).len() as int),
{
    lemma_written_prefix(results, count);
    lemma_written_prefix(results, results.len() as int);
    assert(results.take(results.len() as int) =~= results);
}

proof fn lemma_written_prefix(results: Seq<RenderedResult>, count: int)
    requires
        0 <= count <= results.len(),
    ensures
        written(receipt(results), count) == results.take(count),
        receiving_after(receipt(results), count),
    decreases count,
{
    if count > 0 {
        lemma_written_prefix(results, count - 1);
        assert(receipt(results)[count - 1] == ChannelEvent::Received(results[count - 1]));
        assert(results.take(count) =~= results.take(count - 1).push(results[count - 1]));
    } else {
        assert(results.take(0) =~= Seq::<RenderedResult>::empty());
    }
}

/// As long as the channel does not report that every sender is gone, the
/// consumer receives, however often it finds the channel empty, and it has
/// written every result that came so far.
pub proof fn lemma_receives_until_disconnected(events: Seq<ChannelEvent>, count: int)
    requires
        0 <= count <= events.len(),
        forall|i: int| 0 <= i < count ==> events[i] != ChannelEvent::Disconnected,
    ensures
        receiving_after(events, count),
        written(events, count).len() <= count,
        forall|i: int|
            0 <= i < count && events[i] == ChannelEvent::Empty ==> written(events, i + 1)
                == written(events, i),
    decreases count,
{
    if count > 0 {
        lemma_receives_until_disconnected(events, count - 1);
        assert forall|i: int| 0 <= i < count && events[i] == ChannelEvent::Empty implies written(
            events,
            i + 1,
        ) == written(events, i) by {
            lemma_receives_until_disconnected(events, i);
        }
    }
}

impl Aggregator {
    /// A consumer in front of its first receive.
    pub fn new() -> (aggregator: Aggregator)
        ensures
            aggregator.is_receiving(),
    {
        Aggregator { receiving: true }
    }

    /// Whether the consumer still receives.
    pub closed spec fn is_receiving(&self) -> bool {
        self.receiving
    }

    /// Whether the consumer still receives.
    pub fn receiving(&self) -> (receiving: bool)
        ensures
            receiving == self.is_receiving(),
    {
        self.receiving
    }

    /// Takes one event from the channel and says what to do. A result is
    /// written as it is; an empty channel is waited for; the report that
    /// every sender is gone ends the search. Whatever comes after that report
    /// is an error.
    pub fn step(&mut self, event: ChannelEvent) -> (action: Result<AggregatorAction, ProtocolError>)
        ensures
            final(self).is_receiving() == transition(old(self).is_receiving(), event).0,
            action == transition(old(self).is_receiving(), event).1,
    {
        match event {
            ChannelEvent::Received(result) => {
                if self.receiving {
                    Ok(AggregatorAction::Write(result))
                } else {
                    Err(ProtocolError::ReceivedAfterDisconnect)
                }
            },
            ChannelEvent::Empty => {
                if self.receiving {
                    Ok(AggregatorAction::Wait)
                } else {
                    Err(ProtocolError::EmptyAfterDisconnect)
                }
            },
            ChannelEvent::Disconnected => {
                if self.receiving {
                    self.receiving = false;
                    Ok(AggregatorAction::Finish)
                } else {
                    Err(ProtocolError::DisconnectedTwice)
                }
            },
        }
    }
}

} // verus!
