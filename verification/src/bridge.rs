//! The event bridge: an unbounded first-in, first-out queue of key events
//! between the keyboard and the player, with an end that can be closed.

use vstd::prelude::*;
use std::collections::VecDeque;
use crate::sound::KeyEvent;

verus! {

/// What one attempt to receive gives.
#[derive(Clone, Copy, Debug, PartialEq, Eq)]
pub enum Received {
    /// The oldest event that was waiting.
    Event(KeyEvent),
    /// Nothing is waiting yet; more may come.
    Empty,
    /// Nothing is waiting and nothing will come: the end of the stream.
    Closed,
}

/// The mathematical content of a bridge: the events that wait, oldest first,
/// and whether the sending end was closed.
pub struct BridgeState {
    pub pending: Seq<KeyEvent>,
    pub closed: bool,
}

impl BridgeState {
    /// An open bridge on which nothing waits.
    pub open spec fn empty() -> BridgeState {
        BridgeState { pending: Seq::empty(), closed: false }
    }

    /// The bridge after a send: an open bridge queues the event behind those
    /// that wait, a closed one takes nothing.
    pub open spec fn send(self, event: KeyEvent) -> BridgeState {
        if self.closed {
            self
        } else {
            BridgeState { pending: self.pending.push(event), ..self }
        }
    }

    /// The bridge after `events` were sent one after the other.
    pub open spec fn send_all(self, events: Seq<KeyEvent>) -> BridgeState
        decreases events.len(),
    {
        if events.len() == 0 {
            self
        } else {
            self.send_all(events.drop_last()).send(events.last())
        }
    }

    /// The bridge after its sending end was closed. What waits stays.
    pub open spec fn close(self) -> BridgeState {
        BridgeState { closed: true, ..self }
    }

    /// What a receive gives: the oldest waiting event; with nothing waiting,
    /// the end of the stream on a closed bridge and `Empty` on an open one.
    pub open spec fn received(self) -> Received {
        if self.pending.len() > 0 {
            Received::Event(self.pending[0])
        } else if self.closed {
            Received::Closed
        } else {
            Received::Empty
        }
    }

    /// The bridge after a receive: the oldest waiting event is gone.
    pub open spec fn receive(self) -> BridgeState {
        if self.pending.len() > 0 {
            BridgeState { pending: self.pending.drop_first(), ..self }
        } else {
            self
        }
    }

    /// The bridge after `n` receives.
    pub open spec fn receive_n(self, n: nat) -> BridgeState
        decreases n,
    {
        if n == 0 {
            self
        } else {
            self.receive_n((n - 1) as nat).receive()
        }
    }
}

/// The queue that carries key events from the keyboard to the player.
pub struct EventBridge {
    queue: VecDeque<KeyEvent>,
    closed: bool,
}

impl View for EventBridge {
    type V = BridgeState;

    closed spec fn view(&self) -> BridgeState {
        BridgeState { pending: self.queue@, closed: self.closed }
    }
}

impl EventBridge {
    /// An open bridge on which nothing waits.
    pub fn new() -> (bridge: Self)
        ensures
            bridge@ == BridgeState::empty(),
    {
        EventBridge { queue: VecDeque::new(), closed: false }
    }

    /// Queues an event behind those that wait. Never waits for the receiver
    /// and never drops an event of an open bridge; on a closed bridge the
    /// event is handed back.
    pub fn send(&mut self, event: KeyEvent) -> (result: Result<(), KeyEvent>)
        ensures
            final(self)@ == old(self)@.send(event),
            result == if old(self)@.closed {
                Err::<(), KeyEvent>(event)
            } else {
                Ok::<(), KeyEvent>(())
            },
    {
        if self.closed {
            Err(event)
        } else {
            self.queue.push_back(event);
            Ok(())
        }
    }

    /// Closes the sending end. Events that wait can still be received.
    pub fn close(&mut self)
        ensures
            final(self)@ == old(self)@.close(),
    {
        self.closed = true;
    }

    /// Takes the oldest waiting event, without waiting for one to come.
    pub fn receive(&mut self) -> (received: Received)
        ensures
            received == old(self)@.received(),
            final(self)@ == old(self)@.receive(),
    {
        match self.queue.pop_front() {
            Some(event) => {
                assert(self.queue@ =~= old(self).queue@.drop_first());
                Received::Event(event)
            },
            None => {
                if self.closed {
                    Received::Closed
                } else {
                    Received::Empty
                }
            },
        }
    }

    /// Whether the sending end was closed.
    pub fn is_closed(&self) -> (closed: bool)
        ensures
            closed == self@.closed,
    {
        self.closed
    }

    /// How many events wait.
    pub fn pending(&self) -> (count: usize)
        ensures
            count == self@.pending.len(),
    {
        self.queue.len()
    }
}

/// Sending to an open bridge appends the events, in order, to those that
/// wait, and leaves the bridge open.
pub proof fn lemma_send_all_appends(bridge: BridgeState, events: Seq<KeyEvent>)
    requires
        !bridge.closed,
    ensures
        bridge.send_all(events) == (BridgeState { pending: bridge.pending + events, closed: false }),
    decreases events.len(),
{
    if events.len() == 0 {
        assert(bridge.pending + events =~= bridge.pending);
    } else {
        lemma_send_all_appends(bridge, events.drop_last());
        assert((bridge.pending + events.drop_last()).push(events.last()) =~= bridge.pending + events);
    }
}

/// Receiving `n` times takes the `n` oldest waiting events, or all of them
/// where fewer wait.
pub proof fn lemma_receive_n_drops_oldest(bridge: BridgeState, n: nat)
    ensures
        bridge.receive_n(n).closed == bridge.closed,
        n <= bridge.pending.len() ==> bridge.receive_n(n).pending == bridge.pending.subrange(
            n as int,
            bridge.pending.len() as int,
        ),
        n >= bridge.pending.len() ==> bridge.receive_n(n).pending == Seq::<KeyEvent>::empty(),
    decreases n,
{
    if n == 0 {
        assert(bridge.pending.subrange(0, bridge.pending.len() as int) =~= bridge.pending);
    } else {
        let before = bridge.receive_n((n - 1) as nat);
        lemma_receive_n_drops_oldest(bridge, (n - 1) as nat);
        if n <= bridge.pending.len() {
            assert(before.pending.drop_first() =~= bridge.pending.subrange(
                n as int,
                bridge.pending.len() as int,
            ));
        }
    }
}

/// Events sent through a fresh bridge that is then closed are received one
/// by one in the order in which they were sent, and every receive after the
/// last of them gives the end of the stream.
pub proof fn lemma_sent_events_are_received_in_order(events: Seq<KeyEvent>, i: nat)
    ensures
        i < events.len() ==> BridgeState::empty().send_all(events).close().receive_n(i).received()
            == Received::Event(events[i as int]),
        i >= events.len() ==> BridgeState::empty().send_all(events).close().receive_n(i).received()
            == Received::Closed,
{
    let sent = BridgeState::empty().send_all(events);
    lemma_send_all_appends(BridgeState::empty(), events);
    assert(Seq::<KeyEvent>::empty() + events =~= events);
    lemma_receive_n_drops_oldest(sent.close(), i);
}

} // verus!
