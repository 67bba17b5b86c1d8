use crate::message::Message;
use vstd::prelude::*;

verus! {

/// An intent produced by the automaton and consumed exactly once by the
/// external driver: either transmit a message to a peer, or hand a
/// message identifier to the application for delivery.
#[derive(PartialEq, Eq, Debug)]
pub enum Action<N, M> {
    Send { target: N, message: Message<N, M> },
    Deliver { message_id: M },
}

/// A FIFO buffer of actions: no deduplication, no reordering, so the
/// order of drained actions is exactly the order effects were decided.
pub struct ActionQueue<N, M> {
    items: Vec<Action<N, M>>,
}

impl<N, M> View for ActionQueue<N, M> {
    type V = Seq<Action<N, M>>;

    closed spec fn view(&self) -> Seq<Action<N, M>> {
        self.items@
    }
}

impl<N, M> ActionQueue<N, M> {
    /// An empty queue.
    pub fn new() -> (q: Self)
        ensures
            q@ == Seq::<Action<N, M>>::empty(),
    {
        ActionQueue { items: Vec::new() }
    }

    /// Appends a `Send` intent.
    pub fn send(&mut self, target: N, message: Message<N, M>)
        ensures
            final(self)@ == old(self)@.push((Action::Send { target, message })),
    {
        self.items.push(Action::Send { target, message });
    }

    /// Appends a `Deliver` intent.
    pub fn deliver(&mut self, message_id: M)
        ensures
            final(self)@ == old(self)@.push((Action::Deliver { message_id })),
    {
        self.items.push(Action::Deliver { message_id });
    }

    /// Removes and returns the oldest action, or `None` if the queue is
    /// empty.
    pub fn pop(&mut self) -> (r: Option<Action<N, M>>)
        ensures
            old(self)@.len() == 0 ==> r is None && final(self)@ == old(self)@,
            old(self)@.len() > 0 ==> r == Some(old(self)@[0]) && final(self)@ == old(self)@.drop_first(),
    {
        if self.items.len() == 0 {
            None
        } else {
            let a = self.items.remove(0);
            proof {
                assert(self.items@ =~= old(self)@.drop_first());
            }
            Some(a)
        }
    }
}

} // verus!
