use crate::ident::Identifier;
use vstd::prelude::*;

verus! {

/// A broadcast payload announcement: `round` is the hop count from the
/// message's origin.
#[derive(PartialEq, Eq, Debug)]
pub struct GossipMessage<N, M> {
    pub sender: N,
    pub message_id: M,
    pub round: u64,
}

/// "I have this message, reachable via me at this round", advertised
/// without forwarding the payload.
#[derive(PartialEq, Eq, Debug)]
pub struct IhaveMessage<N, M> {
    pub sender: N,
    pub message_id: M,
    pub round: u64,
}

/// A request to promote the sender to an eager peer;
/// `message_id = Some(..)` also requests retransmission of that message.
#[derive(PartialEq, Eq, Debug)]
pub struct GraftMessage<N, M> {
    pub sender: N,
    pub message_id: Option<M>,
    pub round: u64,
}

/// A request to demote the sender to a lazy peer.
#[derive(PartialEq, Eq, Debug)]
pub struct PruneMessage<N> {
    pub sender: N,
}

/// The four wire messages of the protocol, all carrying their sender.
#[derive(PartialEq, Eq, Debug)]
pub enum Message<N, M> {
    Gossip(GossipMessage<N, M>),
    Ihave(IhaveMessage<N, M>),
    Graft(GraftMessage<N, M>),
    Prune(PruneMessage<N>),
}

impl<N: Identifier, M: Identifier> GossipMessage<N, M> {
    /// Copies the message.
    pub fn dup(&self) -> (r: Self)
        ensures
            r == *self,
    {
        GossipMessage {
            sender: self.sender.dup(),
            message_id: self.message_id.dup(),
            round: self.round,
        }
    }
}

impl<N: Identifier, M: Identifier> IhaveMessage<N, M> {
    /// Copies the message.
    pub fn dup(&self) -> (r: Self)
        ensures
            r == *self,
    {
        IhaveMessage {
            sender: self.sender.dup(),
            message_id: self.message_id.dup(),
            round: self.round,
        }
    }
}

impl<N: Identifier> PruneMessage<N> {
    /// A prune request from `sender`.
    pub fn new(sender: &N) -> (r: Self)
        ensures
            r == (PruneMessage { sender: *sender }),
    {
        PruneMessage { sender: sender.dup() }
    }
}

impl<N, M> Message<N, M> {
    /// The peer that sent this message.
    pub open spec fn sender_spec(self) -> N {
        match self {
            Message::Gossip(m) => m.sender,
            Message::Ihave(m) => m.sender,
            Message::Graft(m) => m.sender,
            Message::Prune(m) => m.sender,
        }
    }

    /// Reads the sender out of any message variant.
    pub fn sender(&self) -> (r: &N)
        ensures
            *r == self.sender_spec(),
    {
        match self {
            Message::Gossip(m) => &m.sender,
            Message::Ihave(m) => &m.sender,
            Message::Graft(m) => &m.sender,
            Message::Prune(m) => &m.sender,
        }
    }
}

} // verus!
