use crate::action::{Action, ActionQueue};
use crate::ident::Identifier;
use crate::message::{GossipMessage, GraftMessage, IhaveMessage, Message, PruneMessage};
use crate::missing::{
    entries_without_id, entries_without_sender, expired_index, lemma_expired_index_props,
    min_round_index, MissingEntry, MissingMessages,
};
use crate::setvec::{
    lemma_seq_insert_elem_props, lemma_seq_remove_elem_props, seq_insert_elem, seq_remove_elem,
    vec_set_contains, vec_set_insert, vec_set_remove,
};
use vstd::prelude::*;

verus! {

broadcast use vstd::seq_lib::group_filter_ensures;

/// Ticks between registering a missing message and its repair Graft,
/// when no matching Gossip arrives in time.
pub const REPAIR_DELAY: u64 = 1;

/// Minimum round improvement an alternate path must show before the
/// tree is re-routed through it; a tunable, not a protocol invariant.
pub const OPTIMIZATION_THRESHOLD: u64 = 3;

/// `a + b`, stopping at the largest representable value; rounds and
/// the logical clock advance with it.
pub open spec fn sat_add_spec(a: u64, b: u64) -> u64 {
    if a + b > u64::MAX {
        u64::MAX
    } else {
        (a + b) as u64
    }
}

/// A `Send` of a `Gossip` for `id` at `round`, from `self_id` to `p`.
pub open spec fn gossip_send_to<N, M>(p: N, self_id: N, id: M, round: u64) -> Action<N, M> {
    Action::Send {
        target: p,
        message: Message::Gossip(GossipMessage { sender: self_id, message_id: id, round }),
    }
}

/// A `Send` of an `Ihave` for `id` at `round`, from `self_id` to `p`.
pub open spec fn ihave_send_to<N, M>(p: N, self_id: N, id: M, round: u64) -> Action<N, M> {
    Action::Send {
        target: p,
        message: Message::Ihave(IhaveMessage { sender: self_id, message_id: id, round }),
    }
}

/// A `Send` of a `Graft` from `self_id` to `p`.
pub open spec fn graft_send_to<N, M>(p: N, self_id: N, id: Option<M>, round: u64) -> Action<N, M> {
    Action::Send {
        target: p,
        message: Message::Graft(GraftMessage { sender: self_id, message_id: id, round }),
    }
}

/// A `Send` of a `Prune` from `self_id` to `p`.
pub open spec fn prune_send_to<N, M>(p: N, self_id: N) -> Action<N, M> {
    Action::Send { target: p, message: Message::Prune(PruneMessage { sender: self_id }) }
}

/// The gossip forwards of a first-seen message: one `Send` per peer of
/// `peers` other than `excl`, in order.
pub open spec fn gossip_pushes<N, M>(peers: Seq<N>, excl: N, self_id: N, id: M, round: u64) -> Seq<
    Action<N, M>,
> {
    peers.filter(|p: N| p != excl).map_values(|p: N| gossip_send_to(p, self_id, id, round))
}

/// The `Ihave` announcements of a first-seen message: one `Send` per
/// peer of `peers` other than `excl`, in order.
pub open spec fn ihave_pushes<N, M>(peers: Seq<N>, excl: N, self_id: N, id: M, round: u64) -> Seq<
    Action<N, M>,
> {
    peers.filter(|p: N| p != excl).map_values(|p: N| ihave_send_to(p, self_id, id, round))
}

/// The mathematical state of a node: what every contract of [`Node`]
/// speaks about.  `eager` and `lazy` are the peer-role sets kept as
/// duplicate-free sequences in insertion order, `received` the record
/// of delivered message identifiers, `missing` the outstanding repair
/// entries in insertion order, and `queue` the pending actions in the
/// order they were decided.
#[verifier::ext_equal]
pub struct NodeView<N, M> {
    pub node_id: N,
    pub eager: Seq<N>,
    pub lazy: Seq<N>,
    pub missing: Seq<MissingEntry<N, M>>,
    pub received: Seq<M>,
    pub queue: Seq<Action<N, M>>,
    pub clock: u64,
}

impl<N, M> NodeView<N, M> {
    /// The state of a fresh node: empty peer sets, nothing received,
    /// no repair entries, an empty queue, clock zero.
    pub open spec fn init(node_id: N) -> Self {
        NodeView {
            node_id,
            eager: Seq::empty(),
            lazy: Seq::empty(),
            missing: Seq::empty(),
            received: Seq::empty(),
            queue: Seq::empty(),
            clock: 0,
        }
    }

    /// A peer is known iff it sits in one of the two role sets.
    pub open spec fn known(self, p: N) -> bool {
        self.eager.contains(p) || self.lazy.contains(p)
    }

    /// Well-formedness: the role sets are duplicate-free and disjoint,
    /// the node itself is in neither, and the received record is
    /// duplicate-free.
    pub open spec fn wf(self) -> bool {
        &&& self.eager.no_duplicates()
        &&& self.lazy.no_duplicates()
        &&& self.received.no_duplicates()
        &&& (forall|p: N| #[trigger] self.eager.contains(p) ==> !self.lazy.contains(p))
        &&& !self.eager.contains(self.node_id)
        &&& !self.lazy.contains(self.node_id)
    }

    /// Moves `p` to the eager set: inserted there, removed from lazy.
    pub open spec fn promote(self, p: N) -> Self {
        NodeView {
            eager: seq_insert_elem(self.eager, p),
            lazy: seq_remove_elem(self.lazy, p),
            ..self
        }
    }

    /// Moves `p` to the lazy set: removed from eager, inserted there.
    pub open spec fn demote(self, p: N) -> Self {
        NodeView {
            eager: seq_remove_elem(self.eager, p),
            lazy: seq_insert_elem(self.lazy, p),
            ..self
        }
    }

    /// Appends one action to the queue.
    pub open spec fn enqueue(self, a: Action<N, M>) -> Self {
        NodeView { queue: self.queue.push(a), ..self }
    }

    /// The tree-optimization decision, given the minimum-round repair
    /// entry that was outstanding for the gossiped message when the
    /// gossip arrived: if that entry shows a path shorter by at least
    /// `OPTIMIZATION_THRESHOLD` rounds, graft the shorter path
    /// (without re-requesting the payload) and prune the one the
    /// gossip came on.
    pub open spec fn optimize_with(
        self,
        m: GossipMessage<N, M>,
        alt: Option<MissingEntry<N, M>>,
    ) -> Self {
        match alt {
            None => self,
            Some(e) => {
                if e.round < m.round && m.round - e.round >= OPTIMIZATION_THRESHOLD {
                    self.enqueue(graft_send_to(e.sender, self.node_id, None, e.round)).enqueue(
                        prune_send_to(m.sender, self.node_id),
                    )
                } else {
                    self
                }
            },
        }
    }

    /// The tree-optimization check run after a first-seen `Gossip`:
    /// it judges the alternate path by the minimum-round entry the
    /// tracker held for the message as the gossip arrived — before
    /// the arrival cancelled those entries.
    pub open spec fn optimize_step(
        self,
        m: GossipMessage<N, M>,
        missing_before: Seq<MissingEntry<N, M>>,
    ) -> Self {
        match min_round_index(missing_before, m.message_id) {
            None => self.optimize_with(m, None),
            Some(i) => self.optimize_with(m, Some(missing_before[i])),
        }
    }

    /// Effect of a `Gossip` from a known peer.  A duplicate demotes
    /// the sender and answers with a `Prune`.  A first arrival is
    /// delivered, recorded, resolves every repair entry for the
    /// message, is forwarded at `round + 1` as `Gossip` and announced
    /// as `Ihave` to the eager peers other than the sender (the
    /// announcement fan-out mirrors the eager set), promotes the
    /// sender, and runs the optimization check against the repair
    /// entries the tracker held as the gossip arrived — the arrival
    /// itself cancels them, so the check reads that earlier tracker.
    pub open spec fn gossip_step(self, m: GossipMessage<N, M>) -> Self {
        if self.received.contains(m.message_id) {
            self.demote(m.sender).enqueue(prune_send_to(m.sender, self.node_id))
        } else {
            let bumped = sat_add_spec(m.round, 1);
            let s1 = self.enqueue(Action::Deliver { message_id: m.message_id });
            let s2 = NodeView { received: seq_insert_elem(s1.received, m.message_id), ..s1 };
            let s3 = NodeView { missing: entries_without_id(s2.missing, m.message_id), ..s2 };
            let s4 = NodeView {
                queue: s3.queue + gossip_pushes(
                    s3.eager,
                    m.sender,
                    self.node_id,
                    m.message_id,
                    bumped,
                ),
                ..s3
            };
            let s5 = NodeView {
                queue: s4.queue + ihave_pushes(
                    s4.eager,
                    m.sender,
                    self.node_id,
                    m.message_id,
                    bumped,
                ),
                ..s4
            };
            s5.promote(m.sender).optimize_step(m, self.missing)
        }
    }

    /// Effect of an `Ihave` from a known peer: ignored if the message
    /// was already received, otherwise a repair entry is registered
    /// with a deadline `REPAIR_DELAY` ticks away.
    pub open spec fn ihave_step(self, m: IhaveMessage<N, M>) -> Self {
        if self.received.contains(m.message_id) {
            self
        } else {
            NodeView {
                missing: self.missing.push(
                    MissingEntry {
                        message_id: m.message_id,
                        sender: m.sender,
                        round: m.round,
                        deadline: sat_add_spec(self.clock, REPAIR_DELAY),
                    },
                ),
                ..self
            }
        }
    }

    /// Effect of a `Graft` from a known peer: the sender is promoted,
    /// and if it asked for a message this node has received, the
    /// gossip is resent to it at the requested round.
    pub open spec fn graft_step(self, m: GraftMessage<N, M>) -> Self {
        let s1 = self.promote(m.sender);
        match m.message_id {
            Some(id) => if s1.received.contains(id) {
                s1.enqueue(gossip_send_to(m.sender, self.node_id, id, m.round))
            } else {
                s1
            },
            None => s1,
        }
    }

    /// Effect of a `Prune` from a known peer: the sender is demoted.
    pub open spec fn prune_step(self, m: PruneMessage<N>) -> Self {
        self.demote(m.sender)
    }

    /// Effect of any incoming message: one from an unknown sender is
    /// dropped before any state changes, the rest dispatch by kind.
    pub open spec fn message_step(self, msg: Message<N, M>) -> Self {
        if !self.known(msg.sender_spec()) {
            self
        } else {
            match msg {
                Message::Gossip(m) => self.gossip_step(m),
                Message::Ihave(m) => self.ihave_step(m),
                Message::Graft(m) => self.graft_step(m),
                Message::Prune(m) => self.prune_step(m),
            }
        }
    }

    /// Effect of a neighbour-up notification: the peer joins the eager
    /// set, unless it is the node itself.
    pub open spec fn neighbour_up_step(self, p: N) -> Self {
        if p == self.node_id {
            self
        } else {
            NodeView { eager: seq_insert_elem(self.eager, p), ..self }
        }
    }

    /// Effect of a neighbour-down notification: the peer leaves both
    /// role sets and every repair entry advertised by it is dropped.
    pub open spec fn neighbour_down_step(self, p: N) -> Self {
        NodeView {
            eager: seq_remove_elem(self.eager, p),
            lazy: seq_remove_elem(self.lazy, p),
            missing: entries_without_sender(self.missing, p),
            ..self
        }
    }

    /// Effect of forgetting a message: its identifier leaves the
    /// received record, so the node treats it as unseen again.
    pub open spec fn forget_step(self, id: M) -> Self {
        NodeView { received: seq_remove_elem(self.received, id), ..self }
    }

    /// The repair loop of a tick: while some entry's deadline has
    /// passed, it is popped; if its sender is still known, the sender
    /// is promoted and asked by `Graft` to retransmit the message, and
    /// otherwise the entry is discarded silently.
    pub open spec fn tick_drain(self) -> Self
        decreases self.missing.len(),
    {
        match expired_index(self.missing, self.clock) {
            None => self,
            Some(i) => {
                if 0 <= i < self.missing.len() {
                    let e = self.missing[i];
                    let s1 = NodeView { missing: self.missing.remove(i), ..self };
                    let s2 = if s1.known(e.sender) {
                        s1.promote(e.sender).enqueue(
                            graft_send_to(e.sender, self.node_id, Some(e.message_id), e.round),
                        )
                    } else {
                        s1
                    };
                    s2.tick_drain()
                } else {
                    self
                }
            },
        }
    }

    /// Effect of a tick: the clock advances by one, then the repair
    /// loop runs.
    pub open spec fn tick_step(self) -> Self {
        (NodeView { clock: sat_add_spec(self.clock, 1), ..self }).tick_drain()
    }
}

/// The per-node automaton of the broadcast tree: owns the peer-role
/// sets, the received-message record, the repair tracker, the logical
/// clock and the action queue; every public operation is an event
/// handler that runs to completion.
pub struct Node<N, M> {
    node_id: N,
    eager_push_peers: Vec<N>,
    lazy_push_peers: Vec<N>,
    missing: MissingMessages<N, M>,
    received_msgs: Vec<M>,
    action_queue: ActionQueue<N, M>,
    clock: u64,
}

impl<N, M> View for Node<N, M> {
    type V = NodeView<N, M>;

    closed spec fn view(&self) -> NodeView<N, M> {
        NodeView {
            node_id: self.node_id,
            eager: self.eager_push_peers@,
            lazy: self.lazy_push_peers@,
            missing: self.missing@,
            received: self.received_msgs@,
            queue: self.action_queue@,
            clock: self.clock,
        }
    }
}

impl<N: Identifier, M: Identifier> Node<N, M> {
    /// A fresh node with no peers, nothing received and clock zero.
    pub fn new(node_id: N) -> (r: Self)
        ensures
            r@ == NodeView::<N, M>::init(node_id),
            r@.wf(),
    {
        let r = Node {
            node_id,
            eager_push_peers: Vec::new(),
            lazy_push_peers: Vec::new(),
            missing: MissingMessages::new(),
            received_msgs: Vec::new(),
            action_queue: ActionQueue::new(),
            clock: 0,
        };
        proof {
            assert(r@ =~= NodeView::<N, M>::init(r.node_id));
        }
        r
    }

    /// True iff `node_id` is currently a peer, in either role set.
    pub fn is_known_node(&self, node_id: &N) -> (r: bool)
        ensures
            r == self@.known(*node_id),
    {
        vec_set_contains(&self.eager_push_peers, node_id) || vec_set_contains(
            &self.lazy_push_peers,
            node_id,
        )
    }

    /// True iff `node_id` is currently an eager-push peer.
    pub fn is_eager_peer(&self, node_id: &N) -> (r: bool)
        ensures
            r == self@.eager.contains(*node_id),
    {
        vec_set_contains(&self.eager_push_peers, node_id)
    }

    /// True iff `node_id` is currently a lazy-push peer.
    pub fn is_lazy_peer(&self, node_id: &N) -> (r: bool)
        ensures
            r == self@.lazy.contains(*node_id),
    {
        vec_set_contains(&self.lazy_push_peers, node_id)
    }

    /// True iff `message_id` is in the received record.
    pub fn has_received(&self, message_id: &M) -> (r: bool)
        ensures
            r == self@.received.contains(*message_id),
    {
        vec_set_contains(&self.received_msgs, message_id)
    }

    /// The current logical clock.
    pub fn clock(&self) -> (c: u64)
        ensures
            c == self@.clock,
    {
        self.clock
    }

    /// Registers a new neighbour as an eager peer; a self-loop is a
    /// no-op, and re-adding an eager peer changes nothing.
    pub fn handle_neighbour_up(&mut self, neighbour_node_id: N)
        ensures
            final(self)@ == old(self)@.neighbour_up_step(neighbour_node_id),
            old(self)@.wf() && !old(self)@.lazy.contains(neighbour_node_id) ==> final(self)@.wf(),
    {
        proof {
            if self@.wf() && !self@.lazy.contains(neighbour_node_id) {
                lemma_neighbour_up_preserves_wf(self@, neighbour_node_id);
            }
        }
        if self.node_id.same(&neighbour_node_id) {
            return ;
        }
        vec_set_insert(&mut self.eager_push_peers, neighbour_node_id);
        proof {
            assert(self@ =~= old(self)@.neighbour_up_step(neighbour_node_id));
        }
    }

    /// Removes a departed neighbour from both role sets and purges the
    /// repair entries it advertised.
    pub fn handle_neighbour_down(&mut self, neighbour_node_id: N)
        ensures
            final(self)@ == old(self)@.neighbour_down_step(neighbour_node_id),
            old(self)@.wf() ==> final(self)@.wf(),
    {
        proof {
            if self@.wf() {
                lemma_neighbour_down_preserves_wf(self@, neighbour_node_id);
            }
        }
        vec_set_remove(&mut self.eager_push_peers, &neighbour_node_id);
        vec_set_remove(&mut self.lazy_push_peers, &neighbour_node_id);
        self.missing.handle_node_down(&neighbour_node_id);
        proof {
            assert(self@ =~= old(self)@.neighbour_down_step(neighbour_node_id));
        }
    }

    /// Evicts `message_id` from the received record: the node treats
    /// the message as unseen again.
    pub fn forget_message(&mut self, message_id: &M)
        ensures
            final(self)@ == old(self)@.forget_step(*message_id),
            old(self)@.wf() ==> final(self)@.wf(),
    {
        proof {
            if self@.wf() {
                lemma_forget_preserves_wf(self@, *message_id);
            }
        }
        vec_set_remove(&mut self.received_msgs, message_id);
        proof {
            assert(self@ =~= old(self)@.forget_step(*message_id));
        }
    }

    /// Pops and returns the next queued action in FIFO order, or
    /// `None` if the queue is empty.
    pub fn poll_action(&mut self) -> (r: Option<Action<N, M>>)
        ensures
            old(self)@.queue.len() == 0 ==> r is None && final(self)@ == old(self)@,
            old(self)@.queue.len() > 0 ==> r == Some(old(self)@.queue[0]) && final(self)@ == (
            NodeView { queue: old(self)@.queue.drop_first(), ..old(self)@ }),
            old(self)@.wf() ==> final(self)@.wf(),
    {
        let r = self.action_queue.pop();
        proof {
            if old(self)@.queue.len() == 0 {
                assert(self@ =~= old(self)@);
            } else {
                assert(self@ =~= (NodeView { queue: old(self)@.queue.drop_first(), ..old(self)@ }));
            }
        }
        r
    }
}

/// One step of the prefix recursion behind `gossip_pushes`: used by
/// the forwarding loop's invariant.
proof fn lemma_gossip_pushes_step<N, M>(
    peers: Seq<N>,
    excl: N,
    self_id: N,
    id: M,
    round: u64,
    i: int,
)
    requires
        0 <= i < peers.len(),
    ensures
        gossip_pushes(peers.take(i + 1), excl, self_id, id, round) == (if peers[i] == excl {
            gossip_pushes(peers.take(i), excl, self_id, id, round)
        } else {
            gossip_pushes(peers.take(i), excl, self_id, id, round).push(
                gossip_send_to(peers[i], self_id, id, round),
            )
        }),
{
    reveal_with_fuel(Seq::filter, 2);
    assert(peers.take(i + 1).drop_last() =~= peers.take(i));
    assert(peers.take(i + 1).last() == peers[i]);
    if peers[i] == excl {
        assert(gossip_pushes(peers.take(i + 1), excl, self_id, id, round) =~= gossip_pushes(
            peers.take(i),
            excl,
            self_id,
            id,
            round,
        ));
    } else {
        assert(gossip_pushes(peers.take(i + 1), excl, self_id, id, round) =~= gossip_pushes(
            peers.take(i),
            excl,
            self_id,
            id,
            round,
        ).push(gossip_send_to(peers[i], self_id, id, round)));
    }
}

/// One step of the prefix recursion behind `ihave_pushes`: used by the
/// announcement loop's invariant.
proof fn lemma_ihave_pushes_step<N, M>(
    peers: Seq<N>,
    excl: N,
    self_id: N,
    id: M,
    round: u64,
    i: int,
)
    requires
        0 <= i < peers.len(),
    ensures
        ihave_pushes(peers.take(i + 1), excl, self_id, id, round) == (if peers[i] == excl {
            ihave_pushes(peers.take(i), excl, self_id, id, round)
        } else {
            ihave_pushes(peers.take(i), excl, self_id, id, round).push(
                ihave_send_to(peers[i], self_id, id, round),
            )
        }),
{
    reveal_with_fuel(Seq::filter, 2);
    assert(peers.take(i + 1).drop_last() =~= peers.take(i));
    assert(peers.take(i + 1).last() == peers[i]);
    if peers[i] == excl {
        assert(ihave_pushes(peers.take(i + 1), excl, self_id, id, round) =~= ihave_pushes(
            peers.take(i),
            excl,
            self_id,
            id,
            round,
        ));
    } else {
        assert(ihave_pushes(peers.take(i + 1), excl, self_id, id, round) =~= ihave_pushes(
            peers.take(i),
            excl,
            self_id,
            id,
            round,
        ).push(ihave_send_to(peers[i], self_id, id, round)));
    }
}

impl<N: Identifier, M: Identifier> Node<N, M> {
    /// Forwards a first-seen gossip to every eager peer but the one it
    /// came from, at the next round, with this node as sender.
    fn eager_push(&mut self, m: &GossipMessage<N, M>)
        ensures
            final(self)@ == (NodeView {
                queue: old(self)@.queue + gossip_pushes(
                    old(self)@.eager,
                    m.sender,
                    old(self)@.node_id,
                    m.message_id,
                    sat_add_spec(m.round, 1),
                ),
                ..old(self)@
            }),
    {
        let round = m.round.saturating_add(1);
        let ghost q0 = self@.queue;
        let ghost peers = self@.eager;
        proof {
            assert(peers.take(0) =~= Seq::<N>::empty());
            assert(gossip_pushes(peers.take(0), m.sender, self@.node_id, m.message_id, round)
                =~= Seq::<Action<N, M>>::empty());
            assert(q0 + gossip_pushes(peers.take(0), m.sender, self@.node_id, m.message_id, round)
                =~= q0);
            assert(self@ =~= (NodeView {
                queue: q0 + gossip_pushes(
                    peers.take(0),
                    m.sender,
                    old(self)@.node_id,
                    m.message_id,
                    round,
                ),
                ..old(self)@
            }));
        }
        let mut i: usize = 0;
        while i < self.eager_push_peers.len()
            invariant
                i <= peers.len(),
                peers == old(self)@.eager,
                q0 == old(self)@.queue,
                round == sat_add_spec(m.round, 1),
                self@ == (NodeView {
                    queue: q0 + gossip_pushes(
                        peers.take(i as int),
                        m.sender,
                        old(self)@.node_id,
                        m.message_id,
                        round,
                    ),
                    ..old(self)@
                }),
            decreases peers.len() - i,
        {
            let p = self.eager_push_peers[i].dup();
            if !p.same(&m.sender) {
                self.action_queue.send(
                    p,
                    Message::Gossip(
                        GossipMessage {
                            sender: self.node_id.dup(),
                            message_id: m.message_id.dup(),
                            round,
                        },
                    ),
                );
            }
            proof {
                lemma_gossip_pushes_step(
                    peers,
                    m.sender,
                    old(self)@.node_id,
                    m.message_id,
                    round,
                    i as int,
                );
                assert(self@ =~= (NodeView {
                    queue: q0 + gossip_pushes(
                        peers.take(i as int + 1),
                        m.sender,
                        old(self)@.node_id,
                        m.message_id,
                        round,
                    ),
                    ..old(self)@
                }));
            }
            i += 1;
        }
        proof {
            assert(peers.take(peers.len() as int) =~= peers);
            assert(self@ =~= (NodeView {
                queue: q0 + gossip_pushes(
                    peers,
                    m.sender,
                    old(self)@.node_id,
                    m.message_id,
                    round,
                ),
                ..old(self)@
            }));
        }
    }

    /// Announces a first-seen gossip by `Ihave` to every eager peer
    /// but the one it came from, at the next round; the announcement
    /// fan-out mirrors the eager set.
    fn lazy_push(&mut self, m: &GossipMessage<N, M>)
        ensures
            final(self)@ == (NodeView {
                queue: old(self)@.queue + ihave_pushes(
                    old(self)@.eager,
                    m.sender,
                    old(self)@.node_id,
                    m.message_id,
                    sat_add_spec(m.round, 1),
                ),
                ..old(self)@
            }),
    {
        let round = m.round.saturating_add(1);
        let ghost q0 = self@.queue;
        let ghost peers = self@.eager;
        proof {
            assert(peers.take(0) =~= Seq::<N>::empty());
            assert(ihave_pushes(peers.take(0), m.sender, self@.node_id, m.message_id, round)
                =~= Seq::<Action<N, M>>::empty());
            assert(q0 + ihave_pushes(peers.take(0), m.sender, self@.node_id, m.message_id, round)
                =~= q0);
            assert(self@ =~= (NodeView {
                queue: q0 + ihave_pushes(
                    peers.take(0),
                    m.sender,
                    old(self)@.node_id,
                    m.message_id,
                    round,
                ),
                ..old(self)@
            }));
        }
        let mut i: usize = 0;
        while i < self.eager_push_peers.len()
            invariant
                i <= peers.len(),
                peers == old(self)@.eager,
                q0 == old(self)@.queue,
                round == sat_add_spec(m.round, 1),
                self@ == (NodeView {
                    queue: q0 + ihave_pushes(
                        peers.take(i as int),
                        m.sender,
                        old(self)@.node_id,
                        m.message_id,
                        round,
                    ),
                    ..old(self)@
                }),
            decreases peers.len() - i,
        {
            let p = self.eager_push_peers[i].dup();
            if !p.same(&m.sender) {
                self.action_queue.send(
                    p,
                    Message::Ihave(
                        IhaveMessage {
                            sender: self.node_id.dup(),
                            message_id: m.message_id.dup(),
                            round,
                        },
                    ),
                );
            }
            proof {
                lemma_ihave_pushes_step(
                    peers,
                    m.sender,
                    old(self)@.node_id,
                    m.message_id,
                    round,
                    i as int,
                );
                assert(self@ =~= (NodeView {
                    queue: q0 + ihave_pushes(
                        peers.take(i as int + 1),
                        m.sender,
                        old(self)@.node_id,
                        m.message_id,
                        round,
                    ),
                    ..old(self)@
                }));
            }
            i += 1;
        }
        proof {
            assert(peers.take(peers.len() as int) =~= peers);
            assert(self@ =~= (NodeView {
                queue: q0 + ihave_pushes(
                    peers,
                    m.sender,
                    old(self)@.node_id,
                    m.message_id,
                    round,
                ),
                ..old(self)@
            }));
        }
    }

    /// Runs the tree-optimization check after a first-seen gossip,
    /// judging `alt`: the minimum-round repair entry the tracker held
    /// for the message as the gossip arrived.
    fn optimize(&mut self, m: GossipMessage<N, M>, alt: Option<MissingEntry<N, M>>)
        ensures
            final(self)@ == old(self)@.optimize_with(m, alt),
    {
        match alt {
            None => {
                proof {
                    assert(self@ =~= old(self)@.optimize_with(m, alt));
                }
            },
            Some(ihave) => {
                if ihave.round < m.round && (m.round - ihave.round) >= OPTIMIZATION_THRESHOLD {
                    self.action_queue.send(
                        ihave.sender.dup(),
                        Message::Graft(
                            GraftMessage {
                                sender: self.node_id.dup(),
                                message_id: None,
                                round: ihave.round,
                            },
                        ),
                    );
                    self.action_queue.send(
                        m.sender,
                        Message::Prune(PruneMessage::new(&self.node_id)),
                    );
                }
                proof {
                    assert(self@ =~= old(self)@.optimize_with(m, Some(ihave)));
                }
            },
        }
    }

    /// Handles a `Gossip` from a known peer.
    fn handle_gossip(&mut self, m: GossipMessage<N, M>)
        ensures
            final(self)@ == old(self)@.gossip_step(m),
    {
        if vec_set_contains(&self.received_msgs, &m.message_id) {
            vec_set_remove(&mut self.eager_push_peers, &m.sender);
            vec_set_insert(&mut self.lazy_push_peers, m.sender.dup());
            self.action_queue.send(m.sender, Message::Prune(PruneMessage::new(&self.node_id)));
            proof {
                assert(self@ =~= old(self)@.gossip_step(m));
            }
        } else {
            let ghost s0 = self@;
            let ghost gm = m;
            // The repair entry that judges the alternate path must be
            // read before the arrival cancels the message's entries.
            let alt = self.missing.get_by_id(&m.message_id);
            self.action_queue.deliver(m.message_id.dup());
            vec_set_insert(&mut self.received_msgs, m.message_id.dup());
            self.missing.cancel_timer(&m.message_id);
            self.eager_push(&m);
            self.lazy_push(&m);
            vec_set_insert(&mut self.eager_push_peers, m.sender.dup());
            vec_set_remove(&mut self.lazy_push_peers, &m.sender);
            let ghost pre_opt = self@;
            let ghost galt = alt;
            self.optimize(m, alt);
            proof {
                let bumped = sat_add_spec(gm.round, 1);
                let s1 = s0.enqueue(Action::Deliver { message_id: gm.message_id });
                let s2 = NodeView { received: seq_insert_elem(s1.received, gm.message_id), ..s1 };
                let s3 = NodeView { missing: entries_without_id(s2.missing, gm.message_id), ..s2 };
                let s4 = NodeView {
                    queue: s3.queue + gossip_pushes(
                        s3.eager,
                        gm.sender,
                        s0.node_id,
                        gm.message_id,
                        bumped,
                    ),
                    ..s3
                };
                let s5 = NodeView {
                    queue: s4.queue + ihave_pushes(
                        s4.eager,
                        gm.sender,
                        s0.node_id,
                        gm.message_id,
                        bumped,
                    ),
                    ..s4
                };
                let s6 = s5.promote(gm.sender);
                assert(pre_opt =~= s6);
                assert(self@ == pre_opt.optimize_with(gm, galt));
                match min_round_index(s0.missing, gm.message_id) {
                    None => {
                        assert(galt is None);
                    },
                    Some(i) => {
                        assert(galt == Some(s0.missing[i]));
                    },
                }
                assert(self@ == pre_opt.optimize_step(gm, s0.missing));
                assert(self@ == s0.gossip_step(gm));
            }
        }
    }

    /// Handles an `Ihave` from a known peer.
    fn handle_ihave(&mut self, m: IhaveMessage<N, M>)
        ensures
            final(self)@ == old(self)@.ihave_step(m),
    {
        if vec_set_contains(&self.received_msgs, &m.message_id) {
            return ;
        }
        let deadline = self.clock.saturating_add(REPAIR_DELAY);
        self.missing.push(
            MissingEntry { message_id: m.message_id, sender: m.sender, round: m.round, deadline },
        );
        proof {
            assert(self@ =~= old(self)@.ihave_step(m));
        }
    }

    /// Handles a `Graft` from a known peer.
    fn handle_graft(&mut self, m: GraftMessage<N, M>)
        ensures
            final(self)@ == old(self)@.graft_step(m),
    {
        vec_set_insert(&mut self.eager_push_peers, m.sender.dup());
        vec_set_remove(&mut self.lazy_push_peers, &m.sender);
        match m.message_id {
            Some(message_id) => {
                if vec_set_contains(&self.received_msgs, &message_id) {
                    self.action_queue.send(
                        m.sender,
                        Message::Gossip(
                            GossipMessage {
                                sender: self.node_id.dup(),
                                message_id,
                                round: m.round,
                            },
                        ),
                    );
                }
            },
            None => {},
        }
        proof {
            assert(self@ =~= old(self)@.graft_step(m));
        }
    }

    /// Handles a `Prune` from a known peer.
    fn handle_prune(&mut self, m: PruneMessage<N>)
        ensures
            final(self)@ == old(self)@.prune_step(m),
    {
        vec_set_remove(&mut self.eager_push_peers, &m.sender);
        vec_set_insert(&mut self.lazy_push_peers, m.sender);
        proof {
            assert(self@ =~= old(self)@.prune_step(m));
        }
    }

    /// Dispatches an incoming protocol message.  A message whose
    /// sender is not a current peer is dropped before any state
    /// mutation; the rest take effect as `message_step` says.
    pub fn handle_message(&mut self, message: Message<N, M>)
        ensures
            final(self)@ == old(self)@.message_step(message),
            old(self)@.wf() ==> final(self)@.wf(),
    {
        let ghost msg = message;
        if !self.is_known_node(message.sender()) {
            return ;
        }
        match message {
            Message::Gossip(m) => self.handle_gossip(m),
            Message::Ihave(m) => self.handle_ihave(m),
            Message::Graft(m) => self.handle_graft(m),
            Message::Prune(m) => self.handle_prune(m),
        }
        proof {
            if old(self)@.wf() {
                lemma_message_step_preserves_wf(old(self)@, msg);
            }
        }
    }

    /// Advances the logical clock by one tick, then pops every repair
    /// entry whose deadline has passed: each one whose sender is still
    /// known promotes that sender and asks it by `Graft` to retransmit
    /// the missing message; the rest are discarded silently.
    pub fn handle_tick(&mut self)
        ensures
            final(self)@ == old(self)@.tick_step(),
            old(self)@.wf() ==> final(self)@.wf(),
    {
        self.clock = self.clock.saturating_add(1);
        let ghost start = self@;
        proof {
            assert(start =~= (NodeView { clock: sat_add_spec(old(self)@.clock, 1), ..old(self)@ }));
        }
        loop
            invariant
                self@.clock == start.clock,
                start.tick_drain() == self@.tick_drain(),
            ensures
                self@ == start.tick_drain(),
            decreases self@.missing.len(),
        {
            let ghost prev = self@;
            let popped = self.missing.pop_expired(self.clock);
            match popped {
                None => {
                    proof {
                        assert(self@ =~= prev);
                        assert(prev.tick_drain() == prev);
                    }
                    break ;
                },
                Some(e) => {
                    proof {
                        lemma_expired_index_props(prev.missing, prev.clock);
                    }
                    let ghost mid = self@;
                    if self.is_known_node(&e.sender) {
                        vec_set_insert(&mut self.eager_push_peers, e.sender.dup());
                        vec_set_remove(&mut self.lazy_push_peers, &e.sender);
                        self.action_queue.send(
                            e.sender,
                            Message::Graft(
                                GraftMessage {
                                    sender: self.node_id.dup(),
                                    message_id: Some(e.message_id),
                                    round: e.round,
                                },
                            ),
                        );
                    }
                    proof {
                        match expired_index(prev.missing, prev.clock) {
                            None => {
                                assert(false);
                            },
                            Some(i) => {
                                let s1 = NodeView { missing: prev.missing.remove(i), ..prev };
                                assert(mid =~= s1);
                                if s1.known(e.sender) {
                                    let s2 = s1.promote(e.sender).enqueue(
                                        graft_send_to(
                                            e.sender,
                                            prev.node_id,
                                            Some(e.message_id),
                                            e.round,
                                        ),
                                    );
                                    assert(self@ =~= s2);
                                } else {
                                    assert(self@ =~= s1);
                                }
                                assert(prev.tick_drain() == self@.tick_drain());
                            },
                        }
                    }
                },
            }
        }
        proof {
            if old(self)@.wf() {
                lemma_tick_step_preserves_wf(old(self)@);
            }
        }
    }
}

/// A fresh node is well-formed.
pub proof fn lemma_init_wf<N, M>(node_id: N)
    ensures
        NodeView::<N, M>::init(node_id).wf(),
{
}

/// A neighbour-up event preserves well-formedness, provided the peer
/// is not currently lazy — the membership service announces a peer
/// only when it becomes reachable, so a known peer is never announced
/// again without a neighbour-down in between.
pub proof fn lemma_neighbour_up_preserves_wf<N, M>(s: NodeView<N, M>, p: N)
    requires
        s.wf(),
        !s.lazy.contains(p),
    ensures
        s.neighbour_up_step(p).wf(),
{
    lemma_seq_insert_elem_props(s.eager, p);
}

/// A neighbour-down event preserves well-formedness.
pub proof fn lemma_neighbour_down_preserves_wf<N, M>(s: NodeView<N, M>, p: N)
    requires
        s.wf(),
    ensures
        s.neighbour_down_step(p).wf(),
{
    lemma_seq_remove_elem_props(s.eager, p);
    lemma_seq_remove_elem_props(s.lazy, p);
}

/// After a neighbour-down event no repair entry advertised by the
/// departed peer remains, and the peer is gone from both role sets.
pub proof fn lemma_neighbour_down_purges<N, M>(s: NodeView<N, M>, p: N)
    ensures
        forall|i: int|
            0 <= i < s.neighbour_down_step(p).missing.len()
                ==> s.neighbour_down_step(p).missing[i].sender != p,
        !s.neighbour_down_step(p).eager.contains(p),
        !s.neighbour_down_step(p).lazy.contains(p),
{
    lemma_seq_remove_elem_props(s.eager, p);
    lemma_seq_remove_elem_props(s.lazy, p);
}

/// Forgetting a message preserves well-formedness.
pub proof fn lemma_forget_preserves_wf<N, M>(s: NodeView<N, M>, id: M)
    requires
        s.wf(),
    ensures
        s.forget_step(id).wf(),
{
    lemma_seq_remove_elem_props(s.received, id);
}

/// Promoting a peer other than the node itself preserves
/// well-formedness.
pub proof fn lemma_promote_preserves_wf<N, M>(s: NodeView<N, M>, p: N)
    requires
        s.wf(),
        p != s.node_id,
    ensures
        s.promote(p).wf(),
{
    lemma_seq_insert_elem_props(s.eager, p);
    lemma_seq_remove_elem_props(s.lazy, p);
}

/// Demoting a peer other than the node itself preserves
/// well-formedness.
pub proof fn lemma_demote_preserves_wf<N, M>(s: NodeView<N, M>, p: N)
    requires
        s.wf(),
        p != s.node_id,
    ensures
        s.demote(p).wf(),
{
    lemma_seq_remove_elem_props(s.eager, p);
    lemma_seq_insert_elem_props(s.lazy, p);
}

/// A known peer is never the node itself in a well-formed state.
pub proof fn lemma_known_not_self<N, M>(s: NodeView<N, M>, p: N)
    requires
        s.wf(),
        s.known(p),
    ensures
        p != s.node_id,
{
}

/// A `Gossip` from a known peer preserves well-formedness.
pub proof fn lemma_gossip_step_preserves_wf<N, M>(s: NodeView<N, M>, m: GossipMessage<N, M>)
    requires
        s.wf(),
        s.known(m.sender),
    ensures
        s.gossip_step(m).wf(),
{
    lemma_known_not_self(s, m.sender);
    if s.received.contains(m.message_id) {
        lemma_demote_preserves_wf(s, m.sender);
    } else {
        let bumped = sat_add_spec(m.round, 1);
        let s1 = s.enqueue(Action::Deliver { message_id: m.message_id });
        let s2 = NodeView { received: seq_insert_elem(s1.received, m.message_id), ..s1 };
        let s3 = NodeView { missing: entries_without_id(s2.missing, m.message_id), ..s2 };
        let s4 = NodeView {
            queue: s3.queue + gossip_pushes(s3.eager, m.sender, s.node_id, m.message_id, bumped),
            ..s3
        };
        let s5 = NodeView {
            queue: s4.queue + ihave_pushes(s4.eager, m.sender, s.node_id, m.message_id, bumped),
            ..s4
        };
        lemma_seq_insert_elem_props(s.received, m.message_id);
        assert(s5.wf());
        lemma_promote_preserves_wf(s5, m.sender);
        let s6 = s5.promote(m.sender);
        assert(s6.optimize_step(m, s.missing).wf());
        assert(s.gossip_step(m) == s6.optimize_step(m, s.missing));
    }
}

/// An `Ihave` from a known peer preserves well-formedness.
pub proof fn lemma_ihave_step_preserves_wf<N, M>(s: NodeView<N, M>, m: IhaveMessage<N, M>)
    requires
        s.wf(),
    ensures
        s.ihave_step(m).wf(),
{
}

/// A `Graft` from a known peer preserves well-formedness.
pub proof fn lemma_graft_step_preserves_wf<N, M>(s: NodeView<N, M>, m: GraftMessage<N, M>)
    requires
        s.wf(),
        s.known(m.sender),
    ensures
        s.graft_step(m).wf(),
{
    lemma_known_not_self(s, m.sender);
    lemma_promote_preserves_wf(s, m.sender);
}

/// A `Prune` from a known peer preserves well-formedness.
pub proof fn lemma_prune_step_preserves_wf<N, M>(s: NodeView<N, M>, m: PruneMessage<N>)
    requires
        s.wf(),
        s.known(m.sender),
    ensures
        s.prune_step(m).wf(),
{
    lemma_known_not_self(s, m.sender);
    lemma_demote_preserves_wf(s, m.sender);
}

/// Handling any protocol message preserves well-formedness: together
/// with the other preservation results, every reachable state keeps
/// the role sets disjoint and free of the node's own identifier.
pub proof fn lemma_message_step_preserves_wf<N, M>(s: NodeView<N, M>, msg: Message<N, M>)
    requires
        s.wf(),
    ensures
        s.message_step(msg).wf(),
{
    if s.known(msg.sender_spec()) {
        match msg {
            Message::Gossip(m) => lemma_gossip_step_preserves_wf(s, m),
            Message::Ihave(m) => lemma_ihave_step_preserves_wf(s, m),
            Message::Graft(m) => lemma_graft_step_preserves_wf(s, m),
            Message::Prune(m) => lemma_prune_step_preserves_wf(s, m),
        }
    }
}

/// The repair loop of a tick preserves well-formedness.
pub proof fn lemma_tick_drain_preserves_wf<N, M>(s: NodeView<N, M>)
    requires
        s.wf(),
    ensures
        s.tick_drain().wf(),
    decreases s.missing.len(),
{
    lemma_expired_index_props(s.missing, s.clock);
    match expired_index(s.missing, s.clock) {
        None => {},
        Some(i) => {
            let e = s.missing[i];
            let s1 = NodeView { missing: s.missing.remove(i), ..s };
            assert(s1.wf());
            if s1.known(e.sender) {
                lemma_known_not_self(s1, e.sender);
                lemma_promote_preserves_wf(s1, e.sender);
                let s2 = s1.promote(e.sender).enqueue(
                    graft_send_to(e.sender, s.node_id, Some(e.message_id), e.round),
                );
                assert(s2.wf());
                lemma_tick_drain_preserves_wf(s2);
            } else {
                lemma_tick_drain_preserves_wf(s1);
            }
        },
    }
}

/// Forgetting a message fully resets its membership: afterwards the
/// identifier is absent from the received record, so the next `Gossip`
/// carrying it takes the first-seen path again.
pub proof fn lemma_forget_resets<N, M>(s: NodeView<N, M>, id: M)
    ensures
        !s.forget_step(id).received.contains(id),
        forall|other: M| other != id ==> (#[trigger] s.forget_step(id).received.contains(other)
            == s.received.contains(other)),
{
    lemma_seq_remove_elem_props(s.received, id);
}

/// A tick preserves well-formedness.
pub proof fn lemma_tick_step_preserves_wf<N, M>(s: NodeView<N, M>)
    requires
        s.wf(),
    ensures
        s.tick_step().wf(),
{
    let bumped = NodeView { clock: sat_add_spec(s.clock, 1), ..s };
    assert(bumped.wf());
    lemma_tick_drain_preserves_wf(bumped);
}

/// A duplicate gossip delivers nothing: it only demotes the sender
/// and appends exactly one `Prune` reply to the queue, leaving the
/// received record, the tracker and the clock untouched.
pub proof fn lemma_duplicate_gossip<N, M>(s: NodeView<N, M>, m: GossipMessage<N, M>)
    requires
        s.received.contains(m.message_id),
    ensures
        s.gossip_step(m).queue == s.queue.push(prune_send_to(m.sender, s.node_id)),
        s.gossip_step(m).eager == seq_remove_elem(s.eager, m.sender),
        s.gossip_step(m).lazy == seq_insert_elem(s.lazy, m.sender),
        s.gossip_step(m).received == s.received,
        s.gossip_step(m).missing == s.missing,
        s.gossip_step(m).clock == s.clock,
{
}

/// A first-seen gossip delivers exactly once: the queue keeps its old
/// prefix and grows by a suffix whose first action is the delivery of
/// the message and whose remaining actions are all sends; the message
/// joins the received record.
pub proof fn lemma_first_seen_gossip_delivers<N, M>(s: NodeView<N, M>, m: GossipMessage<N, M>)
    requires
        !s.received.contains(m.message_id),
    ensures
        s.gossip_step(m).received.contains(m.message_id),
        s.queue.len() < s.gossip_step(m).queue.len(),
        s.gossip_step(m).queue.take(s.queue.len() as int) == s.queue,
        s.gossip_step(m).queue[s.queue.len() as int] == (Action::<N, M>::Deliver {
            message_id: m.message_id,
        }),
        forall|j: int|
            s.queue.len() < j < s.gossip_step(m).queue.len() ==> (#[trigger] s.gossip_step(
                m,
            ).queue[j]) is Send,
{
    let t = s.queue.len() as int;
    let bumped = sat_add_spec(m.round, 1);
    let s1 = s.enqueue(Action::Deliver { message_id: m.message_id });
    let s2 = NodeView { received: seq_insert_elem(s1.received, m.message_id), ..s1 };
    let s3 = NodeView { missing: entries_without_id(s2.missing, m.message_id), ..s2 };
    let g = gossip_pushes(s3.eager, m.sender, s.node_id, m.message_id, bumped);
    let h = ihave_pushes(s3.eager, m.sender, s.node_id, m.message_id, bumped);
    let s4 = NodeView { queue: s3.queue + g, ..s3 };
    let s5 = NodeView { queue: s4.queue + h, ..s4 };
    let s6 = s5.promote(m.sender);
    let res = s6.optimize_step(m, s.missing);
    assert(s.gossip_step(m) == res);
    assert(s2.received == s.received.push(m.message_id));
    assert(s2.received[s.received.len() as int] == m.message_id);
    assert(res.received.contains(m.message_id));
    assert(res.queue.take(t) =~= s.queue);
    assert(res.queue[t] == (Action::<N, M>::Deliver { message_id: m.message_id }));
    assert forall|j: int| t < j < res.queue.len() implies (#[trigger] res.queue[j]) is Send by {
        if j < s5.queue.len() {
            if j < s4.queue.len() {
                assert(s5.queue[j] == g[j - s1.queue.len()]);
                assert(g[j - s1.queue.len()] == gossip_send_to(
                    s3.eager.filter(|p: N| p != m.sender)[j - s1.queue.len()],
                    s.node_id,
                    m.message_id,
                    bumped,
                ));
            } else {
                assert(s5.queue[j] == h[j - s4.queue.len()]);
                assert(h[j - s4.queue.len()] == ihave_send_to(
                    s3.eager.filter(|p: N| p != m.sender)[j - s4.queue.len()],
                    s.node_id,
                    m.message_id,
                    bumped,
                ));
            }
            assert(res.queue[j] == s5.queue[j]);
        } else {
            match min_round_index(s.missing, m.message_id) {
                None => {},
                Some(i) => {},
            }
        }
    }
}

/// A first-seen gossip resolves the outstanding repairs for its
/// message: no tracker entry for that identifier survives, so no
/// later tick can ask for it by `Graft`.
pub proof fn lemma_gossip_cancels_repair<N, M>(s: NodeView<N, M>, m: GossipMessage<N, M>)
    requires
        !s.received.contains(m.message_id),
    ensures
        forall|i: int|
            0 <= i < s.gossip_step(m).missing.len() ==> (#[trigger] s.gossip_step(
                m,
            ).missing[i]).message_id != m.message_id,
{
    assert(s.gossip_step(m).missing == entries_without_id(s.missing, m.message_id));
}

/// An `Ihave` for an unseen message registers exactly one repair
/// entry: the advertised message and round under the advertising
/// sender, due `REPAIR_DELAY` ticks from now; everything else stays.
pub proof fn lemma_ihave_registers<N, M>(s: NodeView<N, M>, m: IhaveMessage<N, M>)
    requires
        !s.received.contains(m.message_id),
    ensures
        s.ihave_step(m).missing == s.missing.push(
            (MissingEntry {
                message_id: m.message_id,
                sender: m.sender,
                round: m.round,
                deadline: sat_add_spec(s.clock, REPAIR_DELAY),
            }),
        ),
        s.ihave_step(m).eager == s.eager,
        s.ihave_step(m).lazy == s.lazy,
        s.ihave_step(m).received == s.received,
        s.ihave_step(m).queue == s.queue,
        s.ihave_step(m).clock == s.clock,
{
}

/// A `Graft` that asks for a message this node has received promotes
/// the sender to eager and appends exactly one gossip resend to it at
/// the requested round.
pub proof fn lemma_graft_reply<N, M>(s: NodeView<N, M>, m: GraftMessage<N, M>, id: M)
    requires
        m.message_id == Some(id),
        s.received.contains(id),
    ensures
        s.graft_step(m).queue == s.queue.push(gossip_send_to(m.sender, s.node_id, id, m.round)),
        s.graft_step(m).eager.contains(m.sender),
        !s.graft_step(m).lazy.contains(m.sender),
        s.graft_step(m).received == s.received,
{
    lemma_seq_insert_elem_props(s.eager, m.sender);
    lemma_seq_remove_elem_props(s.lazy, m.sender);
}

/// Forgetting a message and then handling the identical gossip again
/// reproduces the first-seen behaviour: the delivery happens anew.
pub proof fn lemma_forget_then_gossip_redelivers<N, M>(s: NodeView<N, M>, m: GossipMessage<N, M>)
    ensures
        s.forget_step(m.message_id).gossip_step(m).received.contains(m.message_id),
        s.forget_step(m.message_id).gossip_step(m).queue[s.queue.len() as int] == (
        Action::<N, M>::Deliver { message_id: m.message_id }),
{
    lemma_forget_resets(s, m.message_id);
    lemma_first_seen_gossip_delivers(s.forget_step(m.message_id), m);
}

} // verus!
