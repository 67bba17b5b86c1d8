//! Protocol scenarios driven through the public automaton interface.

use plumtree::action::Action;
use plumtree::message::{GossipMessage, GraftMessage, IhaveMessage, Message, PruneMessage};
use plumtree::node::Node;

fn gossip(sender: u64, message_id: u64, round: u64) -> Message<u64, u64> {
    Message::Gossip(GossipMessage {
        sender,
        message_id,
        round,
    })
}

fn ihave(sender: u64, message_id: u64, round: u64) -> Message<u64, u64> {
    Message::Ihave(IhaveMessage {
        sender,
        message_id,
        round,
    })
}

fn graft(sender: u64, message_id: Option<u64>, round: u64) -> Message<u64, u64> {
    Message::Graft(GraftMessage {
        sender,
        message_id,
        round,
    })
}

fn prune(sender: u64) -> Message<u64, u64> {
    Message::Prune(PruneMessage { sender })
}

fn drain(node: &mut Node<u64, u64>) -> Vec<Action<u64, u64>> {
    let mut out = Vec::new();
    while let Some(a) = node.poll_action() {
        out.push(a);
    }
    out
}

#[test]
fn first_seen_gossip_delivers_once() {
    let mut node: Node<u64, u64> = Node::new(0);
    node.handle_neighbour_up(1);
    node.handle_message(gossip(1, 11, 0));
    let actions = drain(&mut node);
    assert_eq!(actions, vec![Action::Deliver { message_id: 11 }]);
    assert!(node.has_received(&11));
}

#[test]
fn duplicate_gossip_prunes_and_demotes() {
    let mut node: Node<u64, u64> = Node::new(0);
    node.handle_neighbour_up(1);
    node.handle_message(gossip(1, 11, 0));
    drain(&mut node);
    assert!(node.is_eager_peer(&1));
    node.handle_message(gossip(1, 11, 0));
    let actions = drain(&mut node);
    assert_eq!(
        actions,
        vec![Action::Send {
            target: 1,
            message: prune(0),
        }]
    );
    assert!(!node.is_eager_peer(&1));
    assert!(node.is_lazy_peer(&1));
}

#[test]
fn message_from_unknown_sender_is_dropped() {
    let mut node: Node<u64, u64> = Node::new(0);
    node.handle_message(gossip(1, 11, 0));
    node.handle_message(ihave(2, 22, 0));
    node.handle_message(graft(3, Some(33), 0));
    node.handle_message(prune(4));
    assert!(drain(&mut node).is_empty());
    assert!(!node.has_received(&11));
}

#[test]
fn ihave_timeout_grafts_the_advertiser() {
    let mut node: Node<u64, u64> = Node::new(0);
    node.handle_neighbour_up(2);
    node.handle_message(ihave(2, 22, 0));
    assert!(drain(&mut node).is_empty());
    node.handle_tick();
    assert_eq!(node.clock(), 1);
    let actions = drain(&mut node);
    assert_eq!(
        actions,
        vec![Action::Send {
            target: 2,
            message: graft(0, Some(22), 0),
        }]
    );
    assert!(node.is_eager_peer(&2));
}

#[test]
fn gossip_before_deadline_suppresses_the_graft() {
    let mut node: Node<u64, u64> = Node::new(0);
    node.handle_neighbour_up(2);
    node.handle_neighbour_up(3);
    node.handle_message(ihave(3, 33, 0));
    node.handle_message(gossip(2, 33, 0));
    let actions = drain(&mut node);
    assert_eq!(
        actions,
        vec![
            Action::Deliver { message_id: 33 },
            Action::Send {
                target: 3,
                message: gossip(0, 33, 1),
            },
            Action::Send {
                target: 3,
                message: ihave(0, 33, 1),
            },
        ]
    );
    node.handle_tick();
    node.handle_tick();
    assert!(drain(&mut node).is_empty());
}

#[test]
fn expired_entry_of_departed_peer_is_discarded() {
    let mut node: Node<u64, u64> = Node::new(0);
    node.handle_neighbour_up(5);
    node.handle_message(ihave(5, 55, 0));
    node.handle_neighbour_down(5);
    assert!(!node.is_known_node(&5));
    node.handle_tick();
    assert!(drain(&mut node).is_empty());
}

#[test]
fn graft_for_received_message_resends_the_gossip() {
    let mut node: Node<u64, u64> = Node::new(0);
    node.handle_neighbour_up(3);
    node.handle_message(gossip(3, 44, 0));
    drain(&mut node);
    node.handle_message(prune(3));
    assert!(node.is_lazy_peer(&3));
    node.handle_message(graft(3, Some(44), 7));
    let actions = drain(&mut node);
    assert_eq!(
        actions,
        vec![Action::Send {
            target: 3,
            message: gossip(0, 44, 7),
        }]
    );
    assert!(node.is_eager_peer(&3));
}

#[test]
fn graft_for_unseen_message_only_promotes() {
    let mut node: Node<u64, u64> = Node::new(0);
    node.handle_neighbour_up(3);
    node.handle_message(prune(3));
    node.handle_message(graft(3, Some(44), 7));
    assert!(drain(&mut node).is_empty());
    assert!(node.is_eager_peer(&3));
    assert!(!node.is_lazy_peer(&3));
}

#[test]
fn forget_message_resets_first_seen_behaviour() {
    let mut node: Node<u64, u64> = Node::new(0);
    node.handle_neighbour_up(1);
    node.handle_message(gossip(1, 11, 0));
    drain(&mut node);
    node.forget_message(&11);
    assert!(!node.has_received(&11));
    node.handle_message(gossip(1, 11, 0));
    let actions = drain(&mut node);
    assert_eq!(actions, vec![Action::Deliver { message_id: 11 }]);
    assert!(node.has_received(&11));
}

#[test]
fn neighbour_up_is_idempotent_and_skips_self() {
    let mut node: Node<u64, u64> = Node::new(0);
    node.handle_neighbour_up(0);
    assert!(!node.is_known_node(&0));
    node.handle_neighbour_up(7);
    node.handle_neighbour_up(7);
    node.handle_neighbour_up(8);
    node.handle_message(gossip(8, 66, 0));
    let actions = drain(&mut node);
    assert_eq!(
        actions,
        vec![
            Action::Deliver { message_id: 66 },
            Action::Send {
                target: 7,
                message: gossip(0, 66, 1),
            },
            Action::Send {
                target: 7,
                message: ihave(0, 66, 1),
            },
        ]
    );
}

#[test]
fn neighbour_down_removes_both_roles() {
    let mut node: Node<u64, u64> = Node::new(0);
    node.handle_neighbour_up(4);
    node.handle_message(prune(4));
    assert!(node.is_lazy_peer(&4));
    node.handle_neighbour_down(4);
    assert!(!node.is_eager_peer(&4));
    assert!(!node.is_lazy_peer(&4));
    assert!(!node.is_known_node(&4));
}

#[test]
fn round_saturates_at_the_maximum() {
    let mut node: Node<u64, u64> = Node::new(0);
    node.handle_neighbour_up(1);
    node.handle_neighbour_up(2);
    node.handle_message(gossip(1, 88, u64::MAX));
    let actions = drain(&mut node);
    assert_eq!(
        actions,
        vec![
            Action::Deliver { message_id: 88 },
            Action::Send {
                target: 2,
                message: gossip(0, 88, u64::MAX),
            },
            Action::Send {
                target: 2,
                message: ihave(0, 88, u64::MAX),
            },
        ]
    );
}

#[test]
fn repair_entry_keeps_the_advertised_round() {
    let mut node: Node<u64, u64> = Node::new(0);
    node.handle_neighbour_up(4);
    node.handle_tick();
    node.handle_tick();
    node.handle_tick();
    assert_eq!(node.clock(), 3);
    node.handle_message(ihave(4, 99, 5));
    node.handle_tick();
    let actions = drain(&mut node);
    assert_eq!(
        actions,
        vec![Action::Send {
            target: 4,
            message: graft(0, Some(99), 5),
        }]
    );
}

#[test]
fn three_node_line_broadcast() {
    // A line A(0) - B(1) - C(2); the broadcast enters A from a virtual
    // origin peer 9 that A already counts as eager.
    let mut a: Node<u64, u64> = Node::new(0);
    a.handle_neighbour_up(1);
    a.handle_neighbour_up(2);
    a.handle_neighbour_up(9);
    let mut b: Node<u64, u64> = Node::new(1);
    b.handle_neighbour_up(0);
    b.handle_neighbour_up(2);
    let mut c: Node<u64, u64> = Node::new(2);
    c.handle_neighbour_up(0);
    c.handle_neighbour_up(1);

    a.handle_message(gossip(9, 100, 0));
    let a_actions = drain(&mut a);
    assert_eq!(
        a_actions,
        vec![
            Action::Deliver { message_id: 100 },
            Action::Send {
                target: 1,
                message: gossip(0, 100, 1),
            },
            Action::Send {
                target: 2,
                message: gossip(0, 100, 1),
            },
            Action::Send {
                target: 1,
                message: ihave(0, 100, 1),
            },
            Action::Send {
                target: 2,
                message: ihave(0, 100, 1),
            },
        ]
    );

    // Route A's gossip into B and C: each delivers once and forwards
    // to the remaining peer.
    b.handle_message(gossip(0, 100, 1));
    let b_actions = drain(&mut b);
    assert_eq!(
        b_actions,
        vec![
            Action::Deliver { message_id: 100 },
            Action::Send {
                target: 2,
                message: gossip(1, 100, 2),
            },
            Action::Send {
                target: 2,
                message: ihave(1, 100, 2),
            },
        ]
    );
    c.handle_message(gossip(0, 100, 1));
    drain(&mut c);
    assert!(c.has_received(&100));

    // B's forward reaches C second: a duplicate, so C prunes B.
    c.handle_message(gossip(1, 100, 2));
    let c_actions = drain(&mut c);
    assert_eq!(
        c_actions,
        vec![Action::Send {
            target: 1,
            message: prune(2),
        }]
    );
    assert!(c.is_lazy_peer(&1));
}

#[test]
fn one_tick_drains_every_expired_entry() {
    let mut node: Node<u64, u64> = Node::new(0);
    node.handle_neighbour_up(6);
    node.handle_neighbour_up(7);
    node.handle_message(ihave(6, 60, 2));
    node.handle_message(ihave(7, 70, 4));
    node.handle_tick();
    let actions = drain(&mut node);
    assert_eq!(
        actions,
        vec![
            Action::Send {
                target: 6,
                message: graft(0, Some(60), 2),
            },
            Action::Send {
                target: 7,
                message: graft(0, Some(70), 4),
            },
        ]
    );
    assert!(node.is_eager_peer(&6));
    assert!(node.is_eager_peer(&7));
}

#[test]
fn shorter_advertised_path_is_grafted_and_gossip_path_pruned() {
    let mut node: Node<u64, u64> = Node::new(0);
    node.handle_neighbour_up(1);
    node.handle_neighbour_up(2);
    // Peer 2 advertised the message at round 0; the payload then
    // arrives from peer 1 at round 3, a detour of the full threshold.
    node.handle_message(ihave(2, 50, 0));
    node.handle_message(gossip(1, 50, 3));
    let actions = drain(&mut node);
    assert_eq!(
        actions,
        vec![
            Action::Deliver { message_id: 50 },
            Action::Send {
                target: 2,
                message: gossip(0, 50, 4),
            },
            Action::Send {
                target: 2,
                message: ihave(0, 50, 4),
            },
            Action::Send {
                target: 2,
                message: graft(0, None, 0),
            },
            Action::Send {
                target: 1,
                message: prune(0),
            },
        ]
    );
    // The arrival also resolved the repair entry: no Graft with the
    // message id follows on later ticks.
    node.handle_tick();
    node.handle_tick();
    assert!(drain(&mut node).is_empty());
}

#[test]
fn path_shorter_by_less_than_the_threshold_is_kept() {
    let mut node: Node<u64, u64> = Node::new(0);
    node.handle_neighbour_up(1);
    node.handle_neighbour_up(2);
    node.handle_message(ihave(2, 60, 1));
    node.handle_message(gossip(1, 60, 3));
    let actions = drain(&mut node);
    assert_eq!(
        actions,
        vec![
            Action::Deliver { message_id: 60 },
            Action::Send {
                target: 2,
                message: gossip(0, 60, 4),
            },
            Action::Send {
                target: 2,
                message: ihave(0, 60, 4),
            },
        ]
    );
}

#[test]
fn optimizer_uses_the_minimum_round_advertisement() {
    let mut node: Node<u64, u64> = Node::new(0);
    node.handle_neighbour_up(1);
    node.handle_neighbour_up(2);
    node.handle_neighbour_up(3);
    // Two advertisements for the same message: peer 3's is closer to
    // the origin, so the graft goes to peer 3 at its round.
    node.handle_message(ihave(2, 70, 2));
    node.handle_message(ihave(3, 70, 0));
    node.handle_message(gossip(1, 70, 5));
    let actions = drain(&mut node);
    assert_eq!(
        actions,
        vec![
            Action::Deliver { message_id: 70 },
            Action::Send {
                target: 2,
                message: gossip(0, 70, 6),
            },
            Action::Send {
                target: 3,
                message: gossip(0, 70, 6),
            },
            Action::Send {
                target: 2,
                message: ihave(0, 70, 6),
            },
            Action::Send {
                target: 3,
                message: ihave(0, 70, 6),
            },
            Action::Send {
                target: 3,
                message: graft(0, None, 0),
            },
            Action::Send {
                target: 1,
                message: prune(0),
            },
        ]
    );
}
