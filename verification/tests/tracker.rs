//! Unit tests for the missing-message tracker and the action queue.

use plumtree::action::{Action, ActionQueue};
use plumtree::message::{Message, PruneMessage};
use plumtree::missing::{MissingEntry, MissingMessages};

fn entry(message_id: u64, sender: u64, round: u64, deadline: u64) -> MissingEntry<u64, u64> {
    MissingEntry {
        message_id,
        sender,
        round,
        deadline,
    }
}

#[test]
fn tracker_starts_empty() {
    let tracker: MissingMessages<u64, u64> = MissingMessages::new();
    assert!(tracker.is_empty());
    assert!(!tracker.contains(&1));
    assert!(tracker.get_by_id(&1).is_none());
}

#[test]
fn entries_for_one_message_coexist_per_sender() {
    let mut tracker: MissingMessages<u64, u64> = MissingMessages::new();
    tracker.push(entry(1, 10, 5, 10));
    tracker.push(entry(1, 11, 3, 9));
    tracker.push(entry(2, 12, 1, 8));
    assert!(!tracker.is_empty());
    assert!(tracker.contains(&1));
    assert!(tracker.contains(&2));
    assert!(!tracker.contains(&3));
}

#[test]
fn get_by_id_returns_minimum_round() {
    let mut tracker: MissingMessages<u64, u64> = MissingMessages::new();
    tracker.push(entry(1, 10, 5, 10));
    tracker.push(entry(1, 11, 3, 9));
    tracker.push(entry(1, 12, 8, 8));
    assert_eq!(tracker.get_by_id(&1), Some(entry(1, 11, 3, 9)));
    assert_eq!(tracker.get_by_id(&2), None);
}

#[test]
fn get_by_id_breaks_round_ties_by_insertion_order() {
    let mut tracker: MissingMessages<u64, u64> = MissingMessages::new();
    tracker.push(entry(1, 10, 3, 10));
    tracker.push(entry(1, 11, 3, 9));
    assert_eq!(tracker.get_by_id(&1), Some(entry(1, 10, 3, 10)));
}

#[test]
fn cancel_timer_removes_every_entry_for_the_id() {
    let mut tracker: MissingMessages<u64, u64> = MissingMessages::new();
    tracker.push(entry(1, 10, 5, 10));
    tracker.push(entry(1, 11, 3, 9));
    tracker.push(entry(2, 12, 1, 8));
    tracker.cancel_timer(&1);
    assert!(!tracker.contains(&1));
    assert!(tracker.contains(&2));
    tracker.cancel_timer(&2);
    assert!(tracker.is_empty());
}

#[test]
fn node_down_removes_every_entry_of_the_sender() {
    let mut tracker: MissingMessages<u64, u64> = MissingMessages::new();
    tracker.push(entry(1, 10, 5, 10));
    tracker.push(entry(2, 10, 3, 9));
    tracker.push(entry(3, 11, 1, 8));
    tracker.handle_node_down(&10);
    assert!(!tracker.contains(&1));
    assert!(!tracker.contains(&2));
    assert!(tracker.contains(&3));
}

#[test]
fn pop_expired_drains_earliest_deadline_first() {
    let mut tracker: MissingMessages<u64, u64> = MissingMessages::new();
    tracker.push(entry(1, 10, 0, 5));
    tracker.push(entry(2, 11, 0, 3));
    tracker.push(entry(3, 12, 0, 5));
    tracker.push(entry(4, 13, 0, 7));
    assert_eq!(tracker.pop_expired(5), Some(entry(2, 11, 0, 3)));
    assert_eq!(tracker.pop_expired(5), Some(entry(1, 10, 0, 5)));
    assert_eq!(tracker.pop_expired(5), Some(entry(3, 12, 0, 5)));
    assert_eq!(tracker.pop_expired(5), None);
    assert_eq!(tracker.pop_expired(7), Some(entry(4, 13, 0, 7)));
    assert!(tracker.is_empty());
}

#[test]
fn action_queue_is_fifo() {
    let mut queue: ActionQueue<u64, u64> = ActionQueue::new();
    assert_eq!(queue.pop(), None);
    queue.deliver(1);
    queue.send(2, Message::Prune(PruneMessage { sender: 0 }));
    queue.deliver(3);
    assert_eq!(queue.pop(), Some(Action::Deliver { message_id: 1 }));
    assert_eq!(
        queue.pop(),
        Some(Action::Send {
            target: 2,
            message: Message::Prune(PruneMessage { sender: 0 }),
        })
    );
    assert_eq!(queue.pop(), Some(Action::Deliver { message_id: 3 }));
    assert_eq!(queue.pop(), None);
}
