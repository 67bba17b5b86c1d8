//! Per-node control logic of a Plumtree-style epidemic broadcast tree.
//!
//! A node keeps a set of eager-push peers (tree edges, full gossip is
//! forwarded) and a set of lazy-push peers (mesh edges, only `Ihave`
//! announcements travel), reacts to the four protocol messages
//! (`Gossip`, `Ihave`, `Graft`, `Prune`), and repairs broken tree links
//! with a logical-clock-driven missing-message tracker.  The automaton
//! is purely reactive: every event appends intents to an action queue
//! that the driver drains with `poll_action`.

pub mod action;
pub mod ident;
pub mod message;
pub mod missing;
pub mod node;
pub mod setvec;
