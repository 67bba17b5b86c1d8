use crate::ident::Identifier;
use vstd::prelude::*;

verus! {

/// An outstanding `Ihave` announcement that no matching `Gossip` has
/// resolved yet.  Several entries may exist for one `message_id`, one
/// per advertising peer, each with its own deadline.
#[derive(PartialEq, Eq, Debug)]
pub struct MissingEntry<N, M> {
    pub message_id: M,
    pub sender: N,
    pub round: u64,
    pub deadline: u64,
}

impl<N: Identifier, M: Identifier> MissingEntry<N, M> {
    /// Copies the entry.
    pub fn dup(&self) -> (r: Self)
        ensures
            r == *self,
    {
        MissingEntry {
            message_id: self.message_id.dup(),
            sender: self.sender.dup(),
            round: self.round,
            deadline: self.deadline,
        }
    }
}

/// True iff some entry for `id` is present.
pub open spec fn has_entry_for<N, M>(s: Seq<MissingEntry<N, M>>, id: M) -> bool {
    exists|i: int| 0 <= i < s.len() && s[i].message_id == id
}

/// The entries that survive cancelling every timer for `id`.
pub open spec fn entries_without_id<N, M>(s: Seq<MissingEntry<N, M>>, id: M) -> Seq<
    MissingEntry<N, M>,
> {
    s.filter(|e: MissingEntry<N, M>| e.message_id != id)
}

/// The entries that survive the departure of peer `p`.
pub open spec fn entries_without_sender<N, M>(s: Seq<MissingEntry<N, M>>, p: N) -> Seq<
    MissingEntry<N, M>,
> {
    s.filter(|e: MissingEntry<N, M>| e.sender != p)
}

/// The index of the entry `pop_expired` removes at clock value `now`:
/// among the entries whose deadline has passed, the one with the
/// earliest deadline, ties broken in favour of the earliest-inserted.
pub open spec fn expired_index<N, M>(s: Seq<MissingEntry<N, M>>, now: u64) -> Option<int>
    decreases s.len(),
{
    if s.len() == 0 {
        None
    } else {
        let prior = expired_index(s.drop_last(), now);
        let last = s.last();
        match prior {
            None => if last.deadline <= now {
                Some(s.len() - 1)
            } else {
                None
            },
            Some(i) => if last.deadline <= now && last.deadline < s[i].deadline {
                Some(s.len() - 1)
            } else {
                Some(i)
            },
        }
    }
}

/// The index of the entry `get_by_id` returns: among the entries for
/// `id`, the one with the minimum round, ties broken in favour of the
/// earliest-inserted.
pub open spec fn min_round_index<N, M>(s: Seq<MissingEntry<N, M>>, id: M) -> Option<int>
    decreases s.len(),
{
    if s.len() == 0 {
        None
    } else {
        let prior = min_round_index(s.drop_last(), id);
        let last = s.last();
        match prior {
            None => if last.message_id == id {
                Some(s.len() - 1)
            } else {
                None
            },
            Some(i) => if last.message_id == id && last.round < s[i].round {
                Some(s.len() - 1)
            } else {
                Some(i)
            },
        }
    }
}

/// What `expired_index` chooses: a present, expired entry with the
/// minimum deadline among the expired ones, the earliest inserted of
/// those; `None` exactly when nothing has expired.
pub proof fn lemma_expired_index_props<N, M>(s: Seq<MissingEntry<N, M>>, now: u64)
    ensures
        match expired_index(s, now) {
            None => forall|j: int| 0 <= j < s.len() ==> s[j].deadline > now,
            Some(i) => 0 <= i < s.len() && s[i].deadline <= now && (forall|j: int|
                0 <= j < s.len() && s[j].deadline <= now ==> s[i].deadline <= s[j].deadline) && (
            forall|j: int| 0 <= j < i ==> s[j].deadline > now || s[j].deadline > s[i].deadline),
        },
    decreases s.len(),
{
    if s.len() > 0 {
        lemma_expired_index_props(s.drop_last(), now);
        assert forall|j: int| 0 <= j < s.len() - 1 implies s.drop_last()[j] == s[j] by {}
    }
}

/// What `min_round_index` chooses: a present entry for `id` with the
/// minimum round, the earliest inserted of those; `None` exactly when
/// no entry for `id` exists.
pub proof fn lemma_min_round_index_props<N, M>(s: Seq<MissingEntry<N, M>>, id: M)
    ensures
        match min_round_index(s, id) {
            None => forall|j: int| 0 <= j < s.len() ==> s[j].message_id != id,
            Some(i) => 0 <= i < s.len() && s[i].message_id == id && (forall|j: int|
                0 <= j < s.len() && s[j].message_id == id ==> s[i].round <= s[j].round) && (
            forall|j: int| 0 <= j < i ==> s[j].message_id != id || s[j].round > s[i].round),
        },
    decreases s.len(),
{
    if s.len() > 0 {
        lemma_min_round_index_props(s.drop_last(), id);
        assert forall|j: int| 0 <= j < s.len() - 1 implies s.drop_last()[j] == s[j] by {}
    }
}

/// One step of the prefix recursion behind `expired_index`: used by the
/// scanning loop's invariant.
proof fn lemma_expired_index_step<N, M>(s: Seq<MissingEntry<N, M>>, now: u64, i: int)
    requires
        0 <= i < s.len(),
    ensures
        expired_index(s.take(i + 1), now) == ({
            match expired_index(s.take(i), now) {
                None => if s[i].deadline <= now {
                    Some(i)
                } else {
                    None::<int>
                },
                Some(b) => if s[i].deadline <= now && s[i].deadline < s[b].deadline {
                    Some(i)
                } else {
                    Some(b)
                },
            }
        }),
{
    lemma_expired_index_props(s.take(i), now);
    assert(s.take(i + 1).drop_last() =~= s.take(i));
    assert(s.take(i + 1).last() == s[i]);
}

/// One step of the prefix recursion behind `min_round_index`.
proof fn lemma_min_round_index_step<N, M>(s: Seq<MissingEntry<N, M>>, id: M, i: int)
    requires
        0 <= i < s.len(),
    ensures
        min_round_index(s.take(i + 1), id) == ({
            match min_round_index(s.take(i), id) {
                None => if s[i].message_id == id {
                    Some(i)
                } else {
                    None::<int>
                },
                Some(b) => if s[i].message_id == id && s[i].round < s[b].round {
                    Some(i)
                } else {
                    Some(b)
                },
            }
        }),
{
    lemma_min_round_index_props(s.take(i), id);
    assert(s.take(i + 1).drop_last() =~= s.take(i));
    assert(s.take(i + 1).last() == s[i]);
}

/// One step of the prefix recursion behind `entries_without_id`.
proof fn lemma_without_id_step<N, M>(s: Seq<MissingEntry<N, M>>, id: M, i: int)
    requires
        0 <= i < s.len(),
    ensures
        entries_without_id(s.take(i + 1), id) == (if s[i].message_id == id {
            entries_without_id(s.take(i), id)
        } else {
            entries_without_id(s.take(i), id).push(s[i])
        }),
{
    reveal_with_fuel(Seq::filter, 2);
    assert(s.take(i + 1).drop_last() =~= s.take(i));
    assert(s.take(i + 1).last() == s[i]);
}

/// One step of the prefix recursion behind `entries_without_sender`.
proof fn lemma_without_sender_step<N, M>(s: Seq<MissingEntry<N, M>>, p: N, i: int)
    requires
        0 <= i < s.len(),
    ensures
        entries_without_sender(s.take(i + 1), p) == (if s[i].sender == p {
            entries_without_sender(s.take(i), p)
        } else {
            entries_without_sender(s.take(i), p).push(s[i])
        }),
{
    reveal_with_fuel(Seq::filter, 2);
    assert(s.take(i + 1).drop_last() =~= s.take(i));
    assert(s.take(i + 1).last() == s[i]);
}

/// The registry of outstanding `Ihave`-based repair obligations, in
/// insertion order.
pub struct MissingMessages<N, M> {
    entries: Vec<MissingEntry<N, M>>,
}

impl<N, M> View for MissingMessages<N, M> {
    type V = Seq<MissingEntry<N, M>>;

    closed spec fn view(&self) -> Seq<MissingEntry<N, M>> {
        self.entries@
    }
}

impl<N: Identifier, M: Identifier> MissingMessages<N, M> {
    /// An empty registry.
    pub fn new() -> (r: Self)
        ensures
            r@ == Seq::<MissingEntry<N, M>>::empty(),
    {
        MissingMessages { entries: Vec::new() }
    }

    /// Registers a new entry; entries for the same message from other
    /// senders coexist independently.
    pub fn push(&mut self, e: MissingEntry<N, M>)
        ensures
            final(self)@ == old(self)@.push(e),
    {
        self.entries.push(e);
    }

    /// Removes and returns the expired entry chosen by
    /// `expired_index`, or `None` if no deadline has passed.  Repeated
    /// calls with the same `now` drain all expired entries one at a
    /// time, earliest deadline first, insertion order breaking ties.
    pub fn pop_expired(&mut self, now: u64) -> (r: Option<MissingEntry<N, M>>)
        ensures
            match expired_index(old(self)@, now) {
                None => r is None && final(self)@ == old(self)@,
                Some(i) => r == Some(old(self)@[i]) && final(self)@ == old(self)@.remove(i),
            },
    {
        let ghost s = self@;
        let mut best: Option<usize> = None;
        let mut i: usize = 0;
        proof {
            assert(s.take(0) =~= Seq::<MissingEntry<N, M>>::empty());
        }
        while i < self.entries.len()
            invariant
                i <= s.len(),
                self@ == s,
                match best {
                    None => expired_index(s.take(i as int), now) is None,
                    Some(b) => b < i && expired_index(s.take(i as int), now) == Some(b as int),
                },
            decreases s.len() - i,
        {
            proof {
                lemma_expired_index_step(s, now, i as int);
                lemma_expired_index_props(s.take(i as int), now);
            }
            let expired = self.entries[i].deadline <= now;
            match best {
                None => {
                    if expired {
                        best = Some(i);
                    }
                },
                Some(b) => {
                    if expired && self.entries[i].deadline < self.entries[b].deadline {
                        best = Some(i);
                    }
                },
            }
            i += 1;
        }
        proof {
            assert(s.take(s.len() as int) =~= s);
        }
        match best {
            None => None,
            Some(b) => {
                let e = self.entries.remove(b);
                Some(e)
            },
        }
    }

    /// Removes every entry for `message_id`: several peers may have
    /// advertised the same message, and a matching `Gossip` resolves
    /// them all.
    pub fn cancel_timer(&mut self, message_id: &M)
        ensures
            final(self)@ == entries_without_id(old(self)@, *message_id),
    {
        let ghost s = self@;
        let mut out: Vec<MissingEntry<N, M>> = Vec::new();
        proof {
            assert(s.take(0) =~= Seq::<MissingEntry<N, M>>::empty());
            assert(entries_without_id(s.take(0), *message_id) =~= Seq::<
                MissingEntry<N, M>,
            >::empty());
        }
        let mut i: usize = 0;
        while i < self.entries.len()
            invariant
                i <= s.len(),
                self@ == s,
                out@ == entries_without_id(s.take(i as int), *message_id),
            decreases s.len() - i,
        {
            if !self.entries[i].message_id.same(message_id) {
                out.push(self.entries[i].dup());
            }
            proof {
                lemma_without_id_step(s, *message_id, i as int);
            }
            i += 1;
        }
        proof {
            assert(s.take(s.len() as int) =~= s);
        }
        self.entries = out;
    }

    /// Removes every entry whose sender is the departed peer: a dead
    /// peer cannot satisfy a repair request.
    pub fn handle_node_down(&mut self, node_id: &N)
        ensures
            final(self)@ == entries_without_sender(old(self)@, *node_id),
    {
        let ghost s = self@;
        let mut out: Vec<MissingEntry<N, M>> = Vec::new();
        proof {
            assert(s.take(0) =~= Seq::<MissingEntry<N, M>>::empty());
            assert(entries_without_sender(s.take(0), *node_id) =~= Seq::<
                MissingEntry<N, M>,
            >::empty());
        }
        let mut i: usize = 0;
        while i < self.entries.len()
            invariant
                i <= s.len(),
                self@ == s,
                out@ == entries_without_sender(s.take(i as int), *node_id),
            decreases s.len() - i,
        {
            if !self.entries[i].sender.same(node_id) {
                out.push(self.entries[i].dup());
            }
            proof {
                lemma_without_sender_step(s, *node_id, i as int);
            }
            i += 1;
        }
        proof {
            assert(s.take(s.len() as int) =~= s);
        }
        self.entries = out;
    }

    /// True iff no entry is outstanding.
    pub fn is_empty(&self) -> (r: bool)
        ensures
            r == (self@.len() == 0),
    {
        self.entries.len() == 0
    }

    /// True iff some entry for `message_id` is outstanding.
    pub fn contains(&self, message_id: &M) -> (r: bool)
        ensures
            r == has_entry_for(self@, *message_id),
    {
        let mut i: usize = 0;
        while i < self.entries.len()
            invariant
                i <= self@.len(),
                forall|j: int| 0 <= j < i ==> self@[j].message_id != *message_id,
            decreases self@.len() - i,
        {
            if self.entries[i].message_id.same(message_id) {
                assert(has_entry_for(self@, *message_id)) by {
                    assert(self@[i as int].message_id == *message_id);
                }
                return true;
            }
            i += 1;
        }
        false
    }

    /// Returns a copy of the entry for `message_id` with the minimum
    /// round — the shortest known alternate path — or `None` if no
    /// entry for it exists.
    pub fn get_by_id(&self, message_id: &M) -> (r: Option<MissingEntry<N, M>>)
        ensures
            match min_round_index(self@, *message_id) {
                None => r is None,
                Some(i) => r == Some(self@[i]),
            },
    {
        let ghost s = self@;
        let mut best: Option<usize> = None;
        let mut i: usize = 0;
        proof {
            assert(s.take(0) =~= Seq::<MissingEntry<N, M>>::empty());
        }
        while i < self.entries.len()
            invariant
                i <= s.len(),
                self@ == s,
                match best {
                    None => min_round_index(s.take(i as int), *message_id) is None,
                    Some(b) => b < i && min_round_index(s.take(i as int), *message_id) == Some(
                        b as int,
                    ),
                },
            decreases s.len() - i,
        {
            proof {
                lemma_min_round_index_step(s, *message_id, i as int);
                lemma_min_round_index_props(s.take(i as int), *message_id);
            }
            let matches_id = self.entries[i].message_id.same(message_id);
            match best {
                None => {
                    if matches_id {
                        best = Some(i);
                    }
                },
                Some(b) => {
                    if matches_id && self.entries[i].round < self.entries[b].round {
                        best = Some(i);
                    }
                },
            }
            i += 1;
        }
        proof {
            assert(s.take(s.len() as int) =~= s);
        }
        match best {
            None => None,
            Some(b) => Some(self.entries[b].dup()),
        }
    }
}

} // verus!
