use crate::ident::Identifier;
use vstd::prelude::*;

verus! {

/// The peer-role sets and the received-message record are kept as
/// duplicate-free vectors in insertion order, so that the order in
/// which pushes iterate the peers is deterministic.  This module gives
/// the three set operations on such vectors together with the sequence
/// lemmas the automaton's proofs need.

/// `s` with `x` appended, unless `s` already holds it: inserting into a
/// set kept as a duplicate-free sequence.
pub open spec fn seq_insert_elem<T>(s: Seq<T>, x: T) -> Seq<T> {
    if s.contains(x) {
        s
    } else {
        s.push(x)
    }
}

/// `s` with every occurrence of `x` removed, order preserved.
pub open spec fn seq_remove_elem<T>(s: Seq<T>, x: T) -> Seq<T> {
    s.filter(|y: T| y != x)
}

/// Membership in a pushed sequence is membership in the original or
/// equality with the new element.
pub proof fn lemma_push_contains<T>(s: Seq<T>, e: T)
    ensures
        forall|y: T| #[trigger] s.push(e).contains(y) <==> (s.contains(y) || y == e),
{
    assert forall|y: T| #[trigger] s.push(e).contains(y) implies (s.contains(y) || y == e) by {
        if y != e {
            let i = choose|i: int| 0 <= i < s.push(e).len() && s.push(e)[i] == y;
            assert(s[i] == y);
        }
    };
    assert forall|y: T| (s.contains(y) || y == e) implies #[trigger] s.push(e).contains(y) by {
        if s.contains(y) {
            let i = choose|i: int| 0 <= i < s.len() && s[i] == y;
            assert(s.push(e)[i] == y);
        } else {
            assert(s.push(e)[s.len() as int] == y);
        }
    };
}

/// Inserting keeps freedom from duplicates and adds exactly `x` to the
/// members.
pub proof fn lemma_seq_insert_elem_props<T>(s: Seq<T>, x: T)
    ensures
        forall|y: T| #[trigger] seq_insert_elem(s, x).contains(y) <==> (s.contains(y) || y == x),
        s.no_duplicates() ==> seq_insert_elem(s, x).no_duplicates(),
{
    lemma_push_contains(s, x);
    if !s.contains(x) && s.no_duplicates() {
        assert forall|i: int, j: int|
            0 <= i < s.push(x).len() && 0 <= j < s.push(x).len() && i != j implies s.push(x)[i]
            != s.push(x)[j] by {
            if i < s.len() && j < s.len() {
            } else if i < s.len() {
                assert(s[i] == s.push(x)[i]);
                assert(s.push(x)[j] == x);
                if s[i] == x {
                    assert(s.contains(x));
                }
            } else {
                assert(s[j] == s.push(x)[j]);
                assert(s.push(x)[i] == x);
                if s[j] == x {
                    assert(s.contains(x));
                }
            }
        };
        assert(s.push(x).no_duplicates());
    }
}

/// One step of the prefix recursion behind `seq_remove_elem`: used by
/// the removal loop's invariant.
pub proof fn lemma_seq_remove_elem_step<T>(s: Seq<T>, x: T, i: int)
    requires
        0 <= i < s.len(),
    ensures
        seq_remove_elem(s.take(i + 1), x) == (if s[i] == x {
            seq_remove_elem(s.take(i), x)
        } else {
            seq_remove_elem(s.take(i), x).push(s[i])
        }),
{
    reveal_with_fuel(Seq::filter, 2);
    let pre = s.take(i + 1);
    assert(pre.drop_last() =~= s.take(i));
    assert(pre.last() == s[i]);
}

/// Removal keeps freedom from duplicates, takes out exactly the
/// occurrences of `x`, and leaves every other member in place.
pub proof fn lemma_seq_remove_elem_props<T>(s: Seq<T>, x: T)
    ensures
        forall|y: T| #[trigger] seq_remove_elem(s, x).contains(y) <==> (s.contains(y) && y != x),
        s.no_duplicates() ==> seq_remove_elem(s, x).no_duplicates(),
    decreases s.len(),
{
    if s.len() == 0 {
        assert(seq_remove_elem(s, x) =~= s);
    } else {
        reveal_with_fuel(Seq::filter, 2);
        let rest = s.drop_last();
        let last = s.last();
        lemma_seq_remove_elem_props(rest, x);
        lemma_push_contains(rest, last);
        assert(s =~= rest.push(last));
        assert(seq_remove_elem(s, x) == (if last != x {
            seq_remove_elem(rest, x).push(last)
        } else {
            seq_remove_elem(rest, x)
        }));
        if last != x {
            lemma_push_contains(seq_remove_elem(rest, x), last);
            if s.no_duplicates() {
                assert(rest.no_duplicates());
                assert(!rest.contains(last));
                assert(!seq_remove_elem(rest, x).contains(last));
                let out = seq_remove_elem(rest, x).push(last);
                assert forall|i: int, j: int|
                    0 <= i < out.len() && 0 <= j < out.len() && i != j implies out[i] != out[j] by {
                    let inner = seq_remove_elem(rest, x);
                    if i < inner.len() && j < inner.len() {
                        assert(out[i] == inner[i]);
                        assert(out[j] == inner[j]);
                    } else if i < inner.len() {
                        assert(out[j] == last);
                        if inner[i] == last {
                            assert(inner.contains(last));
                        }
                    } else {
                        assert(out[i] == last);
                        if inner[j] == last {
                            assert(inner.contains(last));
                        }
                    }
                };
            }
        } else {
            if s.no_duplicates() {
                assert(rest.no_duplicates());
            }
        }
    }
}

/// Decides membership of `x` in the vector.
pub fn vec_set_contains<T: Identifier>(v: &Vec<T>, x: &T) -> (r: bool)
    ensures
        r == v@.contains(*x),
{
    let mut i: usize = 0;
    while i < v.len()
        invariant
            i <= v@.len(),
            forall|j: int| 0 <= j < i ==> v@[j] != *x,
        decreases v@.len() - i,
    {
        if v[i].same(x) {
            assert(v@.contains(*x)) by {
                assert(v@[i as int] == *x);
            }
            return true;
        }
        i += 1;
    }
    false
}

/// Adds `x` to the vector unless it is already a member.
pub fn vec_set_insert<T: Identifier>(v: &mut Vec<T>, x: T)
    ensures
        final(v)@ == seq_insert_elem(old(v)@, x),
{
    if !vec_set_contains(v, &x) {
        v.push(x);
    }
}

/// Removes every occurrence of `x` from the vector, keeping the order
/// of the rest.
pub fn vec_set_remove<T: Identifier>(v: &mut Vec<T>, x: &T)
    ensures
        final(v)@ == seq_remove_elem(old(v)@, *x),
{
    let ghost s = v@;
    let mut out: Vec<T> = Vec::new();
    proof {
        assert(s.take(0) =~= Seq::<T>::empty());
        assert(seq_remove_elem(s.take(0), *x) =~= Seq::<T>::empty());
    }
    let mut i: usize = 0;
    while i < v.len()
        invariant
            i <= v@.len(),
            v@ == s,
            out@ == seq_remove_elem(s.take(i as int), *x),
        decreases v@.len() - i,
    {
        if !v[i].same(x) {
            out.push(v[i].dup());
        }
        proof {
            lemma_seq_remove_elem_step(s, *x, i as int);
        }
        i += 1;
    }
    proof {
        assert(s.take(s.len() as int) =~= s);
    }
    *v = out;
}

} // verus!
