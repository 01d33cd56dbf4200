//! The mirror list: the voters in order, each with its reputation. It exists
//! for what the lookup table cannot give: an order, and a ranking.

use vstd::prelude::*;
use vstd::set_lib::{lemma_int_range, lemma_subset_equality, set_int_range};
use crate::account::AccountId;
use crate::types::Votermirror;

verus! {

/// No entry is followed by one of higher reputation.
pub open spec fn sorted_descending(s: Seq<Votermirror>) -> bool {
    forall|i: int, j: int|
        0 <= i < j < s.len() ==> (#[trigger] s[i]).reputation >= (#[trigger] s[j]).reputation
}

/// `t` holds the entries of `s` in another order: the entry at `i` in `t`
/// is the one that stood at `from[i]` in `s`, and no place of `s` is taken
/// twice.
pub open spec fn is_reordering(s: Seq<Votermirror>, t: Seq<Votermirror>, from: Seq<int>) -> bool {
    &&& from.len() == s.len()
    &&& t.len() == s.len()
    &&& from.no_duplicates()
    &&& forall|i: int| 0 <= i < from.len() ==> 0 <= #[trigger] from[i] < s.len()
    &&& forall|i: int| 0 <= i < t.len() ==> #[trigger] t[i] == s[from[i]]
}

/// Entries of equal reputation stand in `t` in the order they came from.
pub open spec fn keeps_order_of_ties(t: Seq<Votermirror>, from: Seq<int>) -> bool {
    forall|i: int, j: int|
        0 <= i < j < t.len() && (#[trigger] t[i]).reputation == (#[trigger] t[j]).reputation
            ==> from[i] < from[j]
}

/// `t` is `s` sorted by descending reputation, ties left in their order.
pub open spec fn stable_sorted_descending(s: Seq<Votermirror>, t: Seq<Votermirror>) -> bool {
    &&& sorted_descending(t)
    &&& exists|from: Seq<int>| is_reordering(s, t, from) && keeps_order_of_ties(t, from)
}

/// `r` is the highest reputation in the list.
pub open spec fn is_top_reputation(s: Seq<Votermirror>, r: int) -> bool {
    &&& exists|i: int| 0 <= i < s.len() && (#[trigger] s[i]).reputation == r
    &&& forall|i: int| 0 <= i < s.len() ==> (#[trigger] s[i]).reputation <= r
}

/// The first position at which the voter stands, if it stands anywhere.
pub open spec fn first_position(s: Seq<Votermirror>, id: AccountId) -> Option<int> {
    if exists|i: int| 0 <= i < s.len() && (#[trigger] s[i]).voter_id == id {
        Some(
            choose|i: int|
                0 <= i < s.len() && (#[trigger] s[i]).voter_id == id && forall|j: int|
                    0 <= j < i ==> (#[trigger] s[j]).voter_id != id,
        )
    } else {
        None
    }
}

/// A position that holds the voter, with no earlier one that does, is the
/// voter's first position.
pub proof fn lemma_first_position(s: Seq<Votermirror>, id: AccountId, i: int)
    requires
        0 <= i < s.len(),
        s[i].voter_id == id,
        forall|j: int| 0 <= j < i ==> (#[trigger] s[j]).voter_id != id,
    ensures
        first_position(s, id) == Some(i),
{
    let p = first_position(s, id)->0;
    if p < i {
        assert(s[p].voter_id != id);
    } else if i < p {
        assert(s[i].voter_id == id);
    }
}

/// A voter that stands anywhere in the list has a first position, and
/// stands there.
pub proof fn lemma_first_position_found(s: Seq<Votermirror>, id: AccountId, i: int)
    requires
        0 <= i < s.len(),
        s[i].voter_id == id,
    ensures
        first_position(s, id) is Some,
        0 <= first_position(s, id)->0 <= i,
        s[first_position(s, id)->0].voter_id == id,
        forall|j: int| 0 <= j < first_position(s, id)->0 ==> (#[trigger] s[j]).voter_id != id,
    decreases i,
{
    if exists|j: int| 0 <= j < i && (#[trigger] s[j]).voter_id == id {
        let j = choose|j: int| 0 <= j < i && (#[trigger] s[j]).voter_id == id;
        lemma_first_position_found(s, id, j);
    } else {
        lemma_first_position(s, id, i);
    }
}

/// A voter with a first position stands there, and nowhere before.
pub proof fn lemma_first_position_holds(s: Seq<Votermirror>, id: AccountId)
    requires
        first_position(s, id) is Some,
    ensures
        0 <= first_position(s, id)->0 < s.len(),
        s[first_position(s, id)->0].voter_id == id,
        forall|j: int| 0 <= j < first_position(s, id)->0 ==> (#[trigger] s[j]).voter_id != id,
{
    let i = choose|i: int| 0 <= i < s.len() && (#[trigger] s[i]).voter_id == id;
    lemma_first_position_found(s, id, i);
}

/// A reordering takes every place of the list it comes from: each entry of `s` stands
/// somewhere in `t`.
pub proof fn lemma_reordering_is_onto(
    s: Seq<Votermirror>,
    t: Seq<Votermirror>,
    from: Seq<int>,
    k: int,
)
    requires
        is_reordering(s, t, from),
        0 <= k < s.len(),
    ensures
        exists|i: int| 0 <= i < t.len() && from[i] == k && #[trigger] t[i] == s[k],
{
    let n = s.len() as int;
    from.unique_seq_to_set();
    lemma_int_range(0, n);
    assert(from.to_set().subset_of(set_int_range(0, n))) by {
        assert forall|x: int| from.to_set().contains(x) implies set_int_range(0, n).contains(
            x,
        ) by {
            let i = choose|i: int| 0 <= i < from.len() && from[i] == x;
            assert(0 <= from[i] < n);
        }
    }
    vstd::set_lib::lemma_len_subset(from.to_set(), set_int_range(0, n));
    lemma_subset_equality(from.to_set(), set_int_range(0, n));
    assert(set_int_range(0, n).contains(k));
    assert(from.to_set().contains(k));
    let i = choose|i: int| 0 <= i < from.len() && from[i] == k;
    assert(t[i] == s[from[i]]);
}

/// The place `a` of `s` goes before the place `b` when the list is sorted:
/// it holds the higher reputation, or the same and comes first.
spec fn ranks_before(s: Seq<Votermirror>, a: int, b: int) -> bool {
    s[a].reputation > s[b].reputation || (s[a].reputation == s[b].reputation && a < b)
}

/// In a sorted list that keeps ties in order, the places that the entries
/// came from follow one another by rank.
proof fn lemma_sorted_follows_rank(
    s: Seq<Votermirror>,
    t: Seq<Votermirror>,
    from: Seq<int>,
    i: int,
    j: int,
)
    requires
        is_reordering(s, t, from),
        keeps_order_of_ties(t, from),
        sorted_descending(t),
        0 <= i < j < t.len(),
    ensures
        ranks_before(s, from[i], from[j]),
{
    assert(t[i] == s[from[i]]);
    assert(t[j] == s[from[j]]);
    assert(t[i].reputation >= t[j].reputation);
}

/// Two sorted reorderings of one list that both keep ties in order take
/// each entry from the same place.
proof fn lemma_same_places(
    s: Seq<Votermirror>,
    t1: Seq<Votermirror>,
    from1: Seq<int>,
    t2: Seq<Votermirror>,
    from2: Seq<int>,
    i: int,
)
    requires
        is_reordering(s, t1, from1),
        keeps_order_of_ties(t1, from1),
        sorted_descending(t1),
        is_reordering(s, t2, from2),
        keeps_order_of_ties(t2, from2),
        sorted_descending(t2),
        0 <= i < s.len(),
    ensures
        from1[i] == from2[i],
    decreases i,
{
    let a = from1[i];
    let b = from2[i];
    if a != b {
        lemma_reordering_is_onto(s, t2, from2, a);
        let j2 = choose|j: int| 0 <= j < t2.len() && from2[j] == a && #[trigger] t2[j] == s[a];
        lemma_reordering_is_onto(s, t1, from1, b);
        let j1 = choose|j: int| 0 <= j < t1.len() && from1[j] == b && #[trigger] t1[j] == s[b];
        if j2 < i {
            lemma_same_places(s, t1, from1, t2, from2, j2);
            assert(from1[j2] == from1[i]);
        } else if j1 < i {
            lemma_same_places(s, t1, from1, t2, from2, j1);
            assert(from2[j1] == from2[i]);
        } else {
            lemma_sorted_follows_rank(s, t2, from2, i, j2);
            lemma_sorted_follows_rank(s, t1, from1, i, j1);
        }
    }
}

/// Sorting pins the result down: a list has one sorted reordering that
/// keeps ties in order.
pub proof fn lemma_stable_sort_is_unique(
    s: Seq<Votermirror>,
    t1: Seq<Votermirror>,
    t2: Seq<Votermirror>,
)
    requires
        stable_sorted_descending(s, t1),
        stable_sorted_descending(s, t2),
    ensures
        t1 == t2,
{
    let from1 = choose|from: Seq<int>| is_reordering(s, t1, from) && keeps_order_of_ties(t1, from);
    let from2 = choose|from: Seq<int>| is_reordering(s, t2, from) && keeps_order_of_ties(t2, from);
    assert forall|i: int| 0 <= i < t1.len() implies t1[i] == t2[i] by {
        lemma_same_places(s, t1, from1, t2, from2, i);
        assert(t1[i] == s[from1[i]]);
        assert(t2[i] == s[from2[i]]);
    }
    assert(t1 =~= t2);
}

/// The list sorted by descending reputation starts with the highest
/// reputation of the list.
pub proof fn lemma_sorted_starts_at_top(s: Seq<Votermirror>, t: Seq<Votermirror>)
    requires
        stable_sorted_descending(s, t),
        s.len() > 0,
    ensures
        is_top_reputation(s, t[0].reputation as int),
{
    let from = choose|from: Seq<int>| is_reordering(s, t, from) && keeps_order_of_ties(t, from);
    assert(t[0] == s[from[0]]);
    assert(s[from[0]].reputation == t[0].reputation);
    assert forall|k: int| 0 <= k < s.len() implies (#[trigger] s[k]).reputation
        <= t[0].reputation by {
        lemma_reordering_is_onto(s, t, from, k);
        let i = choose|i: int| 0 <= i < t.len() && from[i] == k && #[trigger] t[i] == s[k];
        if 0 < i {
            assert(t[0].reputation >= t[i].reputation);
        }
    }
}

/// The voters in order, each with the reputation held for it here.
pub struct VoterMirror {
    entries: Vec<Votermirror>,
}

impl View for VoterMirror {
    type V = Seq<Votermirror>;

    closed spec fn view(&self) -> Seq<Votermirror> {
        self.entries@
    }
}

impl VoterMirror {
    /// A list without entries.
    pub fn new() -> (mirror: Self)
        ensures
            mirror@ == Seq::<Votermirror>::empty(),
    {
        VoterMirror { entries: Vec::new() }
    }

    /// The list made of the given entries, in their order.
    pub fn from_entries(entries: Vec<Votermirror>) -> (mirror: Self)
        ensures
            mirror@ == entries@,
    {
        VoterMirror { entries }
    }

    /// The number of entries.
    pub fn len(&self) -> (n: usize)
        ensures
            n == self@.len(),
    {
        self.entries.len()
    }

    /// Adds the voter at the end, with reputation 0.
    pub fn append(&mut self, id: AccountId)
        ensures
            final(self)@ == old(self)@.push(Votermirror { voter_id: id, reputation: 0 }),
    {
        self.entries.push(Votermirror { voter_id: id, reputation: 0 });
    }

    /// The first position at which the voter stands, found by going through
    /// the list. Positions shift when an entry is removed or the list is
    /// sorted: a position is good until the next change only.
    pub fn index_of(&self, id: AccountId) -> (r: Option<usize>)
        ensures
            match r {
                Some(i) => {
                    &&& i < self@.len()
                    &&& self@[i as int].voter_id == id
                    &&& forall|j: int| 0 <= j < i ==> (#[trigger] self@[j]).voter_id != id
                },
                None => forall|j: int| 0 <= j < self@.len() ==> (#[trigger] self@[j]).voter_id != id,
            },
            r is Some <==> first_position(self@, id) is Some,
            r is Some ==> first_position(self@, id) == Some(r->0 as int),
    {
        let mut i: usize = 0;
        while i < self.entries.len()
            invariant
                i <= self.entries@.len(),
                forall|j: int| 0 <= j < i ==> (#[trigger] self.entries@[j]).voter_id != id,
            decreases self.entries@.len() - i,
        {
            if self.entries[i].voter_id == id {
                proof {
                    let p = first_position(self@, id)->0;
                    assert(self@[i as int].voter_id == id);
                    if p < i {
                        assert(self@[p].voter_id != id);
                    }
                }
                return Some(i);
            }
            i = i + 1;
        }
        None
    }

    /// The entry at a position.
    pub fn entry_at(&self, position: usize) -> (entry: Votermirror)
        requires
            position < self@.len(),
        ensures
            entry == self@[position as int],
    {
        self.entries[position]
    }

    /// Deletes the entry at a position; the entries behind it move up by one.
    pub fn remove_at(&mut self, position: usize)
        requires
            position < old(self)@.len(),
        ensures
            final(self)@ == old(self)@.remove(position as int),
    {
        self.entries.remove(position);
    }

    /// Sets the reputation of the entry at a position.
    pub fn update_reputation_at(&mut self, position: usize, value: i32)
        requires
            position < old(self)@.len(),
        ensures
            final(self)@ == old(self)@.update(
                position as int,
                Votermirror { voter_id: old(self)@[position as int].voter_id, reputation: value },
            ),
    {
        let voter_id = self.entries[position].voter_id;
        self.entries.set(position, Votermirror { voter_id, reputation: value });
    }

    /// The entries, copied out in their order.
    pub fn entries(&self) -> (out: Vec<Votermirror>)
        ensures
            out@ == self@,
    {
        let mut out: Vec<Votermirror> = Vec::new();
        let mut i: usize = 0;
        while i < self.entries.len()
            invariant
                i <= self.entries@.len(),
                out@ == self.entries@.subrange(0, i as int),
            decreases self.entries@.len() - i,
        {
            out.push(self.entries[i]);
            assert(out@ =~= self.entries@.subrange(0, i + 1));
            i = i + 1;
        }
        assert(out@ =~= self.entries@);
        out
    }

    /// Sorts the list by descending reputation. Entries of equal reputation
    /// keep the order they had.
    pub fn sort_descending_by_reputation(&mut self)
        ensures
            stable_sorted_descending(old(self)@, final(self)@),
    {
        let ghost s = self.entries@;
        let ghost mut from: Seq<int> = Seq::new(s.len(), |i: int| i);
        let n: usize = self.entries.len();
        let mut i: usize = 1;
        while i < n
            invariant
                n == self.entries@.len(),
                1 <= i,
                is_reordering(s, self.entries@, from),
                keeps_order_of_ties(self.entries@, from),
                forall|a: int, b: int|
                    0 <= a < b < i && b < n ==> (#[trigger] self.entries@[a]).reputation >= (
                    #[trigger] self.entries@[b]).reputation,
            decreases n - i,
        {
            let mut j: usize = i;
            while j > 0 && self.entries[j - 1].reputation < self.entries[j].reputation
                invariant
                    n == self.entries@.len(),
                    j <= i < n,
                    is_reordering(s, self.entries@, from),
                    keeps_order_of_ties(self.entries@, from),
                    forall|a: int, b: int|
                        0 <= a < b <= i && a != j && b != j ==> (
                        #[trigger] self.entries@[a]).reputation >= (
                        #[trigger] self.entries@[b]).reputation,
                    forall|b: int|
                        j < b <= i ==> self.entries@[j as int].reputation > (
                        #[trigger] self.entries@[b]).reputation,
                decreases j,
            {
                let ghost before = self.entries@;
                let ghost from_before = from;
                let lower = self.entries[j - 1];
                let upper = self.entries[j];
                self.entries.set(j - 1, upper);
                self.entries.set(j, lower);
                proof {
                    from = from_before.update(j - 1, from_before[j as int]).update(
                        j as int,
                        from_before[j - 1],
                    );
                    lemma_swap_keeps_reordering(s, before, from_before, j as int);
                    assert(self.entries@ =~= before.update(j - 1, before[j as int]).update(
                        j as int,
                        before[j - 1],
                    ));
                }
                j = j - 1;
            }
            i = i + 1;
        }
    }
}

/// Exchanging two neighbours of different reputation leaves a reordering a
/// reordering, and the order of ties as it was.
proof fn lemma_swap_keeps_reordering(
    s: Seq<Votermirror>,
    t: Seq<Votermirror>,
    from: Seq<int>,
    j: int,
)
    requires
        is_reordering(s, t, from),
        keeps_order_of_ties(t, from),
        0 < j < t.len(),
        t[j - 1].reputation != t[j].reputation,
    ensures
        is_reordering(
            s,
            t.update(j - 1, t[j]).update(j, t[j - 1]),
            from.update(j - 1, from[j]).update(j, from[j - 1]),
        ),
        keeps_order_of_ties(
            t.update(j - 1, t[j]).update(j, t[j - 1]),
            from.update(j - 1, from[j]).update(j, from[j - 1]),
        ),
{
    let t2 = t.update(j - 1, t[j]).update(j, t[j - 1]);
    let from2 = from.update(j - 1, from[j]).update(j, from[j - 1]);
    let swap = |a: int| if a == j - 1 { j } else if a == j { j - 1 } else { a };
    assert forall|a: int| 0 <= a < t.len() implies t2[a] == t[swap(a)] && from2[a] == from[swap(
        a,
    )] by {}
    assert forall|a: int, b: int| 0 <= a < from2.len() && 0 <= b < from2.len() && a != b implies from2[a] != from2[b] by {
        assert(from2[a] == from[swap(a)]);
        assert(from2[b] == from[swap(b)]);
        assert(swap(a) != swap(b));
    }
    assert forall|a: int| 0 <= a < from2.len() implies 0 <= #[trigger] from2[a] < s.len() by {
        assert(from2[a] == from[swap(a)]);
    }
    assert forall|a: int| 0 <= a < t2.len() implies #[trigger] t2[a] == s[from2[a]] by {
        assert(t2[a] == t[swap(a)]);
        assert(from2[a] == from[swap(a)]);
    }
    assert forall|a: int, b: int|
        0 <= a < b < t2.len() && (#[trigger] t2[a]).reputation == (
        #[trigger] t2[b]).reputation implies from2[a] < from2[b] by {
        let a0 = swap(a);
        let b0 = swap(b);
        assert(t2[a] == t[a0] && t2[b] == t[b0]);
        assert(from2[a] == from[a0] && from2[b] == from[b0]);
        if a == j - 1 && b == j {
            assert(t[j].reputation == t[j - 1].reputation);
        } else {
            assert(a0 < b0);
            assert(t[a0].reputation == t[b0].reputation);
        }
    }
}

} // verus!
