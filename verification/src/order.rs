//! Numbers in ascending order.
//!
//! What is kept under hashed keys comes out in no order at all. A file that
//! is written from it should not depend on that, so its keys are sorted first.
use std::collections::{HashMap, HashSet};
use std::hash::Hash;
use vstd::prelude::*;
use vstd::relations::{sorted_by, total_ordering};
use vstd::seq_lib::lemma_sorted_unique;
use vstd::std_specs::hash::{obeys_key_model, spec_hash_keys_iter, spec_keys_iter};
use vstd::std_specs::iter::IteratorSpec;

verus! {

/// A number that can stand in a sorted list.
pub trait Ranked: Copy {
    /// The number as a mathematical integer.
    spec fn rank(self) -> int;

    /// Whether this number is the greater one.
    fn above(self, other: Self) -> (r: bool)
        ensures
            r == (self.rank() > other.rank()),
    ;

    /// No two numbers share a rank.
    proof fn lemma_rank(a: Self, b: Self)
        ensures
            a.rank() == b.rank() ==> a == b,
    ;
}

impl Ranked for u32 {
    open spec fn rank(self) -> int {
        self as int
    }

    fn above(self, other: Self) -> (r: bool) {
        self > other
    }

    proof fn lemma_rank(a: Self, b: Self) {
    }
}

impl Ranked for u64 {
    open spec fn rank(self) -> int {
        self as int
    }

    fn above(self, other: Self) -> (r: bool) {
        self > other
    }

    proof fn lemma_rank(a: Self, b: Self) {
    }
}

/// The ascending order of ranked numbers.
pub open spec fn ascending<K: Ranked>() -> spec_fn(K, K) -> bool {
    |a: K, b: K| a.rank() <= b.rank()
}

/// A list in ascending order. What occurs twice is kept twice.
pub open spec fn arranged<K: Ranked>(list: Seq<K>) -> Seq<K> {
    list.sort_by(ascending())
}

/// The elements of a set in ascending order.
pub open spec fn listing<K: Ranked>(elements: Set<K>) -> Seq<K> {
    arranged(elements.to_seq())
}

proof fn lemma_ascending<K: Ranked>()
    ensures
        total_ordering(ascending::<K>()),
{
    let leq = ascending::<K>();
    assert forall|a: K, b: K| #[trigger] leq(a, b) && #[trigger] leq(b, a) implies a == b by {
        K::lemma_rank(a, b);
    }
}

proof fn lemma_set_to_seq_no_duplicates<K>(elements: Set<K>)
    requires
        elements.finite(),
    ensures
        elements.to_seq().no_duplicates(),
        elements.to_seq().to_set() == elements,
    decreases elements.len(),
{
    elements.lemma_to_seq_to_set_id();
    if elements.len() > 0 {
        let x = elements.choose();
        let others = elements.remove(x);
        lemma_set_to_seq_no_duplicates(others);
        assert(!others.to_seq().contains(x)) by {
            assert(!others.to_seq().to_set().contains(x));
        }
        assert(elements.to_seq() =~= seq![x] + others.to_seq());
        assert forall|i: int, j: int|
            0 <= i < j < elements.to_seq().len() implies elements.to_seq()[i]
            != elements.to_seq()[j] by {
            assert(elements.to_seq()[j] == others.to_seq()[j - 1]);
            assert(others.to_seq().contains(others.to_seq()[j - 1]));
            if i > 0 {
                assert(elements.to_seq()[i] == others.to_seq()[i - 1]);
            }
        }
    }
}

proof fn lemma_same_members<K>(a: Seq<K>, b: Seq<K>)
    requires
        a.no_duplicates(),
        b.no_duplicates(),
        a.to_set() == b.to_set(),
    ensures
        a.to_multiset() == b.to_multiset(),
{
    broadcast use vstd::seq_lib::group_to_multiset_ensures;

    a.lemma_multiset_has_no_duplicates();
    b.lemma_multiset_has_no_duplicates();
    assert forall|x: K| a.to_multiset().count(x) == b.to_multiset().count(x) by {
        assert(a.contains(x) == a.to_set().contains(x));
        assert(b.contains(x) == b.to_set().contains(x));
        assert(a.contains(x) == (a.to_multiset().count(x) > 0));
        assert(b.contains(x) == (b.to_multiset().count(x) > 0));
        if a.contains(x) {
            assert(a.to_multiset().contains(x));
            assert(b.to_multiset().contains(x));
        }
    }
    assert(a.to_multiset() =~= b.to_multiset());
}

/// Any list of a set's elements, each once, comes out as the set's listing.
pub proof fn lemma_arranged_members<K: Ranked>(list: Seq<K>, elements: Set<K>)
    requires
        elements.finite(),
        list.no_duplicates(),
        list.to_set() == elements,
    ensures
        arranged(list) == listing(elements),
{
    let leq = ascending::<K>();
    let other = elements.to_seq();
    lemma_ascending::<K>();
    lemma_set_to_seq_no_duplicates(elements);
    lemma_same_members(list, other);
    list.lemma_sort_by_ensures(leq);
    other.lemma_sort_by_ensures(leq);
    lemma_sorted_unique(list.sort_by(leq), other.sort_by(leq), leq);
}

/// An arranged list holds what the list holds, as often, and ascends.
pub proof fn lemma_arranged<K: Ranked>(list: Seq<K>, x: K)
    ensures
        arranged(list).contains(x) <==> list.contains(x),
        arranged(list).len() == list.len(),
        forall|i: int, j: int|
            0 <= i < j < arranged(list).len() ==> (#[trigger] arranged(list)[i]).rank() <= (
            #[trigger] arranged(list)[j]).rank(),
{
    broadcast use vstd::seq_lib::group_to_multiset_ensures;

    let leq = ascending::<K>();
    let sorted = list.sort_by(leq);
    lemma_ascending::<K>();
    list.lemma_sort_by_ensures(leq);
    assert(sorted.to_multiset() == list.to_multiset());
    assert(sorted.contains(x) == (sorted.to_multiset().count(x) > 0));
    assert(list.contains(x) == (list.to_multiset().count(x) > 0));
    assert(sorted.len() == sorted.to_multiset().len());
    assert(list.len() == list.to_multiset().len());
    assert forall|i: int, j: int| 0 <= i < j < sorted.len() implies (#[trigger] sorted[i]).rank()
        <= (#[trigger] sorted[j]).rank() by {
        assert(leq(sorted[i], sorted[j]));
    }
}

/// What a filter leaves of a list is what it keeps, and no more.
pub proof fn lemma_filter_members<X>(list: Seq<X>, keep: spec_fn(X) -> bool, x: X)
    ensures
        list.filter(keep).contains(x) <==> list.contains(x) && keep(x),
        list.filter(keep).len() <= list.len(),
    decreases list.len(),
{
    reveal(Seq::filter);
    if list.len() > 0 {
        let shorter = list.drop_last();
        lemma_filter_members(shorter, keep, x);
        let (before, after) = (shorter.filter(keep), list.filter(keep));
        assert(after == if keep(list.last()) {
            before.push(list.last())
        } else {
            before
        });
        if list.contains(x) && keep(x) {
            let i = list.index_of(x);
            if i < shorter.len() {
                assert(shorter[i] == x);
                assert(after[before.index_of(x)] == x);
            } else {
                assert(after[after.len() - 1] == x);
            }
        }
        if after.contains(x) {
            let k = after.index_of(x);
            if k < before.len() {
                assert(before[k] == x);
                assert(list[shorter.index_of(x)] == x);
            } else {
                assert(list[list.len() - 1] == x);
            }
        }
    }
}

/// A listing holds a set's elements, each once, in strictly ascending order.
pub proof fn lemma_listing<K: Ranked>(elements: Set<K>)
    requires
        elements.finite(),
    ensures
        listing(elements).no_duplicates(),
        listing(elements).to_set() == elements,
        listing(elements).len() == elements.len(),
        forall|i: int, j: int|
            0 <= i < j < listing(elements).len() ==> (#[trigger] listing(elements)[i]).rank() < (
            #[trigger] listing(elements)[j]).rank(),
{
    broadcast use vstd::seq_lib::group_to_multiset_ensures;

    let leq = ascending::<K>();
    let list = elements.to_seq();
    let sorted = list.sort_by(leq);
    lemma_ascending::<K>();
    lemma_set_to_seq_no_duplicates(elements);
    list.lemma_sort_by_ensures(leq);
    list.lemma_multiset_has_no_duplicates();
    assert(sorted.to_multiset() == list.to_multiset());
    sorted.lemma_multiset_has_no_duplicates_conv();
    assert forall|x: K| sorted.contains(x) == elements.contains(x) by {
        assert(list.contains(x) == list.to_set().contains(x));
        assert(list.contains(x) == (list.to_multiset().count(x) > 0));
        assert(sorted.contains(x) == (sorted.to_multiset().count(x) > 0));
    }
    assert(sorted.to_set() =~= elements);
    sorted.unique_seq_to_set();
    assert forall|i: int, j: int| 0 <= i < j < sorted.len() implies (#[trigger] sorted[i]).rank()
        < (#[trigger] sorted[j]).rank() by {
        assert(leq(sorted[i], sorted[j]));
        K::lemma_rank(sorted[i], sorted[j]);
    }
}

/// Puts a number into a list that is in ascending order.
fn place<K: Ranked>(list: &mut Vec<K>, x: K)
    requires
        sorted_by(old(list)@, ascending()),
    ensures
        sorted_by(final(list)@, ascending()),
        final(list)@.to_multiset() == old(list)@.to_multiset().insert(x),
{
    broadcast use vstd::seq_lib::group_to_multiset_ensures;

    let ghost leq = ascending::<K>();
    let mut at: usize = list.len();
    while at > 0 && list[at - 1].above(x)
        invariant
            at <= list@.len(),
            list@ == old(list)@,
            forall|k: int| at <= k < list@.len() ==> (#[trigger] list@[k]).rank() > x.rank(),
        decreases at,
    {
        at -= 1;
    }
    assert forall|k: int| 0 <= k < at implies (#[trigger] list@[k]).rank() <= x.rank() by {
        if k < at - 1 {
            assert(leq(list@[k], list@[at - 1]));
        }
    }
    list.insert(at, x);
    assert forall|i: int, j: int| 0 <= i < j < list@.len() implies #[trigger] leq(
        list@[i],
        list@[j],
    ) by {
        let before = old(list)@;
        if i < at && j != at {
            let k = if j < at {
                j
            } else {
                j - 1
            };
            assert(leq(before[i], before[k]));
        } else if i > at {
            assert(leq(before[i - 1], before[j - 1]));
        }
    }
}

/// Sorts a list.
pub fn arrange<K: Ranked>(list: &Vec<K>) -> (r: Vec<K>)
    ensures
        r@ == arranged(list@),
{
    broadcast use vstd::seq_lib::group_to_multiset_ensures;

    let mut out: Vec<K> = Vec::new();
    for i in 0..list.len()
        invariant
            sorted_by(out@, ascending()),
            out@.to_multiset() == list@.take(i as int).to_multiset(),
    {
        place(&mut out, list[i]);
        proof {
            let done = list@.take(i as int);
            vstd::seq_lib::to_multiset_build(done, list@[i as int]);
            assert(list@.take(i + 1) =~= done.push(list@[i as int]));
        }
    }
    proof {
        assert(list@.take(list@.len() as int) =~= list@);
        lemma_ascending::<K>();
        list@.lemma_sort_by_ensures(ascending());
        lemma_sorted_unique(out@, arranged(list@), ascending());
    }
    out
}

/// The keys of a table, in ascending order.
pub(crate) fn keys_of<K: Ranked + Eq + Hash, V>(table: &HashMap<K, V>) -> (r: Vec<K>)
    requires
        obeys_key_model::<K>(),
    ensures
        r@ == listing(table@.dom()),
{
    broadcast use vstd::std_specs::hash::group_hash_axioms;

    let ghost all = spec_keys_iter(table).remaining();
    let mut keys: Vec<K> = Vec::new();
    for key in it: table.keys()
        invariant
            keys@ == it.seq().take(it.index()).unref(),
            it.seq() == all,
    {
        keys.push(*key);
        assert(keys@ =~= it.seq().take(it.index() + 1).unref());
    }
    proof {
        assert(keys@ =~= all.unref());
        lemma_arranged_members(keys@, table@.dom());
    }
    arrange(&keys)
}

/// The members of a set, in ascending order.
pub(crate) fn members_of<K: Ranked + Eq + Hash>(set: &HashSet<K>) -> (r: Vec<K>)
    requires
        obeys_key_model::<K>(),
    ensures
        r@ == listing(set@),
{
    broadcast use vstd::std_specs::hash::group_hash_axioms;

    let ghost all = spec_hash_keys_iter(set).remaining();
    let mut members: Vec<K> = Vec::new();
    for member in it: set.iter()
        invariant
            members@ == it.seq().take(it.index()).unref(),
            it.seq() == all,
    {
        members.push(*member);
        assert(members@ =~= it.seq().take(it.index() + 1).unref());
    }
    proof {
        assert(members@ =~= all.unref());
        lemma_arranged_members(members@, set@);
    }
    arrange(&members)
}

} // verus!
