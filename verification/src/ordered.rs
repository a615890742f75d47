//! Ordered traversal of the standard collections that hold seats and bet
//! sizes, and the least and greatest members of a set of numbers.

use std::collections::BTreeMap;
use std::collections::BTreeSet;
use std::collections::HashMap;
use std::collections::HashSet;
use vstd::prelude::*;
use vstd::std_specs::cmp::OrdSpec;
use vstd::std_specs::iter::IteratorSpec;

verus! {

/// `s` lists seat numbers in strictly increasing order.
pub open spec fn ascending_seats(s: Seq<usize>) -> bool {
    forall|i: int, j: int| 0 <= i < j < s.len() ==> s[i] < s[j]
}

/// `s` lists chip amounts in strictly increasing order.
pub open spec fn ascending_amounts(s: Seq<u64>) -> bool {
    forall|i: int, j: int| 0 <= i < j < s.len() ==> s[i] < s[j]
}

/// `x` is the least number that satisfies `p` and is at least `lo`.
pub open spec fn is_least_from(p: spec_fn(int) -> bool, lo: int, x: int) -> bool {
    &&& p(x)
    &&& lo <= x
    &&& forall|y: int| #[trigger] p(y) && lo <= y ==> x <= y
}

/// `x` is the greatest number that satisfies `p` and is below `hi`.
pub open spec fn is_greatest_below(p: spec_fn(int) -> bool, hi: int, x: int) -> bool {
    &&& p(x)
    &&& x < hi
    &&& forall|y: int| #[trigger] p(y) && y < hi ==> y <= x
}

/// The least number that satisfies `p` and is at least `lo`, if there is one.
pub open spec fn least_from(p: spec_fn(int) -> bool, lo: int) -> Option<int> {
    if exists|x: int| is_least_from(p, lo, x) {
        Some(choose|x: int| is_least_from(p, lo, x))
    } else {
        None
    }
}

/// The greatest number that satisfies `p` and is below `hi`, if there is one.
pub open spec fn greatest_below(p: spec_fn(int) -> bool, hi: int) -> Option<int> {
    if exists|x: int| is_greatest_below(p, hi, x) {
        Some(choose|x: int| is_greatest_below(p, hi, x))
    } else {
        None
    }
}

/// A least member, once exhibited, is the one `least_from` names.
pub proof fn lemma_least_from_is(p: spec_fn(int) -> bool, lo: int, x: int)
    requires
        is_least_from(p, lo, x),
    ensures
        least_from(p, lo) == Some(x),
{
    let y = choose|y: int| is_least_from(p, lo, y);
    assert(x <= y && y <= x);
}

/// What `least_from` names is a least member.
pub proof fn lemma_least_from_some(p: spec_fn(int) -> bool, lo: int)
    requires
        least_from(p, lo) is Some,
    ensures
        is_least_from(p, lo, least_from(p, lo)->0),
{
}

/// Where nothing at or above `lo` satisfies `p`, `least_from` names nothing.
pub proof fn lemma_least_from_none(p: spec_fn(int) -> bool, lo: int)
    requires
        forall|y: int| lo <= y ==> !#[trigger] p(y),
    ensures
        least_from(p, lo) is None,
{
}

/// A greatest member, once exhibited, is the one `greatest_below` names.
pub proof fn lemma_greatest_below_is(p: spec_fn(int) -> bool, hi: int, x: int)
    requires
        is_greatest_below(p, hi, x),
    ensures
        greatest_below(p, hi) == Some(x),
{
    let y = choose|y: int| is_greatest_below(p, hi, y);
    assert(x <= y && y <= x);
}

/// Where nothing below `hi` satisfies `p`, `greatest_below` names nothing.
pub proof fn lemma_greatest_below_none(p: spec_fn(int) -> bool, hi: int)
    requires
        forall|y: int| y < hi ==> !#[trigger] p(y),
    ensures
        greatest_below(p, hi) is None,
{
}

/// Among non-negative numbers, any member at or above `lo` gives a least one.
pub proof fn lemma_least_from_exists(p: spec_fn(int) -> bool, lo: int, x: int)
    requires
        p(x),
        0 <= lo <= x,
    ensures
        least_from(p, lo) is Some,
        is_least_from(p, lo, least_from(p, lo)->0),
    decreases x - lo,
{
    if exists|y: int| #[trigger] p(y) && lo <= y < x {
        let y = choose|y: int| #[trigger] p(y) && lo <= y < x;
        lemma_least_from_exists(p, lo, y);
    } else {
        assert(is_least_from(p, lo, x));
    }
}

/// The seats of a stack table, in increasing order.
pub fn seats_of(m: &BTreeMap<usize, (u64, u64)>) -> (v: Vec<usize>)
    ensures
        v@.to_set() == m@.dom(),
        v@.no_duplicates(),
        ascending_seats(v@),
{
    broadcast use vstd::laws_cmp::group_laws_cmp;

    let mut v: Vec<usize> = Vec::new();
    for k in it: m.keys()
        invariant
            it.seq() == m.keys().remaining(),
            v@.len() == it.index(),
            forall|i: int| 0 <= i < v@.len() ==> v@[i] == *it.seq()[i],
    {
        v.push(*k);
    }
    proof {
        let s = m.keys().remaining();
        assert(v@ =~= s.unref());
        assert(vstd::laws_cmp::obeys_cmp::<usize>());
        assert(vstd::laws_cmp::obeys_cmp::<&usize>());
        vstd::std_specs::btree::axiom_increasing_seq_meaning::<&usize>(s);
        assert forall|i: int, j: int| 0 <= i < j < v@.len() implies v@[i] < v@[j] by {
            assert(OrdSpec::cmp_spec(&s[i], &s[j]) is Less);
        }
    }
    v
}

/// The members of an ordered set of seats, in increasing order.
pub fn ordered_seats(m: &BTreeSet<usize>) -> (v: Vec<usize>)
    ensures
        v@.to_set() == m@,
        v@.no_duplicates(),
        ascending_seats(v@),
{
    broadcast use vstd::laws_cmp::group_laws_cmp;

    let mut v: Vec<usize> = Vec::new();
    for k in it: m.iter()
        invariant
            it.seq() == m.iter().remaining(),
            v@.len() == it.index(),
            forall|i: int| 0 <= i < v@.len() ==> v@[i] == *it.seq()[i],
    {
        v.push(*k);
    }
    proof {
        let s = m.iter().remaining();
        assert(v@ =~= s.unref());
        assert(vstd::laws_cmp::obeys_cmp::<usize>());
        assert(vstd::laws_cmp::obeys_cmp::<&usize>());
        vstd::std_specs::btree::axiom_increasing_seq_meaning::<&usize>(s);
        assert forall|i: int, j: int| 0 <= i < j < v@.len() implies v@[i] < v@[j] by {
            assert(OrdSpec::cmp_spec(&s[i], &s[j]) is Less);
        }
    }
    v
}

/// The members of a set of bet sizes, in increasing order.
pub fn amounts_of(m: &BTreeSet<u64>) -> (v: Vec<u64>)
    ensures
        v@.to_set() == m@,
        v@.no_duplicates(),
        ascending_amounts(v@),
{
    broadcast use vstd::laws_cmp::group_laws_cmp;

    let mut v: Vec<u64> = Vec::new();
    for k in it: m.iter()
        invariant
            it.seq() == m.iter().remaining(),
            v@.len() == it.index(),
            forall|i: int| 0 <= i < v@.len() ==> v@[i] == *it.seq()[i],
    {
        v.push(*k);
    }
    proof {
        let s = m.iter().remaining();
        assert(v@ =~= s.unref());
        assert(vstd::laws_cmp::obeys_cmp::<u64>());
        assert(vstd::laws_cmp::obeys_cmp::<&u64>());
        vstd::std_specs::btree::axiom_increasing_seq_meaning::<&u64>(s);
        assert forall|i: int, j: int| 0 <= i < j < v@.len() implies v@[i] < v@[j] by {
            assert(OrdSpec::cmp_spec(&s[i], &s[j]) is Less);
        }
    }
    v
}

/// Whether every amount of `a` is an amount of `b`.
pub fn amounts_within(a: &BTreeSet<u64>, b: &BTreeSet<u64>) -> (within: bool)
    ensures
        within == a@.subset_of(b@),
{
    broadcast use vstd::laws_cmp::group_laws_cmp;

    let v = amounts_of(a);
    let mut i: usize = 0;
    while i < v.len()
        invariant
            i <= v@.len(),
            v@.to_set() == a@,
            forall|j: int| 0 <= j < i ==> b@.contains(#[trigger] v@[j]),
        decreases v@.len() - i,
    {
        let amount = v[i];
        if !b.contains(&amount) {
            proof {
                assert(v@.contains(amount));
                assert(v@.to_set().contains(amount));
            }
            return false;
        }
        i += 1;
    }
    proof {
        assert forall|x: u64| a@.contains(x) implies b@.contains(x) by {
            assert(v@.to_set().contains(x));
        }
    }
    true
}

/// The members of a set of seats, in no particular order.
pub fn members_of(m: &HashSet<usize>) -> (v: Vec<usize>)
    ensures
        v@.to_set() == m@,
        v@.no_duplicates(),
{
    let mut v: Vec<usize> = Vec::new();
    for k in it: m.iter()
        invariant
            it.seq() == m.iter().remaining(),
            v@.len() == it.index(),
            forall|i: int| 0 <= i < v@.len() ==> v@[i] == *it.seq()[i],
    {
        v.push(*k);
    }
    proof {
        let s = m.iter().remaining();
        assert(v@ =~= s.unref());
    }
    v
}

/// `x` is one of the first `i` entries of `v`.
pub open spec fn among_first<T>(v: Seq<T>, i: int, x: T) -> bool {
    exists|j: int| 0 <= j < i && j < v.len() && v[j] == x
}

/// The seats that a map has an entry for, in no particular order.
pub fn seat_keys<V>(m: &HashMap<usize, V>) -> (v: Vec<usize>)
    ensures
        v@.to_set() == m@.dom(),
        v@.no_duplicates(),
{
    let mut v: Vec<usize> = Vec::new();
    for k in it: m.keys()
        invariant
            it.seq() == m.keys().remaining(),
            v@.len() == it.index(),
            forall|i: int| 0 <= i < v@.len() ==> v@[i] == *it.seq()[i],
    {
        v.push(*k);
    }
    proof {
        let s = m.keys().remaining();
        assert(v@ =~= s.unref());
    }
    v
}

/// Whether every member of `a` is a member of `b`.
pub fn is_subset(a: &HashSet<usize>, b: &HashSet<usize>) -> (within: bool)
    ensures
        within == a@.subset_of(b@),
{
    let v = members_of(a);
    let mut i: usize = 0;
    while i < v.len()
        invariant
            i <= v@.len(),
            v@.to_set() == a@,
            forall|j: int| 0 <= j < i ==> b@.contains(v@[j]),
        decreases v@.len() - i,
    {
        if !b.contains(&v[i]) {
            assert(a@.contains(v@[i as int])) by {
                assert(v@.to_set().contains(v@[i as int]));
            }
            return false;
        }
        i += 1;
    }
    proof {
        assert forall|x: usize| a@.contains(x) implies b@.contains(x) by {
            assert(v@.to_set().contains(x));
        }
    }
    true
}

/// The members of `a` that are not in `b`.
pub fn seats_without(a: &HashSet<usize>, b: &HashSet<usize>) -> (r: HashSet<usize>)
    ensures
        r@ == a@.difference(b@),
{
    let v = members_of(a);
    let mut r: HashSet<usize> = HashSet::new();
    let mut i: usize = 0;
    while i < v.len()
        invariant
            i <= v@.len(),
            forall|x: usize| r@.contains(x) <==> among_first(v@, i as int, x) && !b@.contains(x),
        decreases v@.len() - i,
    {
        if !b.contains(&v[i]) {
            r.insert(v[i]);
        }
        i += 1;
    }
    proof {
        assert forall|x: usize| r@.contains(x) <==> a@.difference(b@).contains(x) by {
            if a@.contains(x) {
                assert(v@.to_set().contains(x));
                assert(among_first(v@, i as int, x));
            }
            if r@.contains(x) {
                assert(v@.to_set().contains(x));
            }
        }
        assert(r@ =~= a@.difference(b@));
    }
    r
}

/// The seats of a stack table, as a set.
pub fn entrants_of(m: &BTreeMap<usize, (u64, u64)>) -> (r: HashSet<usize>)
    ensures
        r@ == m@.dom(),
{
    let v = seats_of(m);
    let mut r: HashSet<usize> = HashSet::new();
    let mut i: usize = 0;
    while i < v.len()
        invariant
            i <= v@.len(),
            forall|x: usize| r@.contains(x) <==> among_first(v@, i as int, x),
        decreases v@.len() - i,
    {
        r.insert(v[i]);
        i += 1;
    }
    proof {
        assert forall|x: usize| r@.contains(x) <==> m@.dom().contains(x) by {
            if m@.dom().contains(x) {
                assert(v@.to_set().contains(x));
            }
            if r@.contains(x) {
                assert(v@.to_set().contains(x));
            }
        }
        assert(r@ =~= m@.dom());
    }
    r
}

/// In an increasing list, what is below an entry is at most the entry before.
pub proof fn lemma_ascending_gap(v: Seq<u64>, i: int, x: u64)
    requires
        ascending_amounts(v),
        v.contains(x),
        0 <= i < v.len(),
        x < v[i],
    ensures
        i > 0,
        x <= v[i - 1],
{
    let j = choose|j: int| 0 <= j < v.len() && v[j] == x;
    if j >= i {
        if j > i {
            assert(v[i] < v[j]);
        }
    } else if j < i - 1 {
        assert(v[j] < v[i - 1]);
    }
}

} // verus!
