//! The order of the seats round the table.

use crate::ordered::among_first;
use crate::ordered::least_from;
use crate::ordered::lemma_least_from_is;
use crate::ordered::lemma_least_from_none;
use crate::pots::model::seat_pred;
use vstd::prelude::*;

verus! {

/// The first of `seats` that comes after `from`, going round the table. A
/// seat that is alone comes after itself.
pub open spec fn next_seat(seats: Set<usize>, from: usize) -> Option<usize> {
    match least_from(seat_pred(seats), from + 1) {
        Some(p) => Some(p as usize),
        None => match least_from(seat_pred(seats), 0) {
            Some(p) => Some(p as usize),
            None => None,
        },
    }
}

/// Going round the table from the seat after `from` up to `next`, one passes
/// `mark`. Going once round the whole table passes every seat.
pub open spec fn passes(from: usize, next: usize, mark: usize) -> bool {
    if from < next {
        from < mark <= next
    } else {
        mark > from || mark <= next
    }
}

/// The first of `seats` at or after `from`, going round the table.
pub open spec fn seat_from(seats: Set<usize>, from: int) -> Option<usize> {
    match least_from(seat_pred(seats), from) {
        Some(p) => Some(p as usize),
        None => match least_from(seat_pred(seats), 0) {
            Some(p) => Some(p as usize),
            None => None,
        },
    }
}

/// Whether one passes `mark` going round the table from the seat after `from`
/// up to `next`.
pub fn passes_mark(from: usize, next: usize, mark: usize) -> (passed: bool)
    ensures
        passed == passes(from, next, mark),
{
    if from < next {
        from < mark && mark <= next
    } else {
        mark > from || mark <= next
    }
}

/// The first of `seats` at or after `from`, going round the table.
pub fn first_from(seats: &Vec<usize>, from: usize) -> (next: Option<usize>)
    ensures
        next == seat_from(seats@.to_set(), from as int),
        next matches Some(p) ==> seats@.contains(p),
        next is None <==> seats@.len() == 0,
{
    let mut above: Option<usize> = None;
    let mut least: Option<usize> = None;
    let mut i: usize = 0;
    while i < seats.len()
        invariant
            i <= seats@.len(),
            above matches Some(a) ==> a >= from && among_first(seats@, i as int, a),
            least matches Some(m) ==> among_first(seats@, i as int, m),
            forall|j: int|
                0 <= j < i && seats@[j] >= from ==> above is Some && above->0 <= #[trigger] seats@[j],
            forall|j: int| 0 <= j < i ==> least is Some && least->0 <= #[trigger] seats@[j],
        decreases seats@.len() - i,
    {
        let seat = seats[i];
        proof {
            assert forall|p: usize| among_first(seats@, i as int, p) implies among_first(
                seats@,
                i + 1,
                p,
            ) by {}
            assert(among_first(seats@, i + 1, seat));
        }
        if seat >= from {
            let better = match above {
                Some(a) => seat < a,
                None => true,
            };
            if better {
                above = Some(seat);
            }
        }
        let lower = match least {
            Some(m) => seat < m,
            None => true,
        };
        if lower {
            least = Some(seat);
        }
        i += 1;
    }
    proof {
        let pred = seat_pred(seats@.to_set());
        assert forall|y: int| #[trigger] pred(y) implies exists|j: int|
            0 <= j < seats@.len() && seats@[j] == y by {
            assert(seats@.to_set().contains(y as usize));
        }
        match above {
            Some(a) => {
                assert(seats@.to_set().contains(a));
                assert(pred(a as int));
                assert forall|y: int| #[trigger] pred(y) && from <= y implies a <= y by {
                    let j = choose|j: int| 0 <= j < seats@.len() && seats@[j] == y;
                    assert(seats@[j] >= from);
                }
                lemma_least_from_is(pred, from as int, a as int);
            },
            None => {
                assert forall|y: int| from <= y implies !#[trigger] pred(y) by {
                    if pred(y) {
                        let j = choose|j: int| 0 <= j < seats@.len() && seats@[j] == y;
                        assert(seats@[j] >= from);
                    }
                }
                lemma_least_from_none(pred, from as int);
                match least {
                    Some(m) => {
                        assert(seats@.to_set().contains(m));
                        assert(pred(m as int));
                        assert forall|y: int| #[trigger] pred(y) && 0 <= y implies m <= y by {
                            let j = choose|j: int| 0 <= j < seats@.len() && seats@[j] == y;
                            assert(least->0 <= seats@[j]);
                        }
                        lemma_least_from_is(pred, 0, m as int);
                    },
                    None => {
                        assert forall|y: int| 0 <= y implies !#[trigger] pred(y) by {
                            if pred(y) {
                                let j = choose|j: int| 0 <= j < seats@.len() && seats@[j] == y;
                                assert(least is Some);
                            }
                        }
                        lemma_least_from_none(pred, 0);
                    },
                }
            },
        }
        if seats@.len() > 0 {
            assert(i == seats@.len());
            let first = seats@[0];
            assert(least is Some && least->0 <= first);
        }
    }
    match above {
        Some(a) => Some(a),
        None => least,
    }
}

/// The first of `seats` that comes after `from`, going round the table.
pub fn next_after(seats: &Vec<usize>, from: usize) -> (next: Option<usize>)
    ensures
        next == next_seat(seats@.to_set(), from),
        next matches Some(p) ==> seats@.contains(p),
        next is None <==> seats@.len() == 0,
{
    if from < usize::MAX {
        first_from(seats, from + 1)
    } else {
        proof {
            lemma_least_from_none(seat_pred(seats@.to_set()), from + 1);
        }
        first_from(seats, 0)
    }
}

/// A seat that is not alone comes after another seat, and a seat that is
/// alone after itself.
pub proof fn law_alone_comes_after_itself(seats: Set<usize>, p: usize)
    requires
        seats.contains(p),
    ensures
        next_seat(seats, p) is Some,
        next_seat(seats, p) == Some(p) <==> forall|q: usize| seats.contains(q) ==> q == p,
        seats.contains(next_seat(seats, p)->0),
{
    let pred = seat_pred(seats);
    assert(pred(p as int));
    if exists|q: int| #[trigger] pred(q) && q > p {
        let q = choose|q: int| #[trigger] pred(q) && q > p;
        crate::ordered::lemma_least_from_exists(pred, p + 1, q);
        let n = least_from(pred, p + 1)->0;
        assert(seats.contains(n as usize));
    } else {
        assert forall|y: int| p + 1 <= y implies !#[trigger] pred(y) by {}
        lemma_least_from_none(pred, p + 1);
        crate::ordered::lemma_least_from_exists(pred, 0, p as int);
        let n = least_from(pred, 0)->0;
        if n != p {
            assert(seats.contains(n as usize));
        }
        if forall|q: usize| seats.contains(q) ==> q == p {
            assert(seats.contains(n as usize));
        } else {
            let q = choose|q: usize| seats.contains(q) && q != p;
            assert(pred(q as int));
        }
    }
}

} // verus!
