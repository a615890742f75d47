//! Who wins a slice and how its chips are shared out.

use crate::chips::count_in;
use crate::chips::lemma_count_none;
use crate::chips::lemma_count_split;
use crate::chips::lemma_sum_below_bounds_term;
use crate::chips::lemma_sum_below_update;
use crate::chips::seat_limit;
use crate::chips::sum_all;
use crate::ordered::among_first;
use crate::ordered::ascending_seats;
use crate::ordered::members_of;
use crate::ordered::ordered_seats;
use crate::player::Player;
use crate::player::player_stack_of;
use crate::pots::model::PotSlice;
use crate::pots::model::seat_pred;
use crate::pots::partial_pot::PartialPot;
use std::collections::BTreeSet;
use std::collections::HashMap;
use vstd::prelude::*;

verus! {

/// The seats that contend for a slice: those it admits that hold a ranked
/// hand.
pub open spec fn contenders(
    slice: PotSlice,
    rankings: Map<usize, u64>,
) -> Set<usize> {
    Set::new(
        |p: usize| slice.eligible.contains(p) && rankings.contains_key(p),
    )
}

/// The winners of a slice: the contenders that no contender outranks.
pub open spec fn winners(slice: PotSlice, rankings: Map<usize, u64>) -> Set<
    usize,
> {
    Set::new(
        |p: usize|
            contenders(slice, rankings).contains(p) && forall|q: usize|
                contenders(slice, rankings).contains(q) ==> rankings[q] <= rankings[p],
    )
}

/// Every seat that wins a slice with chips in it has a player at the table.
pub open spec fn winners_are_seated(
    pots: Seq<PotSlice>,
    rankings: Map<usize, u64>,
    seated: Set<usize>,
) -> bool {
    forall|i: int, p: usize|
        0 <= i < pots.len() && pots[i].amount > 0 && #[trigger] winners(
            pots[i],
            rankings,
        ).contains(p) ==> seated.contains(p)
}

/// Every slice that holds chips has a seat that contends for it.
pub open spec fn all_contended(pots: Seq<PotSlice>, rankings: Map<usize, u64>) -> bool {
    forall|i: int|
        0 <= i < pots.len() && (#[trigger] pots[i]).amount > 0 ==> !contenders(
            pots[i],
            rankings,
        ).is_empty()
}

/// The place of seat `p` in the walk round the table that starts at the seat
/// to the left of the button: the number of seats in `seats` that the walk
/// meets before `p`.
pub open spec fn clockwise_rank(seats: Set<usize>, btn: usize, p: usize) -> int {
    if p > btn {
        count_in(seat_pred(seats), btn + 1, p as int)
    } else {
        count_in(seat_pred(seats), btn + 1, seat_limit()) + count_in(seat_pred(seats), 0, p as int)
    }
}

/// What seat `p` gets out of a slice: nothing unless the slice holds chips and
/// `p` wins it; else an equal share, and one of the chips left over if `p` is
/// among the first winners in the walk from the left of the button.
pub open spec fn slice_share(
    slice: PotSlice,
    rankings: Map<usize, u64>,
    btn: usize,
    p: usize,
) -> nat {
    let w = winners(slice, rankings);
    if slice.amount > 0 && w.contains(p) {
        let odd_chip: nat = if clockwise_rank(w, btn, p) < slice.amount % w.len() {
            1
        } else {
            0
        };
        slice.amount / w.len() + odd_chip
    } else {
        0
    }
}

/// What seat `p` gets out of all slices.
pub open spec fn payout(
    pots: Seq<PotSlice>,
    rankings: Map<usize, u64>,
    btn: usize,
    p: usize,
) -> nat
    decreases pots.len(),
{
    if pots.len() == 0 {
        0
    } else {
        payout(pots.drop_last(), rankings, btn, p) + slice_share(
            pots.last(),
            rankings,
            btn,
            p,
        )
    }
}

/// Seat `p` wins one of the slices that hold chips.
pub open spec fn wins_some(
    pots: Seq<PotSlice>,
    rankings: Map<usize, u64>,
    p: usize,
) -> bool {
    exists|i: int|
        0 <= i < pots.len() && (#[trigger] pots[i]).amount > 0 && winners(
            pots[i],
            rankings,
        ).contains(p)
}

/// The winnings of every seat that wins a slice with chips in it.
pub open spec fn payouts(
    pots: Seq<PotSlice>,
    rankings: Map<usize, u64>,
    btn: usize,
) -> Map<usize, u64> {
    Map::new(
        |p: usize| wins_some(pots, rankings, p),
        |p: usize| payout(pots, rankings, btn, p) as u64,
    )
}

/// The slices after the showdown: those that somebody won are empty.
pub open spec fn paid_out(pots: Seq<PotSlice>, rankings: Map<usize, u64>) -> Seq<
    PotSlice,
> {
    Seq::new(
        pots.len(),
        |i: int|
            if winners(pots[i], rankings).is_empty() {
                pots[i]
            } else {
                PotSlice { amount: 0, eligible: pots[i].eligible }
            },
    )
}

/// The players after their winnings have been added to their stacks.
pub open spec fn credited(players: Map<usize, Player>, pay: Map<usize, u64>) -> Map<usize, Player> {
    Map::new(
        |k: usize| players.contains_key(k),
        |k: usize|
            if pay.contains_key(k) {
                players[k].with_stack((players[k].stack + pay[k]) as u64)
            } else {
                players[k]
            },
    )
}

/// The winnings at each seat, zero where there are none.
pub open spec fn winnings_of(pay: Map<usize, u64>) -> spec_fn(int) -> int {
    |k: int|
        if 0 <= k <= usize::MAX && pay.contains_key(k as usize) {
            pay[k as usize] as int
        } else {
            0
        }
}

/// What a seat gets out of the first `i + 1` slices is what it gets out of
/// the first `i` and out of the next one.
pub proof fn lemma_payout_step(
    pots: Seq<PotSlice>,
    rankings: Map<usize, u64>,
    btn: usize,
    i: int,
    p: usize,
)
    requires
        0 <= i < pots.len(),
    ensures
        payout(pots.take(i + 1), rankings, btn, p) == payout(
            pots.take(i),
            rankings,
            btn,
            p,
        ) + slice_share(pots[i], rankings, btn, p),
        wins_some(pots.take(i + 1), rankings, p) <==> wins_some(
            pots.take(i),
            rankings,
            p,
        ) || (pots[i].amount > 0 && winners(pots[i], rankings).contains(p)),
{
    let more = pots.take(i + 1);
    let fewer = pots.take(i);
    assert(more.drop_last() =~= fewer);
    assert(more.last() == pots[i]);
    if wins_some(more, rankings, p) {
        let k = choose|k: int|
            0 <= k < more.len() && (#[trigger] more[k]).amount > 0 && winners(
                more[k],
                rankings,
            ).contains(p);
        if k < i {
            assert(fewer[k] == more[k]);
        }
    }
    if wins_some(fewer, rankings, p) {
        let k = choose|k: int|
            0 <= k < fewer.len() && (#[trigger] fewer[k]).amount > 0 && winners(
                fewer[k],
                rankings,
            ).contains(p);
        assert(more[k] == fewer[k]);
    }
    if pots[i].amount > 0 && winners(pots[i], rankings).contains(p) {
        assert(more[i] == pots[i]);
    }
}

/// A seat that wins no slice with chips in it gets nothing.
pub proof fn lemma_no_win_no_pay(
    pots: Seq<PotSlice>,
    rankings: Map<usize, u64>,
    btn: usize,
    p: usize,
)
    requires
        !wins_some(pots, rankings, p),
    ensures
        payout(pots, rankings, btn, p) == 0,
    decreases pots.len(),
{
    if pots.len() > 0 {
        let fewer = pots.drop_last();
        assert(pots[pots.len() - 1] == pots.last());
        if wins_some(fewer, rankings, p) {
            let k = choose|k: int|
                0 <= k < fewer.len() && (#[trigger] fewer[k]).amount > 0 && winners(
                    fewer[k],
                    rankings,
                ).contains(p);
            assert(pots[k] == fewer[k]);
        }
        lemma_no_win_no_pay(fewer, rankings, btn, p);
    }
}

/// In an increasing list of the members of `seats`, the entries below `x` are
/// counted by the index at which `x` would stand.
pub proof fn lemma_count_below(order: Seq<usize>, seats: Set<usize>, j: int, x: int)
    requires
        ascending_seats(order),
        order.to_set() == seats,
        0 <= j <= order.len(),
        0 <= x <= seat_limit(),
        j > 0 ==> order[j - 1] < x,
        j < order.len() ==> x <= order[j],
    ensures
        count_in(seat_pred(seats), 0, x) == j,
    decreases j,
{
    let pred = seat_pred(seats);
    assert forall|y: int| #[trigger] pred(y) implies exists|k: int|
        0 <= k < order.len() && order[k] == y by {
        assert(order.to_set().contains(y as usize));
    }
    if j == 0 {
        assert forall|y: int| 0 <= y < x implies !#[trigger] pred(y) by {
            if pred(y) {
                let k = choose|k: int| 0 <= k < order.len() && order[k] == y;
                if k > 0 {
                    assert(order[0] < order[k]);
                }
            }
        }
        lemma_count_none(pred, 0, x);
    } else {
        let y = order[j - 1] as int;
        if j - 1 > 0 {
            assert(order[j - 2] < order[j - 1]);
        }
        lemma_count_below(order, seats, j - 1, y);
        lemma_count_split(pred, 0, y, x);
        lemma_count_split(pred, y, y + 1, x);
        assert(order.to_set().contains(order[j - 1]));
        assert(pred(y));
        assert(count_in(pred, y, y + 1) == 1) by {
            assert(count_in(pred, y, y) == 0);
        }
        assert forall|z: int| y + 1 <= z < x implies !#[trigger] pred(z) by {
            if pred(z) {
                let k = choose|k: int| 0 <= k < order.len() && order[k] == z;
                if k < j - 1 {
                    assert(order[k] < order[j - 1]);
                }
                if k > j {
                    assert(order[j] < order[k]);
                }
            }
        }
        lemma_count_none(pred, y + 1, x);
    }
}

/// The seats of an increasing list in the order of the walk round the table
/// that starts at the seat to the left of the button.
pub fn clockwise_from(order: &Vec<usize>, btn: usize) -> (walk: Vec<usize>)
    requires
        ascending_seats(order@),
    ensures
        walk@.len() == order@.len(),
        walk@.to_set() == order@.to_set(),
        walk@.no_duplicates(),
        forall|c: int|
            0 <= c < walk@.len() ==> clockwise_rank(order@.to_set(), btn, #[trigger] walk@[c])
                == c,
{
    let n: usize = order.len();
    let mut split: usize = 0;
    while split < n && order[split] <= btn
        invariant
            split <= n,
            n == order@.len(),
            forall|j: int| 0 <= j < split ==> order@[j] <= btn,
        decreases n - split,
    {
        split += 1;
    }
    let mut walk: Vec<usize> = Vec::new();
    let mut j: usize = split;
    while j < n
        invariant
            split <= j <= n,
            n == order@.len(),
            walk@.len() == j - split,
            forall|c: int| 0 <= c < walk@.len() ==> #[trigger] walk@[c] == order@[split + c],
        decreases n - j,
    {
        walk.push(order[j]);
        j += 1;
    }
    let mut j: usize = 0;
    while j < split
        invariant
            j <= split <= n,
            n == order@.len(),
            walk@.len() == n - split + j,
            forall|c: int| 0 <= c < n - split ==> #[trigger] walk@[c] == order@[split + c],
            forall|c: int|
                n - split <= c < walk@.len() ==> #[trigger] walk@[c] == order@[c - (n - split)],
        decreases split - j,
    {
        walk.push(order[j]);
        j += 1;
    }
    proof {
        let seats = order@.to_set();
        let pred = seat_pred(seats);
        let back = n - split;
        assert forall|a: int, b: int| 0 <= a < b < walk@.len() implies walk@[a] != walk@[b] by {
            let ia = if a < back {
                split + a
            } else {
                a - back
            };
            let ib = if b < back {
                split + b
            } else {
                b - back
            };
            if ia < ib {
                assert(order@[ia] < order@[ib]);
            } else {
                assert(order@[ib] < order@[ia]);
            }
        }
        assert forall|x: usize| walk@.to_set().contains(x) <==> seats.contains(x) by {
            if walk@.to_set().contains(x) {
                let c = choose|c: int| 0 <= c < walk@.len() && walk@[c] == x;
                let i = if c < back {
                    split + c
                } else {
                    c - back
                };
                assert(order@[i] == x);
            }
            if seats.contains(x) {
                let i = choose|i: int| 0 <= i < order@.len() && order@[i] == x;
                let c = if i >= split {
                    i - split
                } else {
                    i + back
                };
                assert(walk@[c] == x);
            }
        }
        assert(walk@.to_set() =~= seats);
        if split < n {
            assert(order@[split as int] > btn);
        }
        lemma_count_below(order@, seats, split as int, btn + 1);
        lemma_count_below(order@, seats, n as int, seat_limit());
        lemma_count_split(pred, 0, btn + 1, seat_limit());
        assert forall|c: int| 0 <= c < walk@.len() implies clockwise_rank(
            seats,
            btn,
            #[trigger] walk@[c],
        ) == c by {
            let i = if c < back {
                split + c
            } else {
                c - back
            };
            let x = order@[i];
            if i > 0 {
                assert(order@[i - 1] < order@[i]);
            }
            lemma_count_below(order@, seats, i, x as int);
            if c < back {
                if i > split {
                    assert(order@[split as int] < order@[i]);
                }
                lemma_count_split(pred, 0, btn + 1, x as int);
            }
        }
    }
    walk
}

/// The winners of a slice, in increasing order of seat.
pub fn slice_winners(
    slice: &PartialPot,
    rankings: &HashMap<usize, u64>,
) -> (order: Vec<usize>)
    ensures
        order@.to_set() == winners(slice@, rankings@),
        order@.no_duplicates(),
        ascending_seats(order@),
{
    let members = members_of(&slice.elegible_players);
    let ghost cont = contenders(slice@, rankings@);
    let mut best: Option<u64> = None;
    let mut i: usize = 0;
    while i < members.len()
        invariant
            i <= members@.len(),
            members@.to_set() == slice@.eligible,
            cont == contenders(slice@, rankings@),
            best is None ==> forall|p: usize| among_first(members@, i as int, p) ==> !cont.contains(p),
            best is Some ==> exists|p: usize|
                cont.contains(p) && #[trigger] rankings@[p] == best->0,
            best is Some ==> forall|p: usize|
                among_first(members@, i as int, p) && cont.contains(p) ==> #[trigger] rankings@[p]
                    <= best->0,
        decreases members@.len() - i,
    {
        let seat = members[i];
        proof {
            assert(members@.to_set().contains(seat));
            assert forall|p: usize| among_first(members@, i + 1, p) <==> among_first(
                members@,
                i as int,
                p,
            ) || p == seat by {}
        }
        match rankings.get(&seat) {
            Some(rank) => {
                let higher = match best {
                    Some(b) => *rank > b,
                    None => true,
                };
                if higher {
                    best = Some(*rank);
                }
            },
            None => {},
        }
        i += 1;
    }
    proof {
        assert forall|p: usize| cont.contains(p) implies among_first(members@, i as int, p) by {
            assert(members@.to_set().contains(p));
        }
    }
    let mut found: BTreeSet<usize> = BTreeSet::new();
    let mut i: usize = 0;
    while i < members.len()
        invariant
            i <= members@.len(),
            members@.to_set() == slice@.eligible,
            members@.no_duplicates(),
            cont == contenders(slice@, rankings@),
            forall|p: usize|
                #[trigger] found@.contains(p) <==> among_first(members@, i as int, p)
                    && cont.contains(p) && best == Some(rankings@[p]),
        decreases members@.len() - i,
    {
        let seat = members[i];
        let ghost before = found;
        proof {
            assert(members@.to_set().contains(seat));
            assert forall|p: usize| among_first(members@, i + 1, p) <==> among_first(
                members@,
                i as int,
                p,
            ) || p == seat by {}
        }
        match rankings.get(&seat) {
            Some(rank) => {
                let top = match best {
                    Some(b) => *rank == b,
                    None => false,
                };
                if top {
                    found.insert(seat);
                }
            },
            None => {},
        }
        proof {
            assert(cont.contains(seat) <==> rankings@.contains_key(seat));
            assert forall|p: usize| #[trigger]
                found@.contains(p) <==> among_first(members@, i + 1, p) && cont.contains(p)
                    && best == Some(rankings@[p]) by {
                if p == seat {
                    assert(!among_first(members@, i as int, seat));
                }
            }
        }
        i += 1;
    }
    proof {
        let w = winners(slice@, rankings@);
        assert forall|p: usize| found@.contains(p) <==> w.contains(p) by {
            if w.contains(p) {
                assert(cont.contains(p));
                assert(among_first(members@, i as int, p));
                let top = choose|t: usize| cont.contains(t) && #[trigger] rankings@[t] == best->0;
                assert(rankings@[top] <= rankings@[p]);
            }
        }
        assert(found@ =~= w);
    }
    ordered_seats(&found)
}

/// The share of the seat that stands at place `c` of the walk, where `n`
/// winners share `amount` chips.
pub open spec fn walk_share(n: int, amount: int, c: int) -> int {
    let odd_chip: int = if c < amount % n {
        1
    } else {
        0
    };
    amount / n + odd_chip
}

/// What the first `c` seats of the walk get together.
pub open spec fn walk_paid(n: int, amount: int, c: int) -> int {
    let odd_chips: int = if c < amount % n {
        c
    } else {
        amount % n
    };
    c * (amount / n) + odd_chips
}

/// The shares of a slice add up to the slice, and never to more on the way.
pub proof fn lemma_walk_paid(n: int, amount: int, c: int)
    requires
        0 < n,
        0 <= amount,
        0 <= c <= n,
    ensures
        0 <= walk_paid(n, amount, c) <= amount,
        walk_paid(n, amount, n) == amount,
        walk_paid(n, amount, 0) == 0,
        c < n ==> walk_paid(n, amount, c + 1) == walk_paid(n, amount, c) + walk_share(n, amount, c),
        0 <= walk_share(n, amount, c),
{
    let q = amount / n;
    let r = amount % n;
    assert(amount == q * n + r && 0 <= r < n && 0 <= q) by (nonlinear_arith)
        requires
            0 < n,
            0 <= amount,
            q == amount / n,
            r == amount % n,
    ;
    assert(c * q <= n * q && 0 <= c * q && n * q == q * n && (c + 1) * q == c * q + q)
        by (nonlinear_arith)
        requires
            0 <= c <= n,
            0 <= q,
    ;
}

/// Adds `share` chips to the stack of the player at `seat` and to its
/// winnings.
pub fn award(
    players: &mut HashMap<usize, Player>,
    pay: &mut HashMap<usize, u64>,
    seat: usize,
    share: u64,
)
    requires
        old(players)@.contains_key(seat),
        old(players)@[seat].stack + share <= u64::MAX,
        old(pay)@.contains_key(seat) ==> old(pay)@[seat] + share <= u64::MAX,
    ensures
        final(players)@ == old(players)@.insert(
            seat,
            old(players)@[seat].with_stack((old(players)@[seat].stack + share) as u64),
        ),
        final(pay)@ == old(pay)@.insert(
            seat,
            if old(pay)@.contains_key(seat) {
                (old(pay)@[seat] + share) as u64
            } else {
                share
            },
        ),
{
    let taken = players.remove(&seat);
    assert(taken is Some);
    let mut player = taken.unwrap();
    player.stack = player.stack + share;
    players.insert(seat, player);
    let so_far: u64 = match pay.get(&seat) {
        Some(won) => *won,
        None => 0,
    };
    pay.insert(seat, so_far + share);
    assert(final(players)@ =~= old(players)@.insert(
        seat,
        old(players)@[seat].with_stack((old(players)@[seat].stack + share) as u64),
    ));
}

/// Shares `amount` chips out among the seats of `walk`: each gets an equal
/// share, and the first ones in the walk one of the chips left over.
pub fn share_out(
    players: &mut HashMap<usize, Player>,
    pay: &mut HashMap<usize, u64>,
    walk: &Vec<usize>,
    amount: u64,
)
    requires
        walk@.len() > 0,
        walk@.no_duplicates(),
        forall|c: int| 0 <= c < walk@.len() ==> old(players)@.contains_key(#[trigger] walk@[c]),
        sum_all(player_stack_of(old(players)@)) + amount <= u64::MAX,
        sum_all(winnings_of(old(pay)@)) + amount <= u64::MAX,
    ensures
        final(players)@.dom() == old(players)@.dom(),
        forall|p: usize|
            old(players)@.contains_key(p) && !walk@.contains(p) ==> #[trigger] final(players)@[p]
                == old(players)@[p],
        forall|c: int|
            0 <= c < walk@.len() ==> final(players)@[#[trigger] walk@[c]] == old(
                players,
            )@[walk@[c]].with_stack(
                (old(players)@[walk@[c]].stack + walk_share(
                    walk@.len() as int,
                    amount as int,
                    c,
                )) as u64,
            ),
        forall|c: int|
            0 <= c < walk@.len() ==> old(players)@[#[trigger] walk@[c]].stack + walk_share(
                walk@.len() as int,
                amount as int,
                c,
            ) <= u64::MAX,
        forall|p: usize| #[trigger]
            final(pay)@.contains_key(p) <==> old(pay)@.contains_key(p) || walk@.contains(p),
        forall|p: usize|
            old(pay)@.contains_key(p) && !walk@.contains(p) ==> #[trigger] final(pay)@[p] == old(
                pay,
            )@[p],
        forall|c: int|
            0 <= c < walk@.len() ==> final(pay)@[#[trigger] walk@[c]] == winnings_of(old(pay)@)(
                walk@[c] as int,
            ) + walk_share(walk@.len() as int, amount as int, c),
        sum_all(player_stack_of(final(players)@)) == sum_all(player_stack_of(old(players)@))
            + amount,
        sum_all(winnings_of(final(pay)@)) == sum_all(winnings_of(old(pay)@)) + amount,
{
    let n: usize = walk.len();
    let q: u64 = amount / (n as u64);
    let r: u64 = amount % (n as u64);
    let ghost stacks0 = sum_all(player_stack_of(players@));
    let ghost won0 = sum_all(winnings_of(pay@));
    let mut c: usize = 0;
    proof {
        lemma_walk_paid(n as int, amount as int, 0);
    }
    while c < n
        invariant
            c <= n,
            n == walk@.len(),
            n > 0,
            q == amount / (n as u64),
            r == amount % (n as u64),
            walk@.no_duplicates(),
            forall|k: int| 0 <= k < n ==> old(players)@.contains_key(#[trigger] walk@[k]),
            players@.dom() == old(players)@.dom(),
            forall|p: usize|
                old(players)@.contains_key(p) && !among_first(walk@, c as int, p)
                    ==> #[trigger] players@[p] == old(players)@[p],
            forall|k: int|
                0 <= k < c ==> players@[#[trigger] walk@[k]] == old(players)@[walk@[k]].with_stack(
                    (old(players)@[walk@[k]].stack + walk_share(n as int, amount as int, k)) as u64,
                ),
            forall|k: int|
                0 <= k < c ==> old(players)@[#[trigger] walk@[k]].stack + walk_share(
                    n as int,
                    amount as int,
                    k,
                ) <= u64::MAX,
            forall|p: usize| #[trigger]
                pay@.contains_key(p) <==> old(pay)@.contains_key(p) || among_first(
                    walk@,
                    c as int,
                    p,
                ),
            forall|p: usize|
                old(pay)@.contains_key(p) && !among_first(walk@, c as int, p) ==> #[trigger] pay@[p]
                    == old(pay)@[p],
            forall|k: int|
                0 <= k < c ==> pay@[#[trigger] walk@[k]] == winnings_of(old(pay)@)(walk@[k] as int)
                    + walk_share(n as int, amount as int, k),
            stacks0 == sum_all(player_stack_of(old(players)@)),
            won0 == sum_all(winnings_of(old(pay)@)),
            sum_all(player_stack_of(players@)) == stacks0 + walk_paid(
                n as int,
                amount as int,
                c as int,
            ),
            sum_all(winnings_of(pay@)) == won0 + walk_paid(n as int, amount as int, c as int),
            stacks0 + amount <= u64::MAX,
            won0 + amount <= u64::MAX,
        decreases n - c,
    {
        let seat = walk[c];
        proof {
            lemma_walk_paid(n as int, amount as int, c as int);
            lemma_walk_paid(n as int, amount as int, c + 1);
        }
        let share: u64 = if (c as u64) < r {
            q + 1
        } else {
            q
        };
        let ghost players_before = players@;
        let ghost pay_before = pay@;
        proof {
            assert(share == walk_share(n as int, amount as int, c as int));
            assert(!among_first(walk@, c as int, seat));
            assert forall|k: int| 0 <= k < seat_limit() implies #[trigger] player_stack_of(
                players_before,
            )(k) >= 0 by {}
            assert forall|k: int| 0 <= k < seat_limit() implies #[trigger] winnings_of(pay_before)(
                k,
            ) >= 0 by {}
            lemma_sum_below_bounds_term(player_stack_of(players_before), seat as int, seat_limit());
            lemma_sum_below_bounds_term(winnings_of(pay_before), seat as int, seat_limit());
        }
        award(players, pay, seat, share);
        proof {
            lemma_sum_below_update(
                player_stack_of(players_before),
                player_stack_of(players@),
                seat as int,
                seat_limit(),
            );
            lemma_sum_below_update(
                winnings_of(pay_before),
                winnings_of(pay@),
                seat as int,
                seat_limit(),
            );
            assert forall|p: usize| among_first(walk@, c + 1, p) <==> among_first(
                walk@,
                c as int,
                p,
            ) || p == seat by {}
            assert(players@.dom() =~= old(players)@.dom());
            assert forall|k: int| 0 <= k < c implies walk@[k] != seat by {}
        }
        c += 1;
    }
    proof {
        lemma_walk_paid(n as int, amount as int, n as int);
        assert forall|p: usize| among_first(walk@, n as int, p) <==> walk@.contains(p) by {}
    }
}

} // verus!
