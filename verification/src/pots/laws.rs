//! Laws of the pot engine, proved from its model.

use crate::chips::count_in;
use crate::chips::lemma_sum_below_add;
use crate::chips::lemma_sum_below_bounds_term;
use crate::chips::lemma_sum_below_nonneg;
use crate::chips::lemma_sum_below_zero;
use crate::chips::seat_limit;
use crate::chips::sum_all;
use crate::chips::sum_below;
use crate::ordered::greatest_below;
use crate::ordered::is_greatest_below;
use crate::ordered::is_least_from;
use crate::ordered::least_from;
use crate::player::Player;
use crate::player::player_stack_of;
use crate::pots::error::PotError;
use crate::pots::invariants::PotOp;
use crate::pots::invariants::law_invariants_hold;
use crate::pots::invariants::run;
use crate::pots::invariants::seats_below;
use crate::pots::model::PotSlice;
use crate::pots::model::PotState;
use crate::pots::model::big_blind_seat;
use crate::pots::model::can_raise;
use crate::pots::model::pots_total;
use crate::pots::model::seat_pred;
use crate::pots::model::slices_finite;
use crate::pots::model::small_blind_seat;
use crate::pots::model::stack_of;
use crate::pots::model::total_stacks;
use crate::pots::no_limit_pot::lemma_pots_nonneg;
use crate::pots::showdown::all_contended;
use crate::pots::showdown::clockwise_rank;
use crate::pots::showdown::contenders;
use crate::pots::showdown::credited;
use crate::pots::showdown::lemma_no_win_no_pay;
use crate::pots::showdown::paid_out;
use crate::pots::showdown::payout;
use crate::pots::showdown::payouts;
use crate::pots::showdown::slice_share;
use crate::pots::showdown::winners;
use crate::pots::showdown::winners_are_seated;
use vstd::prelude::*;

verus! {

/// Seat `y` lies on the way round the table from seat `from` to seat `to`,
/// both included.
pub open spec fn on_the_way(from: usize, to: usize, y: usize) -> bool {
    if from <= to {
        from <= y <= to
    } else {
        y >= from || y <= to
    }
}

/// What each seat has put into the pot since `start`.
pub open spec fn paid_since(start: PotState, now: PotState) -> spec_fn(int) -> int {
    |k: int| stack_of(start.stacks_bets)(k) - stack_of(now.stacks_bets)(k)
}

/// Pot partition: at any moment of a hand, that is, after any operations on
/// a pot that began the hand without slices, the slices hold exactly what the
/// seats have paid out of their stacks since the hand began.
pub proof fn law_pot_partition(start: PotState, ops: Seq<PotOp>)
    requires
        start.wf(),
        start.pots.len() == 0,
    ensures
        pots_total(run(start, ops).pots) == sum_all(paid_since(start, run(start, ops))),
{
    let now = run(start, ops);
    law_invariants_hold(start, ops);
    lemma_sum_below_add(
        paid_since(start, now),
        stack_of(now.stacks_bets),
        stack_of(start.stacks_bets),
        seat_limit(),
    );
}

/// Chip conservation: whatever operations a hand is made of, the chips that
/// the entrants brought are in their stacks and in the slices. Nothing is
/// raked.
pub proof fn law_chip_conservation(start: PotState, ops: Seq<PotOp>)
    requires
        start.wf(),
        start.pots.len() == 0,
    ensures
        total_stacks(start.stacks_bets) == total_stacks(run(start, ops).stacks_bets) + pots_total(
            run(start, ops).pots,
        ),
{
    law_invariants_hold(start, ops);
}

/// Eligibility monotonicity: after any operations, a slice admits only seats
/// that every older slice admits.
pub proof fn law_eligibility_monotone(start: PotState, ops: Seq<PotOp>, i: int, j: int)
    requires
        start.wf(),
        0 <= i < j < run(start, ops).pots.len(),
    ensures
        run(start, ops).pots[j].eligible.subset_of(run(start, ops).pots[i].eligible),
{
    law_invariants_hold(start, ops);
}

/// Folding never admits a seat to a slice.
pub proof fn law_fold_only_removes(state: PotState, pos: usize, i: int)
    requires
        0 <= i < state.pots.len(),
    ensures
        state.after_fold(pos).pots.len() == state.pots.len(),
        state.after_fold(pos).pots[i].eligible.subset_of(state.pots[i].eligible),
        !state.after_fold(pos).pots[i].eligible.contains(pos),
        state.after_fold(pos).pots[i].amount == state.pots[i].amount,
{
}

/// Capped action: after seat `x` has gone all in for less than the minimum
/// raise, the minimum raise and the last legal raiser are as before, and every
/// seat on the way from the last legal raiser to `x` is refused a raise.
pub proof fn law_capped_action(state: PotState, x: usize, amount: u64, y: usize, raise: u64)
    requires
        state.has_seat(x),
        can_raise(state.largest_bet_idxes, x),
        state.is_short_all_in(x, amount),
        match state.after_bet_or_shove(x, amount).largest_bet_idxes {
            Some((_, llb)) => on_the_way(llb, x, y),
            None => false,
        },
    ensures
        state.bet_or_shove_result(x, amount) == Ok::<u64, PotError>(state.stacks_bets[x].0),
        state.after_bet_or_shove(x, amount).bet_diff == state.bet_diff,
        state.after_bet_or_shove(x, amount).largest_bet_idxes == Some(
            (
                x,
                match state.largest_bet_idxes {
                    Some((_, llb)) => llb,
                    None => x,
                },
            ),
        ),
        state.after_bet_or_shove(x, amount).bet_or_shove_result(y, raise) == Err::<u64, PotError>(
            PotError::CappedAction,
        ),
{
}

/// A legal raise reopens the action: every other seat may raise again, and
/// the raiser itself may not.
pub proof fn law_legal_raise_reopens(state: PotState, x: usize, amount: u64, y: usize)
    requires
        state.has_seat(x),
        can_raise(state.largest_bet_idxes, x),
        state.is_legal_raise(x, amount),
    ensures
        can_raise(state.after_bet_or_shove(x, amount).largest_bet_idxes, y) <==> y != x,
        state.after_bet_or_shove(x, amount).largest_bet == state.committed(x, amount),
        state.after_bet_or_shove(x, amount).bet_diff == state.committed(x, amount)
            - state.largest_bet,
{
}

/// Round closure: once the bets of a street have been collected the betting
/// starts afresh. Nothing is left to call, the minimum raise is the big blind,
/// no seat has a bet, every seat may raise, and a check commits nothing.
pub proof fn law_round_closure(state: PotState, pos: usize)
    requires
        state.wf(),
    ensures
        state.after_collect().largest_bet == 0,
        state.after_collect().bet_diff == state.bb_amt,
        state.after_collect().min_raise() == state.bb_amt,
        state.after_collect().largest_bet_idxes is None,
        state.after_collect().bet_sizes == Set::<u64>::empty(),
        can_raise(state.after_collect().largest_bet_idxes, pos),
        state.has_seat(pos) ==> state.after_collect().stacks_bets[pos].1 == 0,
        state.has_seat(pos) ==> state.after_collect().check_call_result(pos) == Ok::<
            u64,
            PotError,
        >(0),
        state.has_seat(pos) ==> state.after_collect().after_check_call(pos).stacks_bets[pos]
            == state.after_collect().stacks_bets[pos],
{
}

/// Odd-chip direction: among the winners of a slice, a seat that comes earlier
/// in the walk from the left of the button gets at least as much as one that
/// comes later, and at most one chip more; the chips left over after the equal
/// shares go to the first seats of that walk.
pub proof fn law_odd_chip_direction(
    slice: PotSlice,
    rankings: Map<usize, u64>,
    btn: usize,
    p: usize,
    q: usize,
)
    requires
        slice.amount > 0,
        slice.eligible.finite(),
        winners(slice, rankings).contains(p),
        winners(slice, rankings).contains(q),
        clockwise_rank(winners(slice, rankings), btn, p) <= clockwise_rank(
            winners(slice, rankings),
            btn,
            q,
        ),
    ensures
        slice_share(slice, rankings, btn, q) <= slice_share(slice, rankings, btn, p)
            <= slice_share(slice, rankings, btn, q) + 1,
        slice_share(slice, rankings, btn, p) == slice.amount / winners(
            slice,
            rankings,
        ).len() + 1 <==> clockwise_rank(winners(slice, rankings), btn, p) < slice.amount
            % winners(slice, rankings).len(),
{
    let w = winners(slice, rankings);
    vstd::set_lib::lemma_len_subset(w, slice.eligible);
    assert(w.len() > 0) by {
        if w.len() == 0 {
            w.lemma_len0_is_empty();
        }
    }
    assert(slice.amount / w.len() >= 0 && 0 <= slice.amount % w.len() < w.len())
        by (nonlinear_arith)
        requires
            w.len() > 0,
            slice.amount > 0,
    ;
}

/// The walk that hands out the odd chips starts at the seat directly to the
/// left of the button: no seat comes before it.
pub proof fn law_walk_starts_left_of_button(seats: Set<usize>, btn: usize)
    requires
        btn < usize::MAX,
    ensures
        clockwise_rank(seats, btn, (btn + 1) as usize) == 0,
{
    assert(count_in(seat_pred(seats), btn + 1, btn + 1) == 0);
}

/// Two seats above the button, or two seats not above it, come in the walk
/// in the order of their numbers; a seat above the button comes before any
/// seat that is not.
pub proof fn law_walk_order(seats: Set<usize>, btn: usize, p: usize, q: usize)
    requires
        seats.contains(p),
        seats.contains(q),
        p != q,
    ensures
        (p > btn && q <= btn) ==> clockwise_rank(seats, btn, p) < clockwise_rank(seats, btn, q),
        (p < q && (q <= btn || p > btn)) ==> clockwise_rank(seats, btn, p) < clockwise_rank(
            seats,
            btn,
            q,
        ),
{
    let pred = seat_pred(seats);
    assert(pred(p as int) && pred(q as int));
    if p > btn && q <= btn {
        crate::chips::lemma_count_split(pred, btn + 1, p as int, p + 1);
        crate::chips::lemma_count_split(pred, btn + 1, p + 1, seat_limit());
        crate::chips::lemma_count_bounds(pred, p + 1, seat_limit());
        crate::chips::lemma_count_bounds(pred, 0, q as int);
        assert(count_in(pred, p as int, p + 1) == 1) by {
            assert(count_in(pred, p as int, p as int) == 0);
        }
    }
    if p < q && (q <= btn || p > btn) {
        let lo = if p > btn {
            btn + 1
        } else {
            0
        };
        crate::chips::lemma_count_split(pred, lo, p as int, q as int);
        crate::chips::lemma_count_split(pred, p as int, p + 1, q as int);
        crate::chips::lemma_count_bounds(pred, p + 1, q as int);
        assert(count_in(pred, p as int, p + 1) == 1) by {
            assert(count_in(pred, p as int, p as int) == 0);
        }
    }
}

/// The entrants of a hand stay the same through every move and through the
/// end of every street.
pub proof fn law_entrants_stay(state: PotState, pos: usize, amount: u64, other: usize)
    ensures
        state.has_seat(pos) ==> state.with_bet(pos, amount).stacks_bets.dom()
            == state.stacks_bets.dom(),
        state.after_bet_or_shove(pos, amount).stacks_bets.dom() == state.stacks_bets.dom(),
        state.after_check_call(pos).stacks_bets.dom() == state.stacks_bets.dom(),
        state.after_fold(pos).stacks_bets.dom() == state.stacks_bets.dom(),
        state.after_collect().stacks_bets.dom() == state.stacks_bets.dom(),
        state.after_antes().stacks_bets.dom() == state.stacks_bets.dom(),
        state.has_seat(pos) && state.has_seat(other) ==> state.with_blinds(
            pos,
            other,
        ).stacks_bets.dom() == state.stacks_bets.dom(),
{
    if state.has_seat(pos) {
        assert(state.with_bet(pos, amount).stacks_bets.dom() =~= state.stacks_bets.dom());
        if state.has_seat(other) {
            let first = state.with_bet(pos, state.bb_amt);
            assert(first.stacks_bets.dom() =~= state.stacks_bets.dom());
            assert(first.with_bet(other, state.sb_amt).stacks_bets.dom()
                =~= state.stacks_bets.dom());
        }
    }
    assert(state.after_collect().stacks_bets.dom() =~= state.stacks_bets.dom());
    assert(state.with_antes().stacks_bets.dom() =~= state.stacks_bets.dom());
    assert(state.after_antes().stacks_bets.dom() =~= state.stacks_bets.dom());
    if state.has_seat(pos) {
        assert(state.with_bet(pos, state.largest_bet).stacks_bets.dom()
            =~= state.stacks_bets.dom());
    }
}

/// Where anybody has entered, entrants post the blinds.
pub proof fn lemma_blind_seats(seats: Set<usize>, bb_idx: usize, member: usize)
    requires
        seats.contains(member),
    ensures
        big_blind_seat(seats, bb_idx) is Some,
        small_blind_seat(seats, bb_idx) is Some,
        0 <= big_blind_seat(seats, bb_idx)->0 <= usize::MAX,
        0 <= small_blind_seat(seats, bb_idx)->0 <= usize::MAX,
        seats.contains(big_blind_seat(seats, bb_idx)->0 as usize),
        seats.contains(small_blind_seat(seats, bb_idx)->0 as usize),
{
    let pred = seat_pred(seats);
    assert(pred(member as int));
    if member >= bb_idx {
        crate::ordered::lemma_least_from_exists(pred, bb_idx as int, member as int);
    } else {
        crate::ordered::lemma_least_from_exists(pred, 0, member as int);
        if least_from(pred, bb_idx as int) is Some {
            let x = choose|x: int| is_least_from(pred, bb_idx as int, x);
        }
    }
    if member < bb_idx {
        lemma_greatest_below_exists(pred, bb_idx as int, member as int);
    } else {
        lemma_greatest_below_exists(pred, seat_limit(), member as int);
        if greatest_below(pred, bb_idx as int) is Some {
            let x = choose|x: int| is_greatest_below(pred, bb_idx as int, x);
        }
    }
}

/// Among numbers below a bound, any member gives a greatest one.
pub proof fn lemma_greatest_below_exists(p: spec_fn(int) -> bool, hi: int, x: int)
    requires
        p(x),
        x < hi,
    ensures
        greatest_below(p, hi) is Some,
        is_greatest_below(p, hi, greatest_below(p, hi)->0),
    decreases hi - x,
{
    if exists|y: int| #[trigger] p(y) && x < y < hi {
        let y = choose|y: int| #[trigger] p(y) && x < y < hi;
        lemma_greatest_below_exists(p, hi, y);
    } else {
        assert(is_greatest_below(p, hi, x));
    }
}

/// What each seat gets out of a slice.
pub open spec fn shares_of(
    slice: PotSlice,
    rankings: Map<usize, u64>,
    btn: usize,
) -> spec_fn(int) -> int {
    |k: int|
        if 0 <= k <= usize::MAX {
            slice_share(slice, rankings, btn, k as usize) as int
        } else {
            0
        }
}

/// `x`, but no less than nothing and no more than `most`.
pub open spec fn at_most(x: int, most: int) -> int {
    if x <= 0 {
        0
    } else if x <= most {
        x
    } else {
        most
    }
}

/// The members of a finite set of seats below a bound are as many as are
/// counted below it.
pub proof fn lemma_count_is_len(seats: Set<usize>, n: int)
    requires
        seats.finite(),
        0 <= n <= seat_limit(),
    ensures
        count_in(seat_pred(seats), 0, n) == seats_below(seats, n).len(),
    decreases n,
{
    vstd::set_lib::lemma_set_subset_finite(seats, seats_below(seats, n));
    if n == 0 {
        assert(seats_below(seats, 0) =~= Set::empty());
    } else {
        lemma_count_is_len(seats, n - 1);
        vstd::set_lib::lemma_set_subset_finite(seats, seats_below(seats, n - 1));
        let last = (n - 1) as usize;
        if seats.contains(last) {
            assert(seats_below(seats, n) =~= seats_below(seats, n - 1).insert(last));
        } else {
            assert(seats_below(seats, n) =~= seats_below(seats, n - 1));
        }
    }
}

/// Where each member of a range gets `equal` chips, and one more if fewer than
/// `left` places come before it, the places counted from `base` on, the range
/// gets `equal` for each member and the chips that are left for its places.
pub proof fn lemma_shares_in_range(
    f: spec_fn(int) -> int,
    p: spec_fn(int) -> bool,
    lo: int,
    hi: int,
    base: int,
    equal: int,
    left: int,
)
    requires
        0 <= lo <= hi,
        forall|k: int|
            lo <= k < hi ==> #[trigger] f(k) == if p(k) {
                equal + if base + count_in(p, lo, k) < left {
                    1int
                } else {
                    0int
                }
            } else {
                0int
            },
    ensures
        sum_below(f, hi) - sum_below(f, lo) == equal * count_in(p, lo, hi) + at_most(
            left - base,
            count_in(p, lo, hi),
        ),
    decreases hi - lo,
{
    if lo < hi {
        lemma_shares_in_range(f, p, lo, hi - 1, base, equal, left);
        let before = count_in(p, lo, hi - 1);
        crate::chips::lemma_count_bounds(p, lo, hi - 1);
        assert(equal * (before + 1) == equal * before + equal) by (nonlinear_arith);
    } else {
        assert(equal * 0 == 0);
    }
}

/// A slice is shared out in full: what its winners get adds up to the chips
/// in it.
pub proof fn law_slice_is_shared_out(
    slice: PotSlice,
    rankings: Map<usize, u64>,
    btn: usize,
)
    requires
        slice.eligible.finite(),
        slice.amount > 0,
        !winners(slice, rankings).is_empty(),
    ensures
        sum_all(shares_of(slice, rankings, btn)) == slice.amount,
{
    let w = winners(slice, rankings);
    let pred = seat_pred(w);
    let f = shares_of(slice, rankings, btn);
    vstd::set_lib::lemma_len_subset(w, slice.eligible);
    let n = w.len() as int;
    assert(n > 0) by {
        if w.len() == 0 {
            w.lemma_len0_is_empty();
        }
    }
    let equal = (slice.amount / w.len()) as int;
    let left = (slice.amount % w.len()) as int;
    assert(slice.amount == equal * n + left && 0 <= left < n) by (nonlinear_arith)
        requires
            n > 0,
            slice.amount > 0,
            equal == slice.amount as int / n,
            left == slice.amount as int % n,
    ;
    let above = count_in(pred, btn + 1, seat_limit());
    let below = count_in(pred, 0, btn + 1);
    lemma_count_is_len(w, seat_limit());
    assert(seats_below(w, seat_limit()) =~= w);
    crate::chips::lemma_count_split(pred, 0, btn + 1, seat_limit());
    crate::chips::lemma_count_bounds(pred, btn + 1, seat_limit());
    crate::chips::lemma_count_bounds(pred, 0, btn + 1);
    assert forall|k: int| btn + 1 <= k < seat_limit() implies #[trigger] f(k) == if pred(k) {
        equal + if 0 + count_in(pred, btn + 1, k) < left {
            1int
        } else {
            0int
        }
    } else {
        0int
    } by {}
    lemma_shares_in_range(f, pred, btn + 1, seat_limit(), 0, equal, left);
    assert forall|k: int| 0 <= k < btn + 1 implies #[trigger] f(k) == if pred(k) {
        equal + if above + count_in(pred, 0, k) < left {
            1int
        } else {
            0int
        }
    } else {
        0int
    } by {}
    lemma_shares_in_range(f, pred, 0, btn + 1, above, equal, left);
    assert(equal * (above + below) == equal * above + equal * below) by (nonlinear_arith);
}

/// What each seat gets out of all slices.
pub open spec fn payouts_of(
    pots: Seq<PotSlice>,
    rankings: Map<usize, u64>,
    btn: usize,
) -> spec_fn(int) -> int {
    |k: int|
        if 0 <= k <= usize::MAX {
            payout(pots, rankings, btn, k as usize) as int
        } else {
            0
        }
}

/// The showdown pays out what leaves the slices: the winnings of all seats
/// add up to the chips of the slices that somebody won.
pub proof fn law_showdown_pays_what_it_takes(
    pots: Seq<PotSlice>,
    rankings: Map<usize, u64>,
    btn: usize,
)
    requires
        slices_finite(pots),
    ensures
        sum_all(payouts_of(pots, rankings, btn)) + pots_total(
            paid_out(pots, rankings),
        ) == pots_total(pots),
    decreases pots.len(),
{
    let all = payouts_of(pots, rankings, btn);
    if pots.len() == 0 {
        lemma_sum_below_zero(all, seat_limit());
        assert(paid_out(pots, rankings) =~= pots);
    } else {
        let fewer = pots.drop_last();
        let last = pots.last();
        law_showdown_pays_what_it_takes(fewer, rankings, btn);
        assert(paid_out(pots, rankings).drop_last() =~= paid_out(
            fewer,
            rankings,
        ));
        let shares = shares_of(last, rankings, btn);
        lemma_sum_below_add(
            payouts_of(fewer, rankings, btn),
            shares,
            all,
            seat_limit(),
        );
        if last.amount > 0 && !winners(last, rankings).is_empty() {
            law_slice_is_shared_out(last, rankings, btn);
        } else {
            assert forall|k: int| 0 <= k < seat_limit() implies #[trigger] shares(k) == 0 by {
                if last.amount > 0 {
                    assert(!winners(last, rankings).contains(k as usize));
                }
            }
            lemma_sum_below_zero(shares, seat_limit());
        }
    }
}

/// Among finitely many ranked seats, one is ranked at least as high as all
/// the others.
pub proof fn lemma_some_seat_is_best(seats: Set<usize>, rankings: Map<usize, u64>)
    requires
        seats.finite(),
        !seats.is_empty(),
    ensures
        exists|p: usize|
            seats.contains(p) && forall|q: usize|
                seats.contains(q) ==> rankings[q] <= #[trigger] rankings[p],
    decreases seats.len(),
{
    let x = seats.choose();
    let rest = seats.remove(x);
    if rest.is_empty() {
        assert forall|q: usize| seats.contains(q) implies rankings[q] <= rankings[x] by {
            if q != x {
                assert(rest.contains(q));
            }
        }
    } else {
        lemma_some_seat_is_best(rest, rankings);
        let b = choose|p: usize|
            rest.contains(p) && forall|q: usize|
                rest.contains(q) ==> rankings[q] <= #[trigger] rankings[p];
        let best = if rankings[x] > rankings[b] {
            x
        } else {
            b
        };
        assert forall|q: usize| seats.contains(q) implies rankings[q] <= rankings[best] by {
            if q != x {
                assert(rest.contains(q));
            }
        }
    }
}

/// A slice for which a seat contends has a winner.
pub proof fn lemma_some_contender_wins(slice: PotSlice, rankings: Map<usize, u64>)
    requires
        slice.eligible.finite(),
        !contenders(slice, rankings).is_empty(),
    ensures
        !winners(slice, rankings).is_empty(),
{
    let seats = contenders(slice, rankings);
    vstd::set_lib::lemma_len_subset(seats, slice.eligible);
    lemma_some_seat_is_best(seats, rankings);
    let p = choose|p: usize|
        seats.contains(p) && forall|q: usize|
            seats.contains(q) ==> rankings[q] <= #[trigger] rankings[p];
    assert(winners(slice, rankings).contains(p));
}

/// Chip conservation at the showdown: where every slice that holds chips has
/// a seat that contends for it, the winnings of all seats add up to the chips
/// in the slices, and no chip stays behind.
pub proof fn law_showdown_pays_the_whole_pot(
    pots: Seq<PotSlice>,
    rankings: Map<usize, u64>,
    btn: usize,
)
    requires
        slices_finite(pots),
        all_contended(pots, rankings),
    ensures
        sum_all(payouts_of(pots, rankings, btn)) == pots_total(pots),
        pots_total(paid_out(pots, rankings)) == 0,
    decreases pots.len(),
{
    law_showdown_pays_what_it_takes(pots, rankings, btn);
    if pots.len() == 0 {
        assert(paid_out(pots, rankings) =~= pots);
    } else {
        let fewer = pots.drop_last();
        let last = pots.last();
        assert forall|i: int| 0 <= i < fewer.len() implies (
        #[trigger] fewer[i]).eligible.finite() && (fewer[i].amount > 0 ==> !contenders(
            fewer[i],
            rankings,
        ).is_empty()) by {
            assert(fewer[i] == pots[i]);
        }
        law_showdown_pays_what_it_takes(fewer, rankings, btn);
        law_showdown_pays_the_whole_pot(fewer, rankings, btn);
        assert(paid_out(pots, rankings).drop_last() =~= paid_out(fewer, rankings));
        assert(last == pots[pots.len() - 1]);
        if last.amount > 0 {
            lemma_some_contender_wins(last, rankings);
        }
        assert(paid_out(pots, rankings).last().amount == 0);
    }
}

/// The winnings reach the stacks: where every winner of a slice with chips in
/// it has a player, and the chips of the players and of the slices together
/// fit a chip count, the stacks of the players after the showdown add up to
/// what they were and the winnings of all seats.
pub proof fn law_winnings_reach_the_stacks(
    pots: Seq<PotSlice>,
    rankings: Map<usize, u64>,
    btn: usize,
    players: Map<usize, Player>,
)
    requires
        slices_finite(pots),
        winners_are_seated(pots, rankings, players.dom()),
        sum_all(player_stack_of(players)) + pots_total(pots) <= u64::MAX,
    ensures
        sum_all(player_stack_of(credited(players, payouts(pots, rankings, btn)))) == sum_all(
            player_stack_of(players),
        ) + sum_all(payouts_of(pots, rankings, btn)),
{
    let pay = payouts(pots, rankings, btn);
    let paid = payouts_of(pots, rankings, btn);
    let before = player_stack_of(players);
    let after = player_stack_of(credited(players, pay));
    law_showdown_pays_what_it_takes(pots, rankings, btn);
    lemma_pots_nonneg(paid_out(pots, rankings));
    assert forall|k: int| 0 <= k < seat_limit() implies #[trigger] paid(k) >= 0 && before(k)
        >= 0 by {}
    lemma_sum_below_nonneg(before, seat_limit());
    assert forall|k: int| 0 <= k < seat_limit() implies #[trigger] after(k) == before(k) + paid(
        k,
    ) by {
        lemma_sum_below_bounds_term(paid, k, seat_limit());
        lemma_sum_below_bounds_term(before, k, seat_limit());
        if !pay.contains_key(k as usize) {
            lemma_no_win_no_pay(pots, rankings, btn, k as usize);
        } else if !players.contains_key(k as usize) {
            let i = choose|i: int|
                0 <= i < pots.len() && (#[trigger] pots[i]).amount > 0 && winners(
                    pots[i],
                    rankings,
                ).contains(k as usize);
            assert(players.dom().contains(k as usize));
        }
    }
    lemma_sum_below_add(before, paid, after, seat_limit());
}

/// A pot of one slice goes to the winners of that slice and to nobody else:
/// each gets an equal share, and one chip more if its place in the walk from
/// the left of the button is below the number of chips left over.
pub proof fn law_single_slice_payout(
    slice: PotSlice,
    rankings: Map<usize, u64>,
    btn: usize,
    p: usize,
)
    requires
        0 < slice.amount <= u64::MAX,
        slice.eligible.finite(),
    ensures
        payouts(seq![slice], rankings, btn).contains_key(p) <==> winners(slice, rankings).contains(
            p,
        ),
        winners(slice, rankings).contains(p) ==> payouts(seq![slice], rankings, btn)[p]
            == slice.amount / winners(slice, rankings).len() + if clockwise_rank(
            winners(slice, rankings),
            btn,
            p,
        ) < slice.amount % winners(slice, rankings).len() {
            1nat
        } else {
            0nat
        },
{
    let pots = seq![slice];
    let w = winners(slice, rankings);
    assert(pots[0] == slice);
    assert(pots.drop_last() =~= Seq::<PotSlice>::empty());
    assert(payout(Seq::<PotSlice>::empty(), rankings, btn, p) == 0);
    assert(payout(pots, rankings, btn, p) == slice_share(slice, rankings, btn, p));
    if w.contains(p) {
        vstd::set_lib::lemma_len_subset(w, slice.eligible);
        assert(w.len() > 0) by {
            if w.len() == 0 {
                w.lemma_len0_is_empty();
            }
        }
        assert(slice.amount / w.len() + 1 <= slice.amount + 1 && slice.amount / w.len()
            <= slice.amount && (slice.amount % w.len() > 0 ==> slice.amount / w.len()
            < slice.amount || w.len() == 1)) by (nonlinear_arith)
            requires
                w.len() > 0,
                slice.amount > 0,
        ;
        if w.len() == 1 {
            assert(slice.amount % 1 == 0);
        }
        let pred = seat_pred(w);
        crate::chips::lemma_count_bounds(pred, btn + 1, p as int);
        crate::chips::lemma_count_bounds(pred, btn + 1, seat_limit());
        crate::chips::lemma_count_bounds(pred, 0, p as int);
    }
}

} // verus!
