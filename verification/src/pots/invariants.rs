//! The invariants of the pot engine: every operation keeps a well-formed pot
//! well formed and moves no chip in or out of it.

use crate::chips::lemma_sum_below_add;
use crate::chips::lemma_sum_below_agree;
use crate::chips::lemma_sum_below_zero;
use crate::chips::seat_limit;
use crate::chips::sum_all;
use crate::chips::sum_below;
use crate::ordered::lemma_least_from_exists;
use crate::ordered::lemma_least_from_some;
use crate::pots::laws::law_entrants_stay;
use crate::pots::laws::lemma_blind_seats;
use crate::pots::model::PotSlice;
use crate::pots::model::PotState;
use crate::pots::model::big_blind_seat;
use crate::pots::model::collect_layer;
use crate::pots::model::collect_layers;
use crate::pots::model::eligibility_nested;
use crate::pots::model::next_size;
use crate::pots::model::nonzero_bets;
use crate::pots::model::out_of_chips;
use crate::pots::model::paying;
use crate::pots::model::pots_total;
use crate::pots::model::size_pred;
use crate::pots::model::slices_finite;
use crate::pots::model::small_blind_seat;
use crate::pots::model::stack_of;
use crate::pots::model::total_stacks;
use crate::pots::no_limit_pot::lemma_bet_keeps_stacks;
use crate::pots::no_limit_pot::lemma_pots_total_by_amounts;
use vstd::prelude::*;

verus! {

/// An operation of the pot engine on a hand in play.
pub enum PotOp {
    SetBet { pos: usize, amount: u64 },
    PostBlinds { bb_pos: usize, sb_pos: usize },
    PayAntes,
    PostBeforeDeal { bb_idx: usize },
    BetOrShove { pos: usize, amount: u64 },
    CheckCall { pos: usize },
    Fold { pos: usize },
    CollectBets,
}

/// The state after an operation. An operation that is refused leaves the
/// state as it was.
pub open spec fn apply(state: PotState, op: PotOp) -> PotState {
    match op {
        PotOp::SetBet { pos, amount } => if state.has_seat(pos) {
            state.with_bet(pos, amount)
        } else {
            state
        },
        PotOp::PostBlinds { bb_pos, sb_pos } => if state.has_seat(bb_pos) && state.has_seat(
            sb_pos,
        ) {
            state.with_blinds(bb_pos, sb_pos)
        } else {
            state
        },
        PotOp::PayAntes => state.after_antes(),
        PotOp::PostBeforeDeal { bb_idx } => state.after_post_before_deal(bb_idx),
        PotOp::BetOrShove { pos, amount } => state.after_bet_or_shove(pos, amount),
        PotOp::CheckCall { pos } => state.after_check_call(pos),
        PotOp::Fold { pos } => state.after_fold(pos),
        PotOp::CollectBets => state.after_collect(),
    }
}

/// The state after a sequence of operations.
pub open spec fn run(state: PotState, ops: Seq<PotOp>) -> PotState
    decreases ops.len(),
{
    if ops.len() == 0 {
        state
    } else {
        apply(run(state, ops.drop_last()), ops.last())
    }
}

/// What each seat has still to pay of its bet once the bets have been
/// collected up to `level` chips.
pub open spec fn owed_above(m: Map<usize, (u64, u64)>, level: int) -> spec_fn(int) -> int {
    |k: int|
        if 0 <= k <= usize::MAX && m.contains_key(k as usize) && m[k as usize].1 > level {
            m[k as usize].1 - level
        } else {
            0
        }
}

/// `amount` for each seat in `seats`, nothing for the others.
pub open spec fn each_pays(seats: Set<usize>, amount: int) -> spec_fn(int) -> int {
    |k: int|
        if 0 <= k <= usize::MAX && seats.contains(k as usize) {
            amount
        } else {
            0
        }
}

/// The members of `seats` below `n`.
pub open spec fn seats_below(seats: Set<usize>, n: int) -> Set<usize> {
    Set::new(|k: usize| seats.contains(k) && k < n)
}

/// Where each of finitely many seats pays the same, the sum is that amount
/// times their number.
pub proof fn lemma_each_pays(seats: Set<usize>, amount: int, n: int)
    requires
        seats.finite(),
        0 <= n <= seat_limit(),
    ensures
        seats_below(seats, n).finite(),
        sum_below(each_pays(seats, amount), n) == amount * seats_below(seats, n).len(),
    decreases n,
{
    let f = each_pays(seats, amount);
    vstd::set_lib::lemma_set_subset_finite(seats, seats_below(seats, n));
    if n == 0 {
        assert(seats_below(seats, 0) =~= Set::empty());
        assert(amount * 0 == 0);
    } else {
        lemma_each_pays(seats, amount, n - 1);
        let fewer = seats_below(seats, n - 1);
        let more = seats_below(seats, n);
        let last = (n - 1) as usize;
        if seats.contains(last) {
            assert(more =~= fewer.insert(last));
            assert(amount * (fewer.len() + 1) == amount * fewer.len() + amount)
                by (nonlinear_arith);
        } else {
            assert(more =~= fewer);
        }
    }
}

/// The chips in the slices once a slice has been added.
pub proof fn lemma_pots_total_push(pots: Seq<PotSlice>, slice: PotSlice)
    ensures
        pots_total(pots.push(slice)) == pots_total(pots) + slice.amount,
{
    assert(pots.push(slice).drop_last() =~= pots);
}

/// One layer of bets adds to the slices what its payers pay, and keeps the
/// slices nested.
pub proof fn lemma_collect_layer(
    pots: Seq<PotSlice>,
    m: Map<usize, (u64, u64)>,
    prev: int,
    size: int,
)
    requires
        pots.len() > 0,
        0 <= prev < size,
    ensures
        collect_layer(pots, m, prev, size).len() > 0,
        pots_total(collect_layer(pots, m, prev, size)) == pots_total(pots) + (size - prev)
            * paying(m, size).len(),
        eligibility_nested(pots) ==> eligibility_nested(collect_layer(pots, m, prev, size)),
        slices_finite(pots) ==> slices_finite(collect_layer(pots, m, prev, size)),
{
    let forming = pots.last();
    let payers = paying(m, size);
    let admitted = forming.eligible.intersect(payers);
    let grown_slice = PotSlice {
        amount: (forming.amount + (size - prev) * payers.len()) as nat,
        eligible: admitted,
    };
    let grown = pots.drop_last().push(grown_slice);
    let result = collect_layer(pots, m, prev, size);
    assert((size - prev) * payers.len() >= 0) by (nonlinear_arith)
        requires
            size - prev > 0,
            payers.len() >= 0,
    ;
    lemma_pots_total_push(pots.drop_last(), grown_slice);
    if !out_of_chips(m, admitted, size).is_empty() {
        lemma_pots_total_push(
            grown,
            PotSlice {
                amount: 0,
                eligible: admitted.difference(out_of_chips(m, admitted, size)),
            },
        );
    }
    if slices_finite(pots) {
        assert(forming.eligible.finite());
        assert forall|i: int| 0 <= i < result.len() implies (
        #[trigger] result[i]).eligible.finite() by {
            if i < pots.len() - 1 {
                assert(pots[i].eligible.finite());
            }
        }
    }
    if eligibility_nested(pots) {
        assert forall|a: int, b: int| 0 <= a < b < result.len() implies (
        #[trigger] result[b]).eligible.subset_of((#[trigger] result[a]).eligible) by {
            if a < pots.len() - 1 {
                assert(pots[pots.len() - 1].eligible.subset_of(pots[a].eligible));
                if b < pots.len() - 1 {
                    assert(pots[b].eligible.subset_of(pots[a].eligible));
                }
            }
        }
    }
}

/// Collecting all layers above a level adds to the slices what the seats
/// still owed above that level, and keeps the slices nested.
pub proof fn lemma_collect_layers(pots: Seq<PotSlice>, m: Map<usize, (u64, u64)>, prev: int)
    requires
        pots.len() > 0,
        0 <= prev <= u64::MAX,
        m.dom().finite(),
    ensures
        collect_layers(pots, m, nonzero_bets(m), prev).len() > 0,
        pots_total(collect_layers(pots, m, nonzero_bets(m), prev)) == pots_total(pots) + sum_all(
            owed_above(m, prev),
        ),
        eligibility_nested(pots) ==> eligibility_nested(
            collect_layers(pots, m, nonzero_bets(m), prev),
        ),
        slices_finite(pots) ==> slices_finite(collect_layers(pots, m, nonzero_bets(m), prev)),
    decreases u64::MAX - prev,
{
    let sizes = nonzero_bets(m);
    let pred = size_pred(sizes);
    match next_size(sizes, prev) {
        None => {
            assert forall|k: int| 0 <= k < seat_limit() implies #[trigger] owed_above(m, prev)(k)
                == 0 by {
                if m.contains_key(k as usize) && m[k as usize].1 > prev {
                    let b = m[k as usize].1;
                    assert(sizes.contains(b));
                    assert(pred(b as int));
                    lemma_least_from_exists(pred, prev + 1, b as int);
                }
            }
            lemma_sum_below_zero(owed_above(m, prev), seat_limit());
        },
        Some(size) => {
            lemma_least_from_some(pred, prev + 1);
            assert(prev < size <= u64::MAX);
            let next = collect_layer(pots, m, prev, size);
            lemma_collect_layer(pots, m, prev, size);
            lemma_collect_layers(next, m, size);
            let payers = paying(m, size);
            vstd::set_lib::lemma_set_subset_finite(m.dom(), payers);
            lemma_each_pays(payers, size - prev, seat_limit());
            assert(seats_below(payers, seat_limit()) =~= payers);
            assert forall|k: int| 0 <= k < seat_limit() implies #[trigger] owed_above(m, prev)(k)
                == each_pays(payers, size - prev)(k) + owed_above(m, size)(k) by {
                if m.contains_key(k as usize) && m[k as usize].1 > prev {
                    let b = m[k as usize].1;
                    assert(sizes.contains(b));
                    assert(pred(b as int));
                }
            }
            lemma_sum_below_add(
                each_pays(payers, size - prev),
                owed_above(m, size),
                owed_above(m, prev),
                seat_limit(),
            );
        },
    }
}

/// Setting a bet keeps the pot well formed and its chips.
pub proof fn lemma_with_bet_keeps(state: PotState, pos: usize, amount: u64)
    requires
        state.wf(),
        state.has_seat(pos),
    ensures
        state.with_bet(pos, amount).wf(),
        state.with_bet(pos, amount).chips() == state.chips(),
{
    lemma_bet_keeps_stacks(
        state.stacks_bets,
        pos,
        crate::pots::model::capped(state.stacks_bets[pos].0, amount),
    );
}

/// Collecting the bets keeps the pot well formed and its chips.
pub proof fn lemma_collect_keeps(state: PotState)
    requires
        state.wf(),
    ensures
        state.after_collect().wf(),
        state.after_collect().chips() == state.chips(),
{
    let m = state.stacks_bets;
    let start = if state.pots.len() == 0 {
        seq![PotSlice { amount: 0, eligible: m.dom() }]
    } else {
        state.pots
    };
    if state.pots.len() == 0 {
        assert(start.drop_last() =~= Seq::<PotSlice>::empty());
        assert(pots_total(Seq::<PotSlice>::empty()) == 0);
        assert(pots_total(start) == 0);
    }
    lemma_collect_layers(start, m, 0);
    let after = state.after_collect();
    assert forall|k: int| 0 <= k < seat_limit() implies #[trigger] stack_of(m)(k) == stack_of(
        after.stacks_bets,
    )(k) + owed_above(m, 0)(k) by {
        if m.contains_key(k as usize) {
            assert(m[k as usize].1 <= m[k as usize].0);
        }
    }
    lemma_sum_below_add(
        stack_of(after.stacks_bets),
        owed_above(m, 0),
        stack_of(m),
        seat_limit(),
    );
    assert(after.stacks_bets.dom() =~= m.dom());
    assert(after.bet_sizes =~= nonzero_bets(after.stacks_bets));
}

/// Every operation keeps a well-formed pot well formed and moves no chip in
/// or out of it.
pub proof fn lemma_apply_keeps(state: PotState, op: PotOp)
    requires
        state.wf(),
    ensures
        apply(state, op).wf(),
        apply(state, op).chips() == state.chips(),
{
    match op {
        PotOp::SetBet { pos, amount } => {
            if state.has_seat(pos) {
                lemma_with_bet_keeps(state, pos, amount);
            }
        },
        PotOp::PostBlinds { bb_pos, sb_pos } => {
            if state.has_seat(bb_pos) && state.has_seat(sb_pos) {
                lemma_blinds_keep(state, bb_pos, sb_pos);
            }
        },
        PotOp::PayAntes => {
            lemma_antes_keep(state);
        },
        PotOp::PostBeforeDeal { bb_idx } => {
            if state.post_before_deal_result(bb_idx) is Ok {
                lemma_antes_keep(state);
                if !state.is_bomb_pot {
                    let seats = state.stacks_bets.dom();
                    let member = choose|p: usize| seats.contains(p);
                    assert(seats.contains(member)) by {
                        if forall|p: usize| !seats.contains(p) {
                            assert(seats =~= Set::empty());
                        }
                    }
                    lemma_blind_seats(seats, bb_idx, member);
                    law_entrants_stay(state, 0, 0, 0);
                    lemma_blinds_keep(
                        state.after_antes(),
                        big_blind_seat(seats, bb_idx)->0 as usize,
                        small_blind_seat(seats, bb_idx)->0 as usize,
                    );
                }
            }
        },
        PotOp::BetOrShove { pos, amount } => {
            if state.bet_or_shove_result(pos, amount) is Ok {
                lemma_with_bet_keeps(state, pos, amount);
            }
        },
        PotOp::CheckCall { pos } => {
            if state.has_seat(pos) {
                lemma_with_bet_keeps(state, pos, state.largest_bet);
            }
        },
        PotOp::Fold { pos } => {
            let after = state.after_fold(pos);
            lemma_pots_total_by_amounts(state.pots, after.pots);
            assert forall|a: int, b: int| 0 <= a < b < after.pots.len() implies (
            #[trigger] after.pots[b]).eligible.subset_of((#[trigger] after.pots[a]).eligible) by {
                assert(state.pots[b].eligible.subset_of(state.pots[a].eligible));
            }
        },
        PotOp::CollectBets => {
            lemma_collect_keeps(state);
        },
    }
}

/// Posting the blinds keeps the pot well formed and its chips.
pub proof fn lemma_blinds_keep(state: PotState, bb_pos: usize, sb_pos: usize)
    requires
        state.wf(),
        state.has_seat(bb_pos),
        state.has_seat(sb_pos),
    ensures
        state.with_blinds(bb_pos, sb_pos).wf(),
        state.with_blinds(bb_pos, sb_pos).chips() == state.chips(),
{
    lemma_with_bet_keeps(state, bb_pos, state.bb_amt);
    let first = state.with_bet(bb_pos, state.bb_amt);
    lemma_with_bet_keeps(first, sb_pos, state.sb_amt);
}

/// Paying and collecting the antes keeps the pot well formed and its chips.
pub proof fn lemma_antes_keep(state: PotState)
    requires
        state.wf(),
    ensures
        state.after_antes().wf(),
        state.after_antes().chips() == state.chips(),
{
    let anted = state.with_antes();
    lemma_sum_below_agree(stack_of(state.stacks_bets), stack_of(anted.stacks_bets), seat_limit());
    assert(anted.stacks_bets.dom() =~= state.stacks_bets.dom());
    lemma_collect_keeps(anted);
}

/// The invariants of the pot: whatever operations a hand is made of, in
/// whatever order, a well-formed pot stays well formed, its slices stay
/// nested, and its slices and stacks together hold the chips they held before.
pub proof fn law_invariants_hold(state: PotState, ops: Seq<PotOp>)
    requires
        state.wf(),
    ensures
        run(state, ops).wf(),
        run(state, ops).chips() == state.chips(),
        eligibility_nested(run(state, ops).pots),
        pots_total(run(state, ops).pots) + total_stacks(run(state, ops).stacks_bets)
            == pots_total(state.pots) + total_stacks(state.stacks_bets),
    decreases ops.len(),
{
    if ops.len() > 0 {
        law_invariants_hold(state, ops.drop_last());
        lemma_apply_keeps(run(state, ops.drop_last()), ops.last());
    }
}

/// A pot at the start of a hand is well formed where the stacks fit a chip
/// count, and holds the chips of the stacks.
pub proof fn law_fresh_pot_is_well_formed(
    stacks: Map<usize, (u64, u64)>,
    sb: u64,
    bb: u64,
    ante: u64,
    is_bomb: bool,
)
    requires
        stacks.dom().finite(),
        forall|p: usize| stacks.contains_key(p) ==> (#[trigger] stacks[p]).1 == 0,
        total_stacks(stacks) <= u64::MAX,
    ensures
        PotState::fresh(stacks, sb, bb, ante, is_bomb).wf(),
        PotState::fresh(stacks, sb, bb, ante, is_bomb).chips() == total_stacks(stacks),
{
    let fresh = PotState::fresh(stacks, sb, bb, ante, is_bomb);
    assert(fresh.bet_sizes =~= nonzero_bets(stacks));
    assert(pots_total(fresh.pots) == 0);
}

} // verus!
