//! The no-limit pot: the stacks and bets of a hand, and its side pots.

use crate::chips::lemma_sum_below_gap;
use crate::chips::lemma_sum_below_monotone;
use crate::chips::lemma_sum_below_update;
use crate::chips::lemma_sum_below_zero;
use crate::chips::seat_limit;
use crate::chips::sum_all;
use crate::chips::sum_below;
use crate::ordered::among_first;
use crate::ordered::amounts_of;
use crate::ordered::amounts_within;
use crate::ordered::ascending_amounts;
use crate::ordered::ascending_seats;
use crate::ordered::entrants_of;
use crate::ordered::is_subset;
use crate::ordered::lemma_ascending_gap;
use crate::ordered::lemma_greatest_below_is;
use crate::ordered::lemma_greatest_below_none;
use crate::ordered::lemma_least_from_is;
use crate::ordered::lemma_least_from_none;
use crate::ordered::seat_keys;
use crate::ordered::seats_of;
use crate::ordered::seats_without;
use crate::player::Player;
use crate::player::entrants;
use crate::player::entrants_in_place;
use crate::player::player_stack_of;
use crate::pots::error::PotError;
use crate::pots::laws::law_showdown_pays_the_whole_pot;
use crate::pots::model::PotSlice;
use crate::pots::model::PotState;
use crate::pots::model::can_raise;
use crate::pots::model::capped;
use crate::pots::model::collect_layer;
use crate::pots::model::collect_layers;
use crate::pots::model::eligibility_nested;
use crate::pots::model::nonzero_bets;
use crate::pots::model::out_of_chips;
use crate::pots::model::paid_in_full;
use crate::pots::model::paying;
use crate::pots::model::pots_total;
use crate::pots::model::reset_result;
use crate::pots::model::seat_pred;
use crate::pots::model::settled;
use crate::pots::model::size_pred;
use crate::pots::model::stack_of;
use crate::pots::model::total_stacks;
use crate::pots::partial_pot::PartialPot;
use crate::pots::partial_pot::lemma_slices_finite;
use crate::pots::partial_pot::slices_of;
use crate::pots::showdown::all_contended;
use crate::pots::showdown::clockwise_from;
use crate::pots::showdown::credited;
use crate::pots::showdown::lemma_no_win_no_pay;
use crate::pots::showdown::lemma_payout_step;
use crate::pots::showdown::paid_out;
use crate::pots::showdown::payout;
use crate::pots::showdown::payouts;
use crate::pots::showdown::share_out;
use crate::pots::showdown::slice_share;
use crate::pots::showdown::slice_winners;
use crate::pots::showdown::walk_share;
use crate::pots::showdown::winners;
use crate::pots::showdown::winners_are_seated;
use crate::pots::showdown::winnings_of;
use crate::pots::showdown::wins_some;
use std::collections::BTreeMap;
use std::collections::BTreeSet;
use std::collections::HashMap;
use std::collections::HashSet;
use vstd::prelude::*;

verus! {

/// The pot of a no-limit table.
#[derive(Debug, PartialEq)]
pub struct NoLimitPot {
    pots: Vec<PartialPot>,
    player_stacks_bets: BTreeMap<usize, (u64, u64)>,
    bet_sizes: BTreeSet<u64>,
    largest_bet_idxes: Option<(usize, usize)>,
    largest_bet: u64,
    bet_diff: u64,
    sb_amt: u64,
    bb_amt: u64,
    ante_amt: u64,
    is_bomb_pot: bool,
}

impl View for NoLimitPot {
    type V = PotState;

    closed spec fn view(&self) -> PotState {
        PotState {
            pots: slices_of(self.pots@),
            stacks_bets: self.player_stacks_bets@,
            bet_sizes: self.bet_sizes@,
            largest_bet_idxes: self.largest_bet_idxes,
            largest_bet: self.largest_bet,
            bet_diff: self.bet_diff,
            sb_amt: self.sb_amt,
            bb_amt: self.bb_amt,
            ante_amt: self.ante_amt,
            is_bomb_pot: self.is_bomb_pot,
        }
    }
}

/// The distinct non-zero bets of a stack table.
fn bet_sizes_of(table: &BTreeMap<usize, (u64, u64)>) -> (sizes: BTreeSet<u64>)
    ensures
        sizes@ == nonzero_bets(table@),
{
    let seats = seats_of(table);
    let mut sizes: BTreeSet<u64> = BTreeSet::new();
    let mut i: usize = 0;
    while i < seats.len()
        invariant
            i <= seats@.len(),
            seats@.to_set() == table@.dom(),
            forall|b: u64|
                sizes@.contains(b) <==> b > 0 && exists|p: usize|
                    among_first(seats@, i as int, p) && (#[trigger] table@[p]).1 == b,
        decreases seats@.len() - i,
    {
        let seat = seats[i];
        assert(seats@.to_set().contains(seat));
        let entry = table.get(&seat);
        assert(entry is Some);
        let bet = entry.unwrap().1;
        if bet > 0 {
            sizes.insert(bet);
        }
        proof {
            assert(among_first(seats@, i + 1, seat));
            assert forall|b: u64|
                sizes@.contains(b) <==> b > 0 && exists|p: usize|
                    among_first(seats@, i + 1, p) && (#[trigger] table@[p]).1 == b by {
                if b > 0 && exists|p: usize|
                    among_first(seats@, i + 1, p) && (#[trigger] table@[p]).1 == b {
                    let p = choose|p: usize|
                        among_first(seats@, i + 1, p) && (#[trigger] table@[p]).1 == b;
                    if p != seat {
                        assert(among_first(seats@, i as int, p));
                    }
                }
                if sizes@.contains(b) && b != bet {
                    let p = choose|p: usize|
                        among_first(seats@, i as int, p) && (#[trigger] table@[p]).1 == b;
                    assert(among_first(seats@, i + 1, p));
                }
            }
        }
        i += 1;
    }
    proof {
        assert forall|b: u64| sizes@.contains(b) <==> nonzero_bets(table@).contains(b) by {
            if sizes@.contains(b) {
                let p = choose|p: usize|
                    among_first(seats@, i as int, p) && (#[trigger] table@[p]).1 == b;
                assert(seats@.to_set().contains(p));
            }
            if nonzero_bets(table@).contains(b) {
                let p = choose|p: usize| table@.contains_key(p) && (#[trigger] table@[p]).1 == b;
                assert(seats@.to_set().contains(p));
                assert(among_first(seats@, i as int, p));
            }
        }
        assert(sizes@ =~= nonzero_bets(table@));
    }
    sizes
}

/// The chips in all stacks of a table, unless they exceed what a chip count
/// can express.
fn sum_stacks(table: &BTreeMap<usize, (u64, u64)>) -> (sum: Option<u64>)
    ensures
        match sum {
            Some(total) => total == total_stacks(table@),
            None => total_stacks(table@) > u64::MAX,
        },
{
    let seats = seats_of(table);
    let ghost f = stack_of(table@);
    let ghost mut lo: int = 0;
    let mut sum: u64 = 0;
    let mut i: usize = 0;
    proof {
        assert forall|k: int| 0 <= k < seat_limit() implies #[trigger] f(k) >= 0 by {}
    }
    while i < seats.len()
        invariant
            i <= seats@.len(),
            f == stack_of(table@),
            seats@.to_set() == table@.dom(),
            ascending_seats(seats@),
            lo == if i == 0 {
                0int
            } else {
                seats@[i - 1] + 1
            },
            sum == sum_below(f, lo),
            forall|k: int| 0 <= k < seat_limit() ==> #[trigger] f(k) >= 0,
        decreases seats@.len() - i,
    {
        let seat = seats[i];
        proof {
            assert(seats@.to_set().contains(seat));
            if i > 0 {
                assert(seats@[i - 1] < seats@[i as int]);
            }
            assert forall|k: int| lo <= k < seat implies #[trigger] f(k) == 0 by {
                if table@.contains_key(k as usize) {
                    assert(seats@.to_set().contains(k as usize));
                    let j = choose|j: int| 0 <= j < seats@.len() && seats@[j] == k as usize;
                    if j < i - 1 {
                        assert(seats@[j] < seats@[i - 1]);
                    }
                    if j > i {
                        assert(seats@[i as int] < seats@[j]);
                    }
                }
            }
            lemma_sum_below_gap(f, lo, seat as int);
        }
        let entry = table.get(&seat);
        assert(entry is Some);
        let stack: u64 = entry.unwrap().0;
        match sum.checked_add(stack) {
            Some(more) => {
                sum = more;
            },
            None => {
                proof {
                    lemma_sum_below_monotone(f, seat + 1, seat_limit());
                }
                return None;
            },
        }
        proof {
            lo = seat + 1;
        }
        i += 1;
    }
    proof {
        assert forall|k: int| lo <= k < seat_limit() implies #[trigger] f(k) == 0 by {
            if table@.contains_key(k as usize) {
                assert(seats@.to_set().contains(k as usize));
                let j = choose|j: int| 0 <= j < seats@.len() && seats@[j] == k as usize;
                if j < i - 1 {
                    assert(seats@[j] < seats@[i - 1]);
                }
            }
        }
        lemma_sum_below_gap(f, lo, seat_limit());
    }
    Some(sum)
}

/// The chips in all slices, unless they exceed what a chip count can express.
fn sum_pots(pots: &Vec<PartialPot>) -> (sum: Option<u64>)
    ensures
        match sum {
            Some(total) => total == pots_total(slices_of(pots@)),
            None => pots_total(slices_of(pots@)) > u64::MAX,
        },
{
    let ghost slices = slices_of(pots@);
    let mut sum: u64 = 0;
    let mut i: usize = 0;
    proof {
        assert(slices.take(0) =~= Seq::<PotSlice>::empty());
    }
    while i < pots.len()
        invariant
            i <= pots@.len(),
            slices == slices_of(pots@),
            sum == pots_total(slices.take(i as int)),
        decreases pots@.len() - i,
    {
        proof {
            assert(slices.take(i + 1).drop_last() =~= slices.take(i as int));
            assert(slices.take(i + 1).last() == pots@[i as int]@);
        }
        match sum.checked_add(pots[i].amount) {
            Some(more) => {
                sum = more;
            },
            None => {
                proof {
                    lemma_pots_total_prefix(slices, i + 1);
                }
                return None;
            },
        }
        i += 1;
    }
    proof {
        assert(slices.take(i as int) =~= slices);
    }
    Some(sum)
}

/// Whether every bet in a stack table is covered by its stack.
fn bets_covered(table: &BTreeMap<usize, (u64, u64)>) -> (covered: bool)
    ensures
        covered == forall|p: usize|
            table@.contains_key(p) ==> (#[trigger] table@[p]).1 <= table@[p].0,
{
    let seats = seats_of(table);
    let mut i: usize = 0;
    while i < seats.len()
        invariant
            i <= seats@.len(),
            seats@.to_set() == table@.dom(),
            forall|j: int| 0 <= j < i ==> (#[trigger] table@[seats@[j]]).1 <= table@[seats@[j]].0,
        decreases seats@.len() - i,
    {
        let seat = seats[i];
        assert(seats@.to_set().contains(seat));
        let entry = table.get(&seat);
        assert(entry is Some);
        if entry.unwrap().1 > entry.unwrap().0 {
            return false;
        }
        i += 1;
    }
    proof {
        assert forall|p: usize| table@.contains_key(p) implies (#[trigger] table@[p]).1
            <= table@[p].0 by {
            assert(seats@.to_set().contains(p));
            let j = choose|j: int| 0 <= j < seats@.len() && seats@[j] == p;
            assert(table@[seats@[j]].1 <= table@[seats@[j]].0);
        }
    }
    true
}

/// Whether every slice admits only seats that all older slices admit.
fn slices_nested(pots: &Vec<PartialPot>) -> (nested: bool)
    ensures
        nested == eligibility_nested(slices_of(pots@)),
{
    let ghost slices = slices_of(pots@);
    let mut i: usize = 1;
    while i < pots.len()
        invariant
            1 <= i,
            slices == slices_of(pots@),
            forall|j: int|
                1 <= j < i && j < slices.len() ==> (#[trigger] slices[j]).eligible.subset_of(
                    slices[j - 1].eligible,
                ),
        decreases pots@.len() - i,
    {
        if !is_subset(&pots[i].elegible_players, &pots[i - 1].elegible_players) {
            proof {
                assert(slices[i as int].eligible == pots@[i as int].elegible_players@);
                assert(slices[i - 1].eligible == pots@[i - 1].elegible_players@);
                if eligibility_nested(slices) {
                    assert(slices[i as int].eligible.subset_of(slices[i - 1].eligible));
                }
            }
            return false;
        }
        i += 1;
    }
    proof {
        assert forall|a: int, b: int| 0 <= a < b < slices.len() implies (
        #[trigger] slices[b]).eligible.subset_of((#[trigger] slices[a]).eligible) by {
            lemma_nested_from_adjacent(slices, a, b);
        }
    }
    true
}

/// The chips of all players, unless they exceed what a chip count can
/// express.
fn sum_players(players: &HashMap<usize, Player>) -> (sum: Option<u64>)
    ensures
        match sum {
            Some(total) => total == sum_all(player_stack_of(players@)),
            None => sum_all(player_stack_of(players@)) > u64::MAX,
        },
{
    let keys = seat_keys(players);
    let ghost mut seen: Map<usize, Player> = Map::empty();
    let mut sum: u64 = 0;
    let mut i: usize = 0;
    proof {
        lemma_sum_below_zero(player_stack_of(seen), seat_limit());
    }
    while i < keys.len()
        invariant
            i <= keys@.len(),
            keys@.to_set() == players@.dom(),
            keys@.no_duplicates(),
            forall|k: usize| #[trigger] seen.contains_key(k) <==> among_first(keys@, i as int, k),
            forall|k: usize| seen.contains_key(k) ==> #[trigger] seen[k] == players@[k],
            sum == sum_all(player_stack_of(seen)),
        decreases keys@.len() - i,
    {
        let seat = keys[i];
        proof {
            assert(keys@.to_set().contains(seat));
            assert(!among_first(keys@, i as int, seat));
            assert forall|p: usize| among_first(keys@, i + 1, p) <==> among_first(
                keys@,
                i as int,
                p,
            ) || p == seat by {}
        }
        let found = players.get(&seat);
        assert(found is Some);
        let stack: u64 = found.unwrap().stack;
        let ghost more = seen.insert(seat, players@[seat]);
        proof {
            lemma_sum_below_update(
                player_stack_of(seen),
                player_stack_of(more),
                seat as int,
                seat_limit(),
            );
        }
        match sum.checked_add(stack) {
            Some(total) => {
                sum = total;
            },
            None => {
                proof {
                    assert forall|k: int| 0 <= k < seat_limit() implies #[trigger] player_stack_of(
                        more,
                    )(k) <= player_stack_of(players@)(k) by {
                        if more.contains_key(k as usize) && k as usize != seat {
                            assert(seen.contains_key(k as usize));
                            assert(keys@.to_set().contains(k as usize));
                        }
                    }
                    crate::chips::lemma_sum_below_le(
                        player_stack_of(more),
                        player_stack_of(players@),
                        seat_limit(),
                    );
                }
                return None;
            },
        }
        proof {
            seen = more;
        }
        i += 1;
    }
    proof {
        assert forall|k: usize| seen.contains_key(k) <==> players@.contains_key(k) by {
            if players@.contains_key(k) {
                assert(keys@.to_set().contains(k));
            }
            if among_first(keys@, i as int, k) {
                assert(keys@.to_set().contains(k));
            }
        }
        assert(seen =~= players@);
    }
    Some(sum)
}

/// Whether every winner of a slice that holds chips has a player.
fn winners_seated(
    pots: &Vec<PartialPot>,
    rankings: &HashMap<usize, u64>,
    players: &HashMap<usize, Player>,
) -> (seated: bool)
    ensures
        seated == winners_are_seated(slices_of(pots@), rankings@, players@.dom()),
{
    let ghost slices = slices_of(pots@);
    let mut i: usize = 0;
    while i < pots.len()
        invariant
            i <= pots@.len(),
            slices == slices_of(pots@),
            forall|j: int, p: usize|
                0 <= j < i && slices[j].amount > 0 && #[trigger] winners(
                    slices[j],
                    rankings@,
                ).contains(p) ==> players@.contains_key(p),
        decreases pots@.len() - i,
    {
        if pots[i].amount > 0 {
            let order = slice_winners(&pots[i], rankings);
            let mut k: usize = 0;
            while k < order.len()
                invariant
                    k <= order@.len(),
                    i < pots@.len(),
                    slices == slices_of(pots@),
                    slices[i as int].amount > 0,
                    order@.to_set() == winners(slices[i as int], rankings@),
                    forall|j: int| 0 <= j < k ==> players@.contains_key(#[trigger] order@[j]),
                decreases order@.len() - k,
            {
                let seat = order[k];
                if !players.contains_key(&seat) {
                    proof {
                        assert(order@.to_set().contains(seat));
                        assert(winners(slices[i as int], rankings@).contains(seat));
                    }
                    return false;
                }
                k += 1;
            }
            proof {
                assert forall|p: usize| #[trigger]
                    winners(slices[i as int], rankings@).contains(p) implies players@.contains_key(
                    p,
                ) by {
                    assert(order@.to_set().contains(p));
                    let at = choose|at: int| 0 <= at < order@.len() && order@[at] == p;
                    assert(players@.contains_key(order@[at]));
                }
            }
        }
        i += 1;
    }
    true
}

/// Whether every player who is not away is filed under the seat it holds.
fn in_place(players: &HashMap<usize, Player>) -> (agree: bool)
    ensures
        agree == entrants_in_place(players@),
{
    let seats = seat_keys(players);
    let mut i: usize = 0;
    while i < seats.len()
        invariant
            i <= seats@.len(),
            seats@.to_set() == players@.dom(),
            forall|j: int|
                0 <= j < i && !(#[trigger] players@[seats@[j]]).is_away
                    ==> players@[seats@[j]].table_position == seats@[j],
        decreases seats@.len() - i,
    {
        let seat = seats[i];
        assert(seats@.to_set().contains(seat));
        let player = players.get(&seat);
        assert(player is Some);
        let player = player.unwrap();
        if !player.is_away && player.table_position != seat {
            return false;
        }
        i += 1;
    }
    proof {
        assert forall|k: usize|
            players@.contains_key(k) && !(#[trigger] players@[k]).is_away
                implies players@[k].table_position == k by {
            assert(seats@.to_set().contains(k));
            let j = choose|j: int| 0 <= j < seats@.len() && seats@[j] == k;
            assert(!players@[seats@[j]].is_away);
        }
    }
    true
}

/// The stacks with which the players who are not away enter a hand.
fn entrants_table(players: &HashMap<usize, Player>) -> (table: BTreeMap<usize, (u64, u64)>)
    ensures
        table@ == entrants(players@),
{
    let seats = seat_keys(players);
    let mut table: BTreeMap<usize, (u64, u64)> = BTreeMap::new();
    let mut i: usize = 0;
    while i < seats.len()
        invariant
            i <= seats@.len(),
            seats@.to_set() == players@.dom(),
            forall|k: usize|
                table@.contains_key(k) <==> among_first(seats@, i as int, k)
                    && !players@[k].is_away,
            forall|k: usize|
                table@.contains_key(k) ==> #[trigger] table@[k] == (players@[k].stack, 0u64),
        decreases seats@.len() - i,
    {
        let seat = seats[i];
        proof {
            assert(seats@.to_set().contains(seat));
            assert forall|p: usize| among_first(seats@, i + 1, p) <==> among_first(
                seats@,
                i as int,
                p,
            ) || p == seat by {}
        }
        let player = players.get(&seat);
        assert(player is Some);
        let player = player.unwrap();
        if !player.is_away {
            table.insert(seat, (player.stack, 0));
        }
        i += 1;
    }
    proof {
        assert forall|k: usize| table@.contains_key(k) <==> entrants(players@).contains_key(
            k,
        ) by {
            if players@.contains_key(k) {
                assert(seats@.to_set().contains(k));
            }
            if among_first(seats@, i as int, k) {
                assert(seats@.to_set().contains(k));
            }
        }
        assert(table@ =~= entrants(players@));
    }
    table
}

impl NoLimitPot {
    /// Prepares the pot for a new hand.
    ///
    /// The blinds must be positive, the small blind at most the big blind, and
    /// a bomb pot needs an ante; every player who is not away must be filed
    /// under the seat it holds, and the chips of the entrants must fit a chip
    /// count. Where one of these fails the pot is left as it was. Otherwise the
    /// slices are dropped, the players who are not away enter with their
    /// stacks and no bet, and the minimum raise is the big blind.
    pub fn reset_pot(
        &mut self,
        players: &HashMap<usize, Player>,
        sb: u64,
        bb: u64,
        ante: u64,
        is_bomb: bool,
    ) -> (res: Result<(), PotError>)
        ensures
            res == reset_result(players@, sb, bb, ante, is_bomb),
            res is Err ==> final(self)@ == old(self)@,
            res is Ok ==> final(self)@ == PotState::fresh(
                entrants(players@),
                sb,
                bb,
                ante,
                is_bomb,
            ),
            res is Ok ==> final(self)@.wf(),
            res is Ok ==> final(self)@.chips() == total_stacks(entrants(players@)),
    {
        if is_bomb && ante == 0 {
            return Err(PotError::BombPotWithoutAnte);
        }
        if sb == 0 || bb == 0 {
            return Err(PotError::ZeroBlind);
        }
        if sb > bb {
            return Err(PotError::SmallBlindAboveBigBlind);
        }
        if !in_place(players) {
            return Err(PotError::MisplacedPlayer);
        }
        let table = entrants_table(players);
        if sum_stacks(&table).is_none() {
            return Err(PotError::TooManyChips);
        }
        self.pots = Vec::new();
        self.player_stacks_bets = table;
        self.bet_sizes = BTreeSet::new();
        self.largest_bet_idxes = None;
        self.largest_bet = 0;
        self.bet_diff = bb;
        self.sb_amt = sb;
        self.bb_amt = bb;
        self.ante_amt = ante;
        self.is_bomb_pot = is_bomb;
        proof {
            assert(self@.pots =~= Seq::empty());
            assert(self@.bet_sizes =~= nonzero_bets(self@.stacks_bets));
        }
        Ok(())
    }

    /// A pot in the given state, or nothing where the state is not one that
    /// the engine can be in: a bet exceeds its stack, the bet sizes are not
    /// the distinct bets above zero, a slice admits a seat that an older slice
    /// does not, or the chips exceed what a chip count can express.
    pub fn from_parts(
        pots: Vec<PartialPot>,
        player_stacks_bets: BTreeMap<usize, (u64, u64)>,
        bet_sizes: BTreeSet<u64>,
        largest_bet_idxes: Option<(usize, usize)>,
        largest_bet: u64,
        bet_diff: u64,
        sb_amt: u64,
        bb_amt: u64,
        ante_amt: u64,
        is_bomb_pot: bool,
    ) -> (made: Option<NoLimitPot>)
        ensures
            made is Some <==> (PotState {
                pots: slices_of(pots@),
                stacks_bets: player_stacks_bets@,
                bet_sizes: bet_sizes@,
                largest_bet_idxes,
                largest_bet,
                bet_diff,
                sb_amt,
                bb_amt,
                ante_amt,
                is_bomb_pot,
            }).wf(),
            made is Some ==> made->0@ == (PotState {
                pots: slices_of(pots@),
                stacks_bets: player_stacks_bets@,
                bet_sizes: bet_sizes@,
                largest_bet_idxes,
                largest_bet,
                bet_diff,
                sb_amt,
                bb_amt,
                ante_amt,
                is_bomb_pot,
            }),
    {
        if !bets_covered(&player_stacks_bets) {
            return None;
        }
        let sizes = bet_sizes_of(&player_stacks_bets);
        if !amounts_within(&bet_sizes, &sizes) || !amounts_within(&sizes, &bet_sizes) {
            return None;
        }
        assert(bet_sizes@ =~= nonzero_bets(player_stacks_bets@));
        if !slices_nested(&pots) {
            return None;
        }
        let in_pots = sum_pots(&pots);
        let in_stacks = sum_stacks(&player_stacks_bets);
        proof {
            lemma_pots_nonneg(slices_of(pots@));
            lemma_sum_below_nonneg_all(stack_of(player_stacks_bets@));
            lemma_slices_finite(pots@);
        }
        let fits = match (in_pots, in_stacks) {
            (Some(a), Some(b)) => a.checked_add(b).is_some(),
            _ => false,
        };
        if !fits {
            return None;
        }
        Some(
            NoLimitPot {
                pots,
                player_stacks_bets,
                bet_sizes,
                largest_bet_idxes,
                largest_bet,
                bet_diff,
                sb_amt,
                bb_amt,
                ante_amt,
                is_bomb_pot,
            },
        )
    }

    /// A pot before its first hand: no slices, no entrants, no blinds.
    pub fn new() -> (pot: NoLimitPot)
        ensures
            pot@ == PotState::empty(),
            pot@.wf(),
    {
        let pot = NoLimitPot {
            pots: Vec::new(),
            player_stacks_bets: BTreeMap::new(),
            bet_sizes: BTreeSet::new(),
            largest_bet_idxes: None,
            largest_bet: 0,
            bet_diff: 0,
            sb_amt: 0,
            bb_amt: 0,
            ante_amt: 0,
            is_bomb_pot: false,
        };
        proof {
            assert(pot@.pots =~= Seq::empty());
            assert(pot@.bet_sizes =~= nonzero_bets(pot@.stacks_bets));
            lemma_sum_below_zero(stack_of(pot@.stacks_bets), seat_limit());
        }
        pot
    }

    /// The stack and the bet of every entrant, by seat.
    pub fn get_all_player_stacks_bets(&self) -> (table: &BTreeMap<usize, (u64, u64)>)
        ensures
            table@ == self@.stacks_bets,
    {
        &self.player_stacks_bets
    }

    /// The stack and the bet of the entrant at `pos`.
    pub fn get_player_stack_bet(&self, pos: &usize) -> (res: Result<&(u64, u64), PotError>)
        ensures
            self@.has_seat(*pos) ==> res == Ok::<&(u64, u64), PotError>(&self@.stacks_bets[*pos]),
            !self@.has_seat(*pos) ==> res == Err::<&(u64, u64), PotError>(
                PotError::UnknownSeat { position: *pos },
            ),
    {
        match self.player_stacks_bets.get(pos) {
            Some(entry) => Ok(entry),
            None => Err(PotError::UnknownSeat { position: *pos }),
        }
    }

    /// The last seat to commit a bet and the last seat to raise legally, or
    /// nothing where nobody has acted on this street.
    pub fn get_largest_bet_idxes(&self) -> (idxes: Option<(usize, usize)>)
        ensures
            idxes == self@.largest_bet_idxes,
    {
        self.largest_bet_idxes
    }

    /// Whether this hand is a bomb pot.
    pub fn is_bomb_pot(&self) -> (bomb: bool)
        ensures
            bomb == self@.is_bomb_pot,
    {
        self.is_bomb_pot
    }

    /// The slices, oldest first.
    pub fn pots(&self) -> (pots: &Vec<PartialPot>)
        ensures
            slices_of(pots@) == self@.pots,
    {
        &self.pots
    }

    /// The distinct non-zero bets of this street.
    pub fn bet_sizes(&self) -> (sizes: &BTreeSet<u64>)
        ensures
            sizes@ == self@.bet_sizes,
    {
        &self.bet_sizes
    }

    /// The highest bet of this street.
    pub fn largest_bet(&self) -> (bet: u64)
        ensures
            bet == self@.largest_bet,
    {
        self.largest_bet
    }

    /// The least amount by which a raise must exceed the highest bet.
    pub fn bet_diff(&self) -> (diff: u64)
        ensures
            diff == self@.bet_diff,
    {
        self.bet_diff
    }

    /// The least bet that would be taken as a raise, as far as a chip count
    /// can express it.
    pub fn min_raise(&self) -> (least: u64)
        ensures
            least == if self@.min_raise() <= u64::MAX {
                self@.min_raise() as u64
            } else {
                u64::MAX
            },
    {
        match self.largest_bet.checked_add(self.bet_diff) {
            Some(least) => least,
            None => u64::MAX,
        }
    }

    /// The chips in all slices.
    pub fn chips_in_slices(&self) -> (total: u64)
        requires
            self@.wf(),
        ensures
            total == pots_total(self@.pots),
    {
        proof {
            lemma_sum_below_nonneg_all(stack_of(self@.stacks_bets));
        }
        match sum_pots(&self.pots) {
            Some(total) => total,
            None => 0,
        }
    }

    /// The small blind, the big blind and the ante of this hand.
    pub fn stakes(&self) -> (stakes: (u64, u64, u64))
        ensures
            stakes == (self@.sb_amt, self@.bb_amt, self@.ante_amt),
    {
        (self.sb_amt, self.bb_amt, self.ante_amt)
    }

    /// Whether the betting round is closed: the action is back on the last
    /// seat that bet. Before anybody has acted it is not.
    pub fn are_all_bets_good(&self, action_idx: usize) -> (good: bool)
        ensures
            good == match self@.largest_bet_idxes {
                Some((lb, _)) => lb == action_idx,
                None => false,
            },
    {
        match self.largest_bet_idxes {
            Some((lb, _)) => lb == action_idx,
            None => false,
        }
    }

    /// Gives the entrant at `pos` the bet `amount`, capped at its stack.
    fn commit(&mut self, pos: usize, amount: u64) -> (bet_size: u64)
        requires
            old(self)@.wf(),
            old(self)@.has_seat(pos),
        ensures
            final(self)@ == old(self)@.with_bet(pos, amount),
            bet_size == old(self)@.committed(pos, amount),
            final(self)@.wf(),
            final(self)@.chips() == old(self)@.chips(),
    {
        let stack = match self.player_stacks_bets.get(&pos) {
            Some(entry) => entry.0,
            None => 0,
        };
        let bet_size = if amount <= stack {
            amount
        } else {
            stack
        };
        let ghost before = self.player_stacks_bets@;
        self.player_stacks_bets.insert(pos, (stack, bet_size));
        self.bet_sizes = bet_sizes_of(&self.player_stacks_bets);
        proof {
            lemma_bet_keeps_stacks(before, pos, bet_size);
            assert(final(self)@.stacks_bets == old(self)@.with_bet(pos, amount).stacks_bets);
        }
        bet_size
    }

    /// Sets the bet of the seat at `pos` to `bet`, or to all of its stack
    /// where that is less. Fails, changing nothing, where nobody sits there.
    pub fn set_bet_no_max(&mut self, pos: &usize, bet: u64) -> (res: Result<(), PotError>)
        requires
            old(self)@.wf(),
        ensures
            res is Ok <==> old(self)@.has_seat(*pos),
            res is Err ==> res == Err::<(), PotError>(PotError::UnknownSeat { position: *pos })
                && final(self)@ == old(self)@,
            res is Ok ==> final(self)@ == old(self)@.with_bet(*pos, bet),
            final(self)@.wf(),
            final(self)@.chips() == old(self)@.chips(),
    {
        if !self.player_stacks_bets.contains_key(pos) {
            return Err(PotError::UnknownSeat { position: *pos });
        }
        self.commit(*pos, bet);
        Ok(())
    }

    /// Posts the big blind at `bb_pos` and then the small blind at `sb_pos`,
    /// each capped at the seat's stack, and makes the big blind the bet to
    /// call. Fails, changing nothing, unless entrants sit at both seats.
    pub fn post_blind_amt(&mut self, bb_pos: &usize, sb_pos: &usize) -> (res: Result<
        (),
        PotError,
    >)
        requires
            old(self)@.wf(),
        ensures
            res is Ok <==> old(self)@.has_seat(*bb_pos) && old(self)@.has_seat(*sb_pos),
            res is Err ==> res == Err::<(), PotError>(PotError::InvalidBlindPositions)
                && final(self)@ == old(self)@,
            res is Ok ==> final(self)@ == old(self)@.with_blinds(*bb_pos, *sb_pos),
            final(self)@.wf(),
            final(self)@.chips() == old(self)@.chips(),
    {
        if !self.player_stacks_bets.contains_key(bb_pos) || !self.player_stacks_bets.contains_key(
            sb_pos,
        ) {
            return Err(PotError::InvalidBlindPositions);
        }
        let bb: u64 = self.bb_amt;
        let sb: u64 = self.sb_amt;
        self.commit(*bb_pos, bb);
        self.commit(*sb_pos, sb);
        self.largest_bet = bb;
        Ok(())
    }

    /// A bet or raise of `bet` chips by the seat at `pos`, or all of its stack
    /// where it holds less.
    ///
    /// A seat that has already acted on the last legal raise is refused. A
    /// bet of at least the minimum raise is a legal raise: what it commits over
    /// the highest bet is the new minimum raise, and the action is reopened. A
    /// bet under the minimum raise is accepted only as an all-in; it neither
    /// changes the minimum raise nor reopens the action. So is an all-in of a
    /// stack under the highest bet, whatever amount is asked for, as it raises
    /// nothing. Returns the chips committed. A refusal changes nothing.
    pub fn bet_or_shove(&mut self, pos: &usize, bet: u64) -> (res: Result<u64, PotError>)
        requires
            old(self)@.wf(),
        ensures
            res == old(self)@.bet_or_shove_result(*pos, bet),
            final(self)@ == old(self)@.after_bet_or_shove(*pos, bet),
            final(self)@.wf(),
            final(self)@.chips() == old(self)@.chips(),
    {
        if !self.can_pos_raise(pos) {
            return Err(PotError::CappedAction);
        }
        let stack = match self.player_stacks_bets.get(pos) {
            Some(entry) => entry.0,
            None => {
                return Err(PotError::UnknownSeat { position: *pos });
            },
        };
        let committed = if bet <= stack {
            bet
        } else {
            stack
        };
        let min_raise: u128 = self.largest_bet as u128 + self.bet_diff as u128;
        let legal = bet as u128 >= min_raise && committed >= self.largest_bet;
        if legal || bet >= stack {
            let last_legal = if legal {
                *pos
            } else {
                match self.largest_bet_idxes {
                    Some((_, llb)) => llb,
                    None => *pos,
                }
            };
            self.commit(*pos, bet);
            if legal {
                self.bet_diff = committed - self.largest_bet;
            }
            if committed > self.largest_bet {
                self.largest_bet = committed;
            }
            self.largest_bet_idxes = Some((*pos, last_legal));
            Ok(committed)
        } else if stack as u128 <= min_raise {
            Err(PotError::MustShove { bet })
        } else {
            Err(PotError::BetTooSmall { bet, min_raise: min_raise as u64 })
        }
    }

    /// A check or call by the seat at `pos`: its bet becomes the highest bet,
    /// or all of its stack where it holds less. Returns the chips committed.
    /// Fails, changing nothing, where nobody sits there.
    pub fn check_call(&mut self, pos: &usize) -> (res: Result<u64, PotError>)
        requires
            old(self)@.wf(),
        ensures
            res == old(self)@.check_call_result(*pos),
            final(self)@ == old(self)@.after_check_call(*pos),
            final(self)@.wf(),
            final(self)@.chips() == old(self)@.chips(),
    {
        if !self.player_stacks_bets.contains_key(pos) {
            return Err(PotError::UnknownSeat { position: *pos });
        }
        let to_call: u64 = self.largest_bet;
        let bet_size = self.commit(*pos, to_call);
        if self.largest_bet_idxes.is_none() {
            self.largest_bet_idxes = Some((*pos, *pos));
        }
        Ok(bet_size)
    }

    /// The seat at `pos` folds: it can win no slice any more. Where it is the
    /// first to act on the street, the street counts as opened by it.
    pub fn fold(&mut self, pos: &usize) -> (res: Result<(), PotError>)
        requires
            old(self)@.wf(),
        ensures
            res is Ok,
            final(self)@ == old(self)@.after_fold(*pos),
            final(self)@.wf(),
            final(self)@.chips() == old(self)@.chips(),
    {
        let mut i: usize = 0;
        while i < self.pots.len()
            invariant
                i <= self.pots@.len(),
                self.pots@.len() == old(self).pots@.len(),
                forall|j: int|
                    0 <= j < i ==> (#[trigger] self.pots@[j])@ == old(self)@.after_fold(*pos).pots[j],
                forall|j: int| i <= j < self.pots@.len() ==> self.pots@[j] == old(self).pots@[j],
                self.player_stacks_bets == old(self).player_stacks_bets,
                self.bet_sizes == old(self).bet_sizes,
                self.largest_bet_idxes == old(self).largest_bet_idxes,
                self.largest_bet == old(self).largest_bet,
                self.bet_diff == old(self).bet_diff,
                self.sb_amt == old(self).sb_amt,
                self.bb_amt == old(self).bb_amt,
                self.ante_amt == old(self).ante_amt,
                self.is_bomb_pot == old(self).is_bomb_pot,
            decreases self.pots@.len() - i,
        {
            self.pots[i].elegible_players.remove(pos);
            i += 1;
        }
        if self.largest_bet_idxes.is_none() {
            self.largest_bet_idxes = Some((*pos, *pos));
        }
        proof {
            let after = old(self)@.after_fold(*pos);
            assert(self@.pots =~= after.pots);
            lemma_pots_total_by_amounts(old(self)@.pots, after.pots);
            assert forall|a: int, b: int| 0 <= a < b < after.pots.len() implies (
            #[trigger] after.pots[b]).eligible.subset_of((#[trigger] after.pots[a]).eligible) by {
                assert(old(self)@.pots[b].eligible.subset_of(old(self)@.pots[a].eligible));
            }
        }
        Ok(())
    }

    /// Collects one layer of bets: every seat whose bet reaches `size` pays
    /// the chips between `prev` and `size` into the forming slice.
    fn collect_layer(
        &mut self,
        prev: u64,
        size: u64,
        Ghost(before): Ghost<Map<usize, (u64, u64)>>,
    )
        requires
            prev < size,
            old(self).pots@.len() > 0,
            eligibility_nested(old(self)@.pots),
            before.dom().finite(),
            forall|p: usize| before.contains_key(p) ==> (#[trigger] before[p]).1 <= before[p].0,
            forall|p: usize|
                before.contains_key(p) ==> !(prev < (#[trigger] before[p]).1 < size),
            old(self)@.stacks_bets == settled(before, prev as int),
            old(self)@.chips() <= u64::MAX,
        ensures
            final(self)@ == (PotState {
                pots: collect_layer(old(self)@.pots, before, prev as int, size as int),
                stacks_bets: settled(before, size as int),
                ..old(self)@
            }),
            eligibility_nested(final(self)@.pots),
            final(self)@.pots.len() > 0,
            final(self)@.chips() == old(self)@.chips(),
    {
        let delta: u64 = size - prev;
        let seats = seats_of(&self.player_stacks_bets);
        let ghost old_pots = self@.pots;
        let popped = self.pots.pop();
        let forming = popped.unwrap();
        let ghost rest = slices_of(self.pots@);
        let ghost total = old(self)@.chips();
        let mut amount: u64 = forming.amount;
        let mut admitted: HashSet<usize> = HashSet::new();
        let mut all_in: HashSet<usize> = HashSet::new();
        proof {
            assert(rest =~= old_pots.drop_last());
            assert(forming@ == old_pots.last());
            assert(paying_among(before, seats@, 0, size as int) =~= Set::empty());
            assert(self.player_stacks_bets@ =~= partly_settled(
                before,
                seats@,
                0,
                prev as int,
                size as int,
            ));
        }
        let mut i: usize = 0;
        while i < seats.len()
            invariant
                i <= seats@.len(),
                prev < size,
                delta == size - prev,
                seats@.to_set() == before.dom(),
                seats@.no_duplicates(),
                before.dom().finite(),
                forall|p: usize|
                    before.contains_key(p) ==> (#[trigger] before[p]).1 <= before[p].0,
                forall|p: usize|
                    before.contains_key(p) ==> !(prev < (#[trigger] before[p]).1 < size),
                slices_of(self.pots@) == rest,
                self.player_stacks_bets@ == partly_settled(
                    before,
                    seats@,
                    i as int,
                    prev as int,
                    size as int,
                ),
                forall|p: usize|
                    admitted@.contains(p) <==> among_first(seats@, i as int, p)
                        && forming@.eligible.contains(p) && before[p].1 >= size,
                forall|p: usize| all_in@.contains(p) <==> admitted@.contains(p) && before[p].0 == size,
                paying_among(before, seats@, i as int, size as int).finite(),
                amount == forming.amount + delta * paying_among(
                    before,
                    seats@,
                    i as int,
                    size as int,
                ).len(),
                pots_total(rest) + amount + total_stacks(self.player_stacks_bets@) == total,
                total <= u64::MAX,
                self.bet_sizes == old(self).bet_sizes,
                self.largest_bet_idxes == old(self).largest_bet_idxes,
                self.largest_bet == old(self).largest_bet,
                self.bet_diff == old(self).bet_diff,
                self.sb_amt == old(self).sb_amt,
                self.bb_amt == old(self).bb_amt,
                self.ante_amt == old(self).ante_amt,
                self.is_bomb_pot == old(self).is_bomb_pot,
            decreases seats@.len() - i,
        {
            let seat = seats[i];
            let ghost table = self.player_stacks_bets@;
            let ghost payers = paying_among(before, seats@, i as int, size as int);
            proof {
                assert(seats@.to_set().contains(seat));
                assert(!among_first(seats@, i as int, seat));
                assert(among_first(seats@, i + 1, seat));
            }
            let entry = self.player_stacks_bets.get(&seat);
            assert(entry is Some);
            let stack: u64 = entry.unwrap().0;
            let bet: u64 = entry.unwrap().1;
            if bet >= delta {
                proof {
                    crate::chips::lemma_sum_below_bounds_term(
                        stack_of(table),
                        seat as int,
                        seat_limit(),
                    );
                    lemma_pots_nonneg(rest);
                }
                self.player_stacks_bets.insert(seat, ((stack - delta) as u64, (bet - delta) as u64));
                amount = amount + delta;
                if forming.elegible_players.contains(&seat) {
                    admitted.insert(seat);
                    if stack - delta == 0 {
                        all_in.insert(seat);
                    }
                }
                proof {
                    lemma_sum_below_update(
                        stack_of(table),
                        stack_of(self.player_stacks_bets@),
                        seat as int,
                        seat_limit(),
                    );
                    let grown = paying_among(before, seats@, i + 1, size as int);
                    assert(grown =~= payers.insert(seat));
                    assert(delta * (payers.len() + 1) == delta * payers.len() + delta)
                        by (nonlinear_arith);
                }
            } else {
                proof {
                    let grown = paying_among(before, seats@, i + 1, size as int);
                    assert(grown =~= payers);
                }
            }
            proof {
                assert forall|p: usize| among_first(seats@, i + 1, p) <==> among_first(
                    seats@,
                    i as int,
                    p,
                ) || p == seat by {}
                assert(self.player_stacks_bets@ =~= partly_settled(
                    before,
                    seats@,
                    i + 1,
                    prev as int,
                    size as int,
                ));
            }
            i += 1;
        }
        let any_all_in = !all_in.is_empty();
        let others = seats_without(&admitted, &all_in);
        proof {
            assert forall|p: usize| before.contains_key(p) <==> among_first(
                seats@,
                i as int,
                p,
            ) by {
                if before.contains_key(p) {
                    assert(seats@.to_set().contains(p));
                }
                if among_first(seats@, i as int, p) {
                    assert(seats@.to_set().contains(p));
                }
            }
            assert(paying_among(before, seats@, i as int, size as int) =~= paying(
                before,
                size as int,
            ));
            assert(self.player_stacks_bets@ =~= settled(before, size as int));
            assert(admitted@ =~= forming@.eligible.intersect(paying(before, size as int)));
            assert(all_in@ =~= out_of_chips(before, admitted@, size as int));
        }
        self.pots.push(PartialPot { amount, elegible_players: admitted });
        let ghost grown = slices_of(self.pots@);
        proof {
            assert(grown =~= rest.push(
                PotSlice { amount: amount as nat, eligible: admitted@ },
            ));
            assert(grown.drop_last() =~= rest);
            assert(pots_total(grown) == pots_total(rest) + amount);
        }
        if any_all_in {
            self.pots.push(PartialPot { amount: 0, elegible_players: others });
            proof {
                assert(slices_of(self.pots@) =~= grown.push(
                    PotSlice { amount: 0, eligible: others@ },
                ));
                assert(slices_of(self.pots@).drop_last() =~= grown);
                assert(pots_total(slices_of(self.pots@)) == pots_total(grown));
            }
        }
        proof {
            let result = collect_layer(old_pots, before, prev as int, size as int);
            assert(self@.pots =~= result);
            assert forall|a: int, b: int| 0 <= a < b < result.len() implies (
            #[trigger] result[b]).eligible.subset_of((#[trigger] result[a]).eligible) by {
                if a < rest.len() {
                    assert(old_pots.last().eligible.subset_of(old_pots[a].eligible));
                    if b < rest.len() {
                        assert(old_pots[b].eligible.subset_of(old_pots[a].eligible));
                    }
                }
            }
        }
    }

    /// Ends the street: moves every bet from its stack into the slices and
    /// starts the betting afresh.
    ///
    /// The bets are collected in layers, from the smallest bet size up. Each
    /// layer goes into the forming slice, which from then on admits only those
    /// of its seats that paid the layer; where one of them is out of chips, the
    /// slice is closed and a new one opened for the others. A pot without a
    /// slice first gets one that admits every entrant.
    pub fn collect_bets(&mut self)
        requires
            old(self)@.wf(),
        ensures
            final(self)@ == old(self)@.after_collect(),
            final(self)@.wf(),
            final(self)@.chips() == old(self)@.chips(),
    {
        let ghost before = self.player_stacks_bets@;
        let ghost size_set = self.bet_sizes@;
        let sizes = amounts_of(&self.bet_sizes);
        if self.pots.len() == 0 {
            let everyone = entrants_of(&self.player_stacks_bets);
            self.pots.push(PartialPot { amount: 0, elegible_players: everyone });
        }
        let ghost start = self@.pots;
        proof {
            if old(self)@.pots.len() == 0 {
                assert(start =~= seq![PotSlice { amount: 0, eligible: before.dom() }]);
                assert(start.drop_last() =~= Seq::<PotSlice>::empty());
                assert(pots_total(Seq::<PotSlice>::empty()) == 0);
                assert(pots_total(start) == 0);
            } else {
                assert(start =~= old(self)@.pots);
            }
            assert(self.player_stacks_bets@ =~= settled(before, 0));
        }
        let mut prev: u64 = 0;
        let mut i: usize = 0;
        while i < sizes.len()
            invariant
                i <= sizes@.len(),
                sizes@.to_set() == size_set,
                ascending_amounts(sizes@),
                size_set == nonzero_bets(before),
                prev == if i == 0 {
                    0
                } else {
                    sizes@[i - 1]
                },
                before.dom().finite(),
                forall|p: usize|
                    before.contains_key(p) ==> (#[trigger] before[p]).1 <= before[p].0,
                self@.stacks_bets == settled(before, prev as int),
                self@.pots.len() > 0,
                eligibility_nested(self@.pots),
                collect_layers(self@.pots, before, size_set, prev as int) == collect_layers(
                    start,
                    before,
                    size_set,
                    0,
                ),
                self@.chips() == old(self)@.chips(),
                old(self)@.chips() <= u64::MAX,
                self@.bet_sizes == size_set,
                self@.sb_amt == old(self)@.sb_amt,
                self@.bb_amt == old(self)@.bb_amt,
                self@.ante_amt == old(self)@.ante_amt,
                self@.is_bomb_pot == old(self)@.is_bomb_pot,
            decreases sizes@.len() - i,
        {
            let size = sizes[i];
            proof {
                assert(sizes@.to_set().contains(size));
                if i > 0 {
                    assert(sizes@[i - 1] < sizes@[i as int]);
                }
                assert forall|p: usize| before.contains_key(p) implies !(prev < (
                #[trigger] before[p]).1 < size) by {
                    let b = before[p].1;
                    if prev < b < size {
                        assert(nonzero_bets(before).contains(b));
                        assert(sizes@.to_set().contains(b));
                        lemma_ascending_gap(sizes@, i as int, b);
                    }
                }
                assert forall|y: int| #[trigger]
                    size_pred(size_set)(y) && prev + 1 <= y implies size <= y by {
                    if y < size {
                        assert(sizes@.to_set().contains(y as u64));
                        lemma_ascending_gap(sizes@, i as int, y as u64);
                    }
                }
                assert(size_pred(size_set)(size as int));
                lemma_least_from_is(size_pred(size_set), prev + 1, size as int);
            }
            self.collect_layer(prev, size, Ghost(before));
            prev = size;
            i += 1;
        }
        proof {
            assert forall|b: u64| size_set.contains(b) implies b <= prev by {
                assert(sizes@.to_set().contains(b));
                let j = choose|j: int| 0 <= j < sizes@.len() && sizes@[j] == b;
                if j < i - 1 {
                    assert(sizes@[j] < sizes@[i - 1]);
                }
            }
            assert forall|y: int| prev + 1 <= y implies !#[trigger] size_pred(size_set)(y) by {
                if size_pred(size_set)(y) {
                    assert(size_set.contains(y as u64));
                }
            }
            lemma_least_from_none(size_pred(size_set), prev + 1);
            assert forall|p: usize| before.contains_key(p) implies (#[trigger] before[p]).1
                <= prev by {
                if before[p].1 > 0 {
                    assert(nonzero_bets(before).contains(before[p].1));
                }
            }
            assert(settled(before, prev as int) =~= paid_in_full(before));
        }
        self.bet_sizes.clear();
        self.bet_diff = self.bb_amt;
        self.largest_bet = 0;
        self.largest_bet_idxes = None;
        proof {
            assert(self@.bet_sizes =~= nonzero_bets(self@.stacks_bets));
            lemma_slices_finite(self.pots@);
        }
    }

    /// Gives every entrant the ante as its bet, capped at its stack, and
    /// collects those bets into the pot.
    pub fn pay_and_collect_ante(&mut self)
        requires
            old(self)@.wf(),
        ensures
            final(self)@ == old(self)@.after_antes(),
            final(self)@.wf(),
            final(self)@.chips() == old(self)@.chips(),
    {
        let ghost before = self.player_stacks_bets@;
        let seats = seats_of(&self.player_stacks_bets);
        let ante: u64 = self.ante_amt;
        let mut i: usize = 0;
        while i < seats.len()
            invariant
                i <= seats@.len(),
                seats@.to_set() == before.dom(),
                self.player_stacks_bets@.dom() == before.dom(),
                forall|p: usize|
                    before.contains_key(p) ==> #[trigger] self.player_stacks_bets@[p] == if among_first(
                        seats@,
                        i as int,
                        p,
                    ) {
                        (before[p].0, capped(before[p].0, ante))
                    } else {
                        before[p]
                    },
                self.pots == old(self).pots,
                self.bet_sizes == old(self).bet_sizes,
                self.largest_bet_idxes == old(self).largest_bet_idxes,
                self.largest_bet == old(self).largest_bet,
                self.bet_diff == old(self).bet_diff,
                self.sb_amt == old(self).sb_amt,
                self.bb_amt == old(self).bb_amt,
                self.ante_amt == old(self).ante_amt,
                self.is_bomb_pot == old(self).is_bomb_pot,
            decreases seats@.len() - i,
        {
            let seat = seats[i];
            proof {
                assert(seats@.to_set().contains(seat));
                assert(among_first(seats@, i + 1, seat));
                assert forall|p: usize| among_first(seats@, i + 1, p) <==> among_first(
                    seats@,
                    i as int,
                    p,
                ) || p == seat by {}
            }
            let entry = self.player_stacks_bets.get(&seat);
            assert(entry is Some);
            let stack: u64 = entry.unwrap().0;
            let bet_size = if ante <= stack {
                ante
            } else {
                stack
            };
            self.player_stacks_bets.insert(seat, (stack, bet_size));
            proof {
                assert(self.player_stacks_bets@.dom() =~= before.dom());
            }
            i += 1;
        }
        self.bet_sizes = bet_sizes_of(&self.player_stacks_bets);
        proof {
            let target = old(self)@.with_antes();
            assert forall|p: usize| before.contains_key(p) implies among_first(
                seats@,
                i as int,
                p,
            ) by {
                assert(seats@.to_set().contains(p));
            }
            assert(self@.stacks_bets =~= target.stacks_bets);
            crate::chips::lemma_sum_below_agree(
                stack_of(before),
                stack_of(target.stacks_bets),
                seat_limit(),
            );
        }
        self.collect_bets();
    }

    /// Takes the forced bets before the deal.
    ///
    /// Every entrant pays the ante, which is collected into the pot. Unless the
    /// hand is a bomb pot, the big blind is then posted by the first entrant at
    /// or after `bb_idx`, going round the table, and the small blind by the
    /// last entrant before `bb_idx`; the big blind becomes the bet to call.
    /// Fails, changing nothing, where blinds are due and nobody has entered.
    pub fn post_before_deal(&mut self, bb_idx: &usize) -> (res: Result<(), PotError>)
        requires
            old(self)@.wf(),
        ensures
            res == old(self)@.post_before_deal_result(*bb_idx),
            final(self)@ == old(self)@.after_post_before_deal(*bb_idx),
            final(self)@.wf(),
            final(self)@.chips() == old(self)@.chips(),
    {
        if self.is_bomb_pot {
            self.pay_and_collect_ante();
            return Ok(());
        }
        let seats = seats_of(&self.player_stacks_bets);
        let n: usize = seats.len();
        let ghost dom = self.player_stacks_bets@.dom();
        if n == 0 {
            proof {
                assert forall|p: usize| !dom.contains(p) by {
                    if dom.contains(p) {
                        assert(seats@.to_set().contains(p));
                    }
                }
                assert(dom =~= Set::empty());
            }
            return Err(PotError::NoEntrants);
        }
        proof {
            assert(seats@.to_set().contains(seats@[0]));
        }
        let mut i: usize = 0;
        while i < n && seats[i] < *bb_idx
            invariant
                i <= n,
                n == seats@.len(),
                forall|j: int| 0 <= j < i ==> seats@[j] < *bb_idx,
            decreases n - i,
        {
            i += 1;
        }
        let bb_pos: usize = if i < n {
            seats[i]
        } else {
            seats[0]
        };
        let sb_pos: usize = if i > 0 {
            seats[i - 1]
        } else {
            seats[n - 1]
        };
        proof {
            let pred = seat_pred(dom);
            assert forall|y: int| #[trigger] pred(y) implies exists|j: int|
                0 <= j < n && seats@[j] == y by {
                assert(seats@.to_set().contains(y as usize));
            }
            assert forall|j: int| 0 <= j < n implies #[trigger] pred(seats@[j] as int) by {
                assert(seats@.to_set().contains(seats@[j]));
            }
            if i < n {
                assert forall|y: int| #[trigger] pred(y) && *bb_idx <= y implies bb_pos <= y by {
                    let j = choose|j: int| 0 <= j < n && seats@[j] == y;
                    if j > i {
                        assert(seats@[i as int] < seats@[j]);
                    }
                }
                assert(pred(bb_pos as int));
                lemma_least_from_is(pred, *bb_idx as int, bb_pos as int);
            } else {
                assert forall|y: int| *bb_idx <= y implies !#[trigger] pred(y) by {
                    if pred(y) {
                        let j = choose|j: int| 0 <= j < n && seats@[j] == y;
                    }
                }
                lemma_least_from_none(pred, *bb_idx as int);
                assert forall|y: int| #[trigger] pred(y) && 0 <= y implies bb_pos <= y by {
                    let j = choose|j: int| 0 <= j < n && seats@[j] == y;
                    if j > 0 {
                        assert(seats@[0] < seats@[j]);
                    }
                }
                assert(pred(bb_pos as int));
                lemma_least_from_is(pred, 0, bb_pos as int);
            }
            if i > 0 {
                assert forall|y: int| #[trigger] pred(y) && y < *bb_idx implies y <= sb_pos by {
                    let j = choose|j: int| 0 <= j < n && seats@[j] == y;
                    if j >= i {
                        if j > i {
                            assert(seats@[i as int] < seats@[j]);
                        }
                    } else if j < i - 1 {
                        assert(seats@[j] < seats@[i - 1]);
                    }
                }
                assert(pred(sb_pos as int));
                lemma_greatest_below_is(pred, *bb_idx as int, sb_pos as int);
            } else {
                assert forall|y: int| y < *bb_idx implies !#[trigger] pred(y) by {
                    if pred(y) {
                        let j = choose|j: int| 0 <= j < n && seats@[j] == y;
                        if j > 0 {
                            assert(seats@[0] < seats@[j]);
                        }
                    }
                }
                lemma_greatest_below_none(pred, *bb_idx as int);
                assert forall|y: int| #[trigger] pred(y) && y < seat_limit() implies y
                    <= sb_pos by {
                    let j = choose|j: int| 0 <= j < n && seats@[j] == y;
                    if j < n - 1 {
                        assert(seats@[j] < seats@[n - 1]);
                    }
                }
                assert(pred(sb_pos as int));
                lemma_greatest_below_is(pred, seat_limit(), sb_pos as int);
            }
            assert(dom.contains(bb_pos) && dom.contains(sb_pos));
            assert(!dom.is_empty());
        }
        self.pay_and_collect_ante();
        let posted = self.post_blind_amt(&bb_pos, &sb_pos);
        assert(posted is Ok);
        Ok(())
    }

    /// Pays the slices out to their winners, as `distribute_pot` does, where
    /// that can be done: every winner of a slice with chips in it has a
    /// player, and the chips of the players and of the pot together fit a chip
    /// count. Otherwise nothing is paid, nothing changes, and nothing is
    /// returned.
    pub fn try_distribute_pot(
        &mut self,
        players: &mut HashMap<usize, Player>,
        hand_rankings: &HashMap<usize, u64>,
        btn_idx: &usize,
    ) -> (paid: Option<HashMap<usize, u64>>)
        requires
            old(self)@.wf(),
        ensures
            paid is Some <==> winners_are_seated(
                old(self)@.pots,
                hand_rankings@,
                old(players)@.dom(),
            ) && sum_all(player_stack_of(old(players)@)) + pots_total(old(self)@.pots)
                <= u64::MAX,
            paid is None ==> final(self)@ == old(self)@ && final(players)@ == old(players)@,
            paid matches Some(pay) ==> pay@ == payouts(old(self)@.pots, hand_rankings@, *btn_idx)
                && final(players)@ == credited(old(players)@, pay@) && final(self)@ == (PotState {
                pots: paid_out(old(self)@.pots, hand_rankings@),
                ..old(self)@
            }) && sum_all(winnings_of(pay@)) + pots_total(final(self)@.pots) == pots_total(
                old(self)@.pots,
            ) && sum_all(player_stack_of(final(players)@)) == sum_all(
                player_stack_of(old(players)@),
            ) + sum_all(winnings_of(pay@)),
            paid matches Some(pay) ==> (all_contended(old(self)@.pots, hand_rankings@) ==> sum_all(
                winnings_of(pay@),
            ) == pots_total(old(self)@.pots)),
            final(self)@.wf(),
    {
        if !winners_seated(&self.pots, hand_rankings, players) {
            return None;
        }
        proof {
            lemma_pots_nonneg(self@.pots);
            lemma_sum_below_nonneg_all(player_stack_of(players@));
        }
        let in_slices: u64 = self.chips_in_slices();
        let fits = match sum_players(players) {
            Some(in_stacks) => in_stacks.checked_add(in_slices).is_some(),
            None => false,
        };
        if !fits {
            return None;
        }
        Some(self.distribute_pot(players, hand_rankings, btn_idx))
    }

    /// Pays the slices out to their winners.
    ///
    /// Each slice that holds chips goes to those of its seats that hold the
    /// highest ranked hand, in equal shares; the chips
    /// left over go one each to the first of them in the walk round the table
    /// that starts at the seat to the left of the button. The winnings are
    /// added to the players' stacks and returned by seat, and the slices that
    /// were won are left empty. Every winner of a slice with chips in it must
    /// have a player, and the chips of the players and of the pot together
    /// must fit a chip count. No chip is made or lost: the stacks grow by
    /// what leaves the slices, and where a seat contends for every slice that
    /// holds chips, that is all the chips of the pot.
    pub fn distribute_pot(
        &mut self,
        players: &mut HashMap<usize, Player>,
        hand_rankings: &HashMap<usize, u64>,
        btn_idx: &usize,
    ) -> (pay: HashMap<usize, u64>)
        requires
            old(self)@.wf(),
            winners_are_seated(old(self)@.pots, hand_rankings@, old(players)@.dom()),
            sum_all(player_stack_of(old(players)@)) + pots_total(old(self)@.pots) <= u64::MAX,
        ensures
            pay@ == payouts(old(self)@.pots, hand_rankings@, *btn_idx),
            final(players)@ == credited(old(players)@, pay@),
            final(self)@ == (PotState {
                pots: paid_out(old(self)@.pots, hand_rankings@),
                ..old(self)@
            }),
            final(self)@.wf(),
            sum_all(winnings_of(pay@)) + pots_total(final(self)@.pots) == pots_total(
                old(self)@.pots,
            ),
            sum_all(player_stack_of(final(players)@)) == sum_all(
                player_stack_of(old(players)@),
            ) + sum_all(winnings_of(pay@)),
            all_contended(old(self)@.pots, hand_rankings@) ==> sum_all(winnings_of(pay@))
                == pots_total(old(self)@.pots) && pots_total(final(self)@.pots) == 0,
    {
        let ghost pots0 = self@.pots;
        let ghost players0 = players@;
        let ghost seated = players@.dom();
        let ghost rk = hand_rankings@;
        let ghost btn = *btn_idx;
        let mut pay: HashMap<usize, u64> = HashMap::new();
        let n_pots: usize = self.pots.len();
        let mut i: usize = 0;
        proof {
            assert(pots0.take(0) =~= Seq::<PotSlice>::empty());
            assert(pay@ =~= payouts(pots0.take(0), rk, btn));
            assert(players@ =~= credited(players0, pay@));
            lemma_sum_below_zero(winnings_of(pay@), seat_limit());
            lemma_pots_nonneg(pots0);
        }
        while i < n_pots
            invariant
                i <= n_pots,
                n_pots == self.pots@.len(),
                n_pots == pots0.len(),
                pots0 == old(self)@.pots,
                players0 == old(players)@,
                seated == players0.dom(),
                winners_are_seated(pots0, rk, seated),
                rk == hand_rankings@,
                btn == *btn_idx,
                eligibility_nested(pots0),
                players@.dom() == seated,
                forall|k: int|
                    0 <= k < i ==> (#[trigger] self.pots@[k])@ == paid_out(pots0, rk)[k],
                forall|k: int| i <= k < n_pots ==> (#[trigger] self.pots@[k])@ == pots0[k],
                forall|p: usize| #[trigger]
                    pay@.contains_key(p) <==> wins_some(pots0.take(i as int), rk, p),
                forall|p: usize|
                    pay@.contains_key(p) ==> #[trigger] pay@[p] == payout(
                        pots0.take(i as int),
                        rk,
                        btn,
                        p,
                    ),
                players@ == credited(players0, pay@),
                forall|p: usize|
                    pay@.contains_key(p) && players0.contains_key(p) ==> (
                    #[trigger] players0[p]).stack + pay@[p] <= u64::MAX,
                sum_all(winnings_of(pay@)) + pots_total(slices_of(self.pots@)) == pots_total(pots0),
                sum_all(player_stack_of(players@)) == sum_all(player_stack_of(players0))
                    + sum_all(winnings_of(pay@)),
                sum_all(player_stack_of(players0)) + pots_total(pots0) <= u64::MAX,
                self.player_stacks_bets == old(self).player_stacks_bets,
                self.bet_sizes == old(self).bet_sizes,
                self.largest_bet_idxes == old(self).largest_bet_idxes,
                self.largest_bet == old(self).largest_bet,
                self.bet_diff == old(self).bet_diff,
                self.sb_amt == old(self).sb_amt,
                self.bb_amt == old(self).bb_amt,
                self.ante_amt == old(self).ante_amt,
                self.is_bomb_pot == old(self).is_bomb_pot,
            decreases n_pots - i,
        {
            let amount: u64 = self.pots[i].amount;
            let order = slice_winners(&self.pots[i], hand_rankings);
            let ghost w = winners(pots0[i as int], rk);
            let ghost pay_before = pay@;
            let ghost players_before = players@;
            let ghost slices_before = slices_of(self.pots@);
            proof {
                assert(slices_before[i as int] == pots0[i as int]);
                order@.unique_seq_to_set();
                assert forall|p: usize|
                    wins_some(pots0.take(i + 1), rk, p) <==> wins_some(
                        pots0.take(i as int),
                        rk,
                        p,
                    ) || (amount > 0 && w.contains(p)) by {
                    lemma_payout_step(pots0, rk, btn, i as int, p);
                }
                assert forall|p: usize|
                    payout(pots0.take(i + 1), rk, btn, p) == payout(
                        pots0.take(i as int),
                        rk,
                        btn,
                        p,
                    ) + slice_share(pots0[i as int], rk, btn, p) by {
                    lemma_payout_step(pots0, rk, btn, i as int, p);
                }
                lemma_pots_bounds_term(slices_before, i as int);
                lemma_sum_below_nonneg_all(winnings_of(pay@));
                lemma_sum_below_nonneg_all(player_stack_of(players0));
            }
            if amount > 0 && order.len() > 0 {
                let walk = clockwise_from(&order, *btn_idx);
                proof {
                    assert forall|c: int| 0 <= c < walk@.len() implies players@.contains_key(
                        #[trigger] walk@[c],
                    ) by {
                        assert(walk@.to_set().contains(walk@[c]));
                        assert(w.contains(walk@[c]));
                    }
                }
                share_out(players, &mut pay, &walk, amount);
                self.pots[i].amount = 0;
                proof {
                    let n = walk@.len() as int;
                    assert(w.len() == n);
                    assert forall|p: usize| walk@.contains(p) <==> w.contains(p) by {
                        if walk@.contains(p) {
                            assert(walk@.to_set().contains(p));
                        }
                        if w.contains(p) {
                            assert(walk@.to_set().contains(p));
                        }
                    }
                    assert forall|c: int| 0 <= c < n implies slice_share(
                        pots0[i as int],
                        rk,
                        btn,
                        #[trigger] walk@[c],
                    ) == walk_share(n, amount as int, c) by {
                        assert(walk@.contains(walk@[c]));
                    }
                    assert forall|p: usize| pay@.contains_key(p) implies #[trigger] pay@[p]
                        == payout(pots0.take(i + 1), rk, btn, p) by {
                        if walk@.contains(p) {
                            let c = choose|c: int| 0 <= c < n && walk@[c] == p;
                            if !pay_before.contains_key(p) {
                                lemma_no_win_no_pay(pots0.take(i as int), rk, btn, p);
                            }
                        }
                    }
                    assert forall|p: usize| players0.contains_key(p) implies #[trigger] players@[p]
                        == credited(players0, pay@)[p] by {
                        if walk@.contains(p) {
                            let c = choose|c: int| 0 <= c < n && walk@[c] == p;
                            if !pay_before.contains_key(p) {
                                lemma_no_win_no_pay(pots0.take(i as int), rk, btn, p);
                            }
                        }
                    }
                    assert(players@ =~= credited(players0, pay@));
                    assert forall|p: usize|
                        pay@.contains_key(p) && players0.contains_key(p) implies (
                    #[trigger] players0[p]).stack + pay@[p] <= u64::MAX by {
                        if walk@.contains(p) {
                            let c = choose|c: int| 0 <= c < n && walk@[c] == p;
                        }
                    }
                    let slices_after = slices_of(self.pots@);
                    assert(slices_after =~= slices_before.update(
                        i as int,
                        PotSlice { amount: 0, eligible: pots0[i as int].eligible },
                    ));
                    lemma_pots_total_update(
                        slices_before,
                        i as int,
                        PotSlice { amount: 0, eligible: pots0[i as int].eligible },
                    );
                    assert(!w.is_empty()) by {
                        assert(w.contains(walk@[0]));
                    }
                }
            } else {
                proof {
                    if order@.len() == 0 {
                        assert(w =~= Set::empty());
                    } else {
                        assert(order@.to_set().contains(order@[0]));
                        assert(!w.is_empty());
                    }
                    assert(slices_of(self.pots@) =~= slices_before);
                }
            }
            i += 1;
        }
        proof {
            assert(pots0.take(n_pots as int) =~= pots0);
            assert(pay@ =~= payouts(pots0, rk, btn));
            let after = paid_out(pots0, rk);
            assert(self@.pots =~= after);
            lemma_sum_below_nonneg_all(winnings_of(pay@));
            assert forall|a: int, b: int| 0 <= a < b < after.len() implies (
            #[trigger] after[b]).eligible.subset_of((#[trigger] after[a]).eligible) by {
                assert(pots0[b].eligible.subset_of(pots0[a].eligible));
            }
            if all_contended(pots0, rk) {
                law_showdown_pays_the_whole_pot(pots0, rk, btn);
            }
        }
        pay
    }

    /// Whether the seat at `pos` may raise.
    pub fn can_pos_raise(&self, pos: &usize) -> (allowed: bool)
        ensures
            allowed == can_raise(self@.largest_bet_idxes, *pos),
    {
        match self.largest_bet_idxes {
            Some((lb, llb)) => {
                llb < lb && (*pos > lb || *pos < llb) || llb > lb && (*pos > lb && *pos < llb)
                    || llb == lb && lb != *pos
            },
            None => true,
        }
    }
}

/// The seats among the first `i` of `seats` whose bet reaches `size`.
pub open spec fn paying_among(
    m: Map<usize, (u64, u64)>,
    seats: Seq<usize>,
    i: int,
    size: int,
) -> Set<usize> {
    Set::new(|p: usize| among_first(seats, i, p) && m.contains_key(p) && m[p].1 >= size)
}

/// The stack table while a layer is being collected: the first `i` of `seats`
/// have paid up to `size`, the others up to `prev`.
pub open spec fn partly_settled(
    m: Map<usize, (u64, u64)>,
    seats: Seq<usize>,
    i: int,
    prev: int,
    size: int,
) -> Map<usize, (u64, u64)> {
    Map::new(
        |p: usize| m.contains_key(p),
        |p: usize|
            if among_first(seats, i, p) {
                settled(m, size)[p]
            } else {
                settled(m, prev)[p]
            },
    )
}

/// Slices with the same amounts hold the same chips in all.
pub proof fn lemma_pots_total_by_amounts(p: Seq<PotSlice>, q: Seq<PotSlice>)
    requires
        p.len() == q.len(),
        forall|i: int| 0 <= i < p.len() ==> (#[trigger] p[i]).amount == q[i].amount,
    ensures
        pots_total(p) == pots_total(q),
    decreases p.len(),
{
    if p.len() > 0 {
        lemma_pots_total_by_amounts(p.drop_last(), q.drop_last());
    }
}

/// Slices in which each admits only seats of the one before are nested.
pub proof fn lemma_nested_from_adjacent(slices: Seq<PotSlice>, a: int, b: int)
    requires
        0 <= a <= b < slices.len(),
        forall|j: int|
            1 <= j < slices.len() ==> (#[trigger] slices[j]).eligible.subset_of(
                slices[j - 1].eligible,
            ),
    ensures
        slices[b].eligible.subset_of(slices[a].eligible),
    decreases b - a,
{
    if a < b {
        lemma_nested_from_adjacent(slices, a, b - 1);
        assert(slices[b].eligible.subset_of(slices[b - 1].eligible));
    }
}

/// The first slices hold no more chips than all of them.
pub proof fn lemma_pots_total_prefix(p: Seq<PotSlice>, i: int)
    requires
        0 <= i <= p.len(),
    ensures
        pots_total(p.take(i)) <= pots_total(p),
    decreases p.len() - i,
{
    if i < p.len() {
        lemma_pots_total_prefix(p, i + 1);
        assert(p.take(i + 1).drop_last() =~= p.take(i));
    } else {
        assert(p.take(i) =~= p);
    }
}

/// No slice holds more chips than all slices together.
pub proof fn lemma_pots_bounds_term(p: Seq<PotSlice>, i: int)
    requires
        0 <= i < p.len(),
    ensures
        p[i].amount <= pots_total(p),
    decreases p.len(),
{
    lemma_pots_nonneg(p.drop_last());
    if i < p.len() - 1 {
        lemma_pots_bounds_term(p.drop_last(), i);
    }
}

/// Replacing one slice changes the chips in all slices by the difference.
pub proof fn lemma_pots_total_update(p: Seq<PotSlice>, i: int, slice: PotSlice)
    requires
        0 <= i < p.len(),
    ensures
        pots_total(p.update(i, slice)) == pots_total(p) - p[i].amount + slice.amount,
    decreases p.len(),
{
    let q = p.update(i, slice);
    if i == p.len() - 1 {
        assert(q.drop_last() =~= p.drop_last());
    } else {
        assert(q.drop_last() =~= p.drop_last().update(i, slice));
        lemma_pots_total_update(p.drop_last(), i, slice);
    }
}

/// A sum of winnings is never negative.
pub proof fn lemma_sum_below_nonneg_all(f: spec_fn(int) -> int)
    requires
        forall|k: int| #[trigger] f(k) >= 0,
    ensures
        sum_all(f) >= 0,
{
    crate::chips::lemma_sum_below_nonneg(f, seat_limit());
}

/// Slices never hold a negative number of chips.
pub proof fn lemma_pots_nonneg(p: Seq<PotSlice>)
    ensures
        pots_total(p) >= 0,
    decreases p.len(),
{
    if p.len() > 0 {
        lemma_pots_nonneg(p.drop_last());
    }
}

/// Setting a bet moves no chips: the stacks add up as before.
pub proof fn lemma_bet_keeps_stacks(m: Map<usize, (u64, u64)>, pos: usize, bet: u64)
    requires
        m.contains_key(pos),
    ensures
        total_stacks(m.insert(pos, (m[pos].0, bet))) == total_stacks(m),
{
    let after = m.insert(pos, (m[pos].0, bet));
    crate::chips::lemma_sum_below_agree(stack_of(m), stack_of(after), seat_limit());
}

} // verus!
