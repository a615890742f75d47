//! The mathematical model of the pot engine.
//!
//! A `PotState` is what a pot is, apart from how it is stored. Each operation
//! of the engine is a function from states to states here, and the engine's
//! contracts say that the stored pot follows these functions.

use crate::chips::seat_limit;
use crate::chips::sum_all;
use crate::ordered::greatest_below;
use crate::ordered::least_from;
use crate::player::Player;
use crate::player::entrants;
use crate::player::entrants_in_place;
use crate::pots::error::PotError;
use vstd::prelude::*;

verus! {

/// A side-pot slice.
pub struct PotSlice {
    /// The chips in the slice.
    pub amount: nat,
    /// The seats that may win the slice.
    pub eligible: Set<usize>,
}

/// What `reset_pot` answers for the given players and stakes.
pub open spec fn reset_result(
    players: Map<usize, Player>,
    sb: u64,
    bb: u64,
    ante: u64,
    is_bomb: bool,
) -> Result<(), PotError> {
    if is_bomb && ante == 0 {
        Err(PotError::BombPotWithoutAnte)
    } else if sb == 0 || bb == 0 {
        Err(PotError::ZeroBlind)
    } else if sb > bb {
        Err(PotError::SmallBlindAboveBigBlind)
    } else if !entrants_in_place(players) {
        Err(PotError::MisplacedPlayer)
    } else if total_stacks(entrants(players)) > u64::MAX {
        Err(PotError::TooManyChips)
    } else {
        Ok(())
    }
}

/// The state of a pot.
pub struct PotState {
    /// The slices, oldest first. The last one is still forming.
    pub pots: Seq<PotSlice>,
    /// For each entrant's seat, the remaining stack and the bet of this
    /// street. The bet has not left the stack yet.
    pub stacks_bets: Map<usize, (u64, u64)>,
    /// The distinct non-zero bets of this street.
    pub bet_sizes: Set<u64>,
    /// The last seat to commit a bet and the last seat to raise legally.
    pub largest_bet_idxes: Option<(usize, usize)>,
    /// The highest bet of this street.
    pub largest_bet: u64,
    /// The least amount by which a raise must exceed the highest bet.
    pub bet_diff: u64,
    pub sb_amt: u64,
    pub bb_amt: u64,
    pub ante_amt: u64,
    pub is_bomb_pot: bool,
}

/// The stack at each seat, zero where nobody sits.
pub open spec fn stack_of(m: Map<usize, (u64, u64)>) -> spec_fn(int) -> int {
    |k: int|
        if 0 <= k <= usize::MAX && m.contains_key(k as usize) {
            m[k as usize].0 as int
        } else {
            0
        }
}

/// The chips in all stacks.
pub open spec fn total_stacks(m: Map<usize, (u64, u64)>) -> int {
    sum_all(stack_of(m))
}

/// The chips in all slices.
pub open spec fn pots_total(pots: Seq<PotSlice>) -> int
    decreases pots.len(),
{
    if pots.len() == 0 {
        0
    } else {
        pots_total(pots.drop_last()) + pots.last().amount
    }
}

/// Every slice has finitely many eligible seats.
pub open spec fn slices_finite(pots: Seq<PotSlice>) -> bool {
    forall|i: int| 0 <= i < pots.len() ==> (#[trigger] pots[i]).eligible.finite()
}

/// Every slice admits only seats that all older slices admit.
pub open spec fn eligibility_nested(pots: Seq<PotSlice>) -> bool {
    forall|i: int, j: int|
        0 <= i < j < pots.len() ==> (#[trigger] pots[j]).eligible.subset_of(
            (#[trigger] pots[i]).eligible,
        )
}

/// The distinct non-zero bets in a stack table.
pub open spec fn nonzero_bets(m: Map<usize, (u64, u64)>) -> Set<u64> {
    Set::new(|b: u64| b > 0 && exists|p: usize| m.contains_key(p) && (#[trigger] m[p]).1 == b)
}

/// `amount`, or the whole stack where the stack is smaller.
pub open spec fn capped(stack: u64, amount: u64) -> u64 {
    if amount <= stack {
        amount
    } else {
        stack
    }
}

/// Whether a seat may raise, given the last seat to bet and the last seat to
/// raise legally. Seats that have acted on the last legal raise may not.
pub open spec fn can_raise(idxes: Option<(usize, usize)>, pos: usize) -> bool {
    match idxes {
        None => true,
        Some((lb, llb)) => if llb < lb {
            pos > lb || pos < llb
        } else if llb > lb {
            lb < pos < llb
        } else {
            pos != lb
        },
    }
}

/// Membership in a set of seats, as a predicate on numbers.
pub open spec fn seat_pred(seats: Set<usize>) -> spec_fn(int) -> bool {
    |x: int| 0 <= x <= usize::MAX && seats.contains(x as usize)
}

/// Membership in a set of bet sizes, as a predicate on numbers.
pub open spec fn size_pred(sizes: Set<u64>) -> spec_fn(int) -> bool {
    |x: int| 0 <= x <= u64::MAX && sizes.contains(x as u64)
}

/// The seat that posts the big blind: the first entrant at or after `bb_idx`,
/// going round the table.
pub open spec fn big_blind_seat(seats: Set<usize>, bb_idx: usize) -> Option<int> {
    match least_from(seat_pred(seats), bb_idx as int) {
        Some(p) => Some(p),
        None => least_from(seat_pred(seats), 0),
    }
}

/// The seat that posts the small blind: the last entrant before `bb_idx`,
/// going round the table.
pub open spec fn small_blind_seat(seats: Set<usize>, bb_idx: usize) -> Option<int> {
    match greatest_below(seat_pred(seats), bb_idx as int) {
        Some(p) => Some(p),
        None => greatest_below(seat_pred(seats), seat_limit()),
    }
}

/// The seats whose bet reaches `size`.
pub open spec fn paying(m: Map<usize, (u64, u64)>, size: int) -> Set<usize> {
    Set::new(|p: usize| m.contains_key(p) && m[p].1 >= size)
}

/// The stack table once every bet has been collected up to `upto` chips:
/// seats that bet more keep the rest of their bet, the others have paid theirs
/// in full.
pub open spec fn settled(m: Map<usize, (u64, u64)>, upto: int) -> Map<usize, (u64, u64)> {
    Map::new(
        |p: usize| m.contains_key(p),
        |p: usize|
            if m[p].1 >= upto {
                ((m[p].0 - upto) as u64, (m[p].1 - upto) as u64)
            } else {
                ((m[p].0 - m[p].1) as u64, 0u64)
            },
    )
}

/// Those of `seats` whose whole stack is `size` chips.
pub open spec fn out_of_chips(m: Map<usize, (u64, u64)>, seats: Set<usize>, size: int) -> Set<
    usize,
> {
    Set::new(|p: usize| seats.contains(p) && m[p].0 == size)
}

/// The stack table once every bet has been collected in full.
pub open spec fn paid_in_full(m: Map<usize, (u64, u64)>) -> Map<usize, (u64, u64)> {
    Map::new(|p: usize| m.contains_key(p), |p: usize| ((m[p].0 - m[p].1) as u64, 0u64))
}

/// The slices after the layer of bets between `prev` and `size` has been
/// collected: every seat that bet at least `size` adds `size - prev` chips to
/// the forming slice, which then admits only those among its seats that paid.
/// If any of them is out of chips at this layer, the slice is closed and a new
/// one opened for the others.
pub open spec fn collect_layer(
    pots: Seq<PotSlice>,
    m: Map<usize, (u64, u64)>,
    prev: int,
    size: int,
) -> Seq<PotSlice> {
    let forming = pots.last();
    let payers = paying(m, size);
    let admitted = forming.eligible.intersect(payers);
    let all_in = out_of_chips(m, admitted, size);
    let grown = pots.drop_last().push(
        PotSlice {
            amount: (forming.amount + (size - prev) * payers.len()) as nat,
            eligible: admitted,
        },
    );
    if all_in.is_empty() {
        grown
    } else {
        grown.push(PotSlice { amount: 0, eligible: admitted.difference(all_in) })
    }
}

/// The next bet size above `prev`.
pub open spec fn next_size(sizes: Set<u64>, prev: int) -> Option<int> {
    least_from(size_pred(sizes), prev + 1)
}

/// The slices after all layers above `prev` have been collected, in
/// increasing order of bet size.
pub open spec fn collect_layers(
    pots: Seq<PotSlice>,
    m: Map<usize, (u64, u64)>,
    sizes: Set<u64>,
    prev: int,
) -> Seq<PotSlice>
    decreases u64::MAX - prev,
{
    match next_size(sizes, prev) {
        Some(size) => if prev < size <= u64::MAX {
            collect_layers(collect_layer(pots, m, prev, size), m, sizes, size)
        } else {
            pots
        },
        None => pots,
    }
}

impl PotState {
    /// A pot before its first hand.
    pub open spec fn empty() -> PotState {
        PotState {
            pots: Seq::empty(),
            stacks_bets: Map::empty(),
            bet_sizes: Set::empty(),
            largest_bet_idxes: None,
            largest_bet: 0,
            bet_diff: 0,
            sb_amt: 0,
            bb_amt: 0,
            ante_amt: 0,
            is_bomb_pot: false,
        }
    }

    /// A pot at the start of a hand: the given stacks, no bets, no slices.
    pub open spec fn fresh(
        stacks: Map<usize, (u64, u64)>,
        sb: u64,
        bb: u64,
        ante: u64,
        is_bomb: bool,
    ) -> PotState {
        PotState {
            pots: Seq::empty(),
            stacks_bets: stacks,
            bet_sizes: Set::empty(),
            largest_bet_idxes: None,
            largest_bet: 0,
            bet_diff: bb,
            sb_amt: sb,
            bb_amt: bb,
            ante_amt: ante,
            is_bomb_pot: is_bomb,
        }
    }

    /// What every operation of the engine keeps true.
    pub open spec fn wf(self) -> bool {
        &&& self.stacks_bets.dom().finite()
        &&& forall|p: usize|
            self.stacks_bets.contains_key(p) ==> (#[trigger] self.stacks_bets[p]).1
                <= self.stacks_bets[p].0
        &&& self.bet_sizes == nonzero_bets(self.stacks_bets)
        &&& eligibility_nested(self.pots)
        &&& slices_finite(self.pots)
        &&& self.chips() <= u64::MAX
    }

    /// All chips the pot accounts for: those in the slices and those still
    /// in the stacks, bets included.
    pub open spec fn chips(self) -> int {
        pots_total(self.pots) + total_stacks(self.stacks_bets)
    }

    /// An entrant sits at `pos`.
    pub open spec fn has_seat(self, pos: usize) -> bool {
        self.stacks_bets.contains_key(pos)
    }

    /// The state once the seat at `pos` has `amount` as its bet, or all of its
    /// stack where that is less.
    pub open spec fn with_bet(self, pos: usize, amount: u64) -> PotState {
        let stack = self.stacks_bets[pos].0;
        let table = self.stacks_bets.insert(pos, (stack, capped(stack, amount)));
        PotState { stacks_bets: table, bet_sizes: nonzero_bets(table), ..self }
    }

    /// The least bet that is a legal raise.
    pub open spec fn min_raise(self) -> int {
        self.largest_bet + self.bet_diff
    }

    /// What a bet of `amount` from `pos` commits.
    pub open spec fn committed(self, pos: usize, amount: u64) -> u64 {
        capped(self.stacks_bets[pos].0, amount)
    }

    /// A bet of `amount` from `pos` is a legal raise: the amount asked for
    /// reaches the minimum raise. What it commits may be less, where the stack
    /// is smaller; the raise then counts for what is committed over the
    /// highest bet. A stack under the highest bet commits nothing over it and
    /// raises nothing, whatever amount is asked for.
    pub open spec fn is_legal_raise(self, pos: usize, amount: u64) -> bool {
        amount >= self.min_raise() && self.committed(pos, amount) >= self.largest_bet
    }

    /// A bet of `amount` from `pos` puts the seat all in without being a legal
    /// raise.
    pub open spec fn is_short_all_in(self, pos: usize, amount: u64) -> bool {
        !self.is_legal_raise(pos, amount) && amount >= self.stacks_bets[pos].0
    }

    /// What `bet_or_shove` answers.
    pub open spec fn bet_or_shove_result(self, pos: usize, amount: u64) -> Result<u64, PotError> {
        if !can_raise(self.largest_bet_idxes, pos) {
            Err(PotError::CappedAction)
        } else if !self.has_seat(pos) {
            Err(PotError::UnknownSeat { position: pos })
        } else if self.is_legal_raise(pos, amount) || self.is_short_all_in(pos, amount) {
            Ok(self.committed(pos, amount))
        } else if self.stacks_bets[pos].0 <= self.min_raise() {
            Err(PotError::MustShove { bet: amount })
        } else {
            Err(PotError::BetTooSmall { bet: amount, min_raise: self.min_raise() as u64 })
        }
    }

    /// The state after `bet_or_shove`.
    pub open spec fn after_bet_or_shove(self, pos: usize, amount: u64) -> PotState {
        if self.bet_or_shove_result(pos, amount) is Ok {
            let committed = self.committed(pos, amount);
            let legal = self.is_legal_raise(pos, amount);
            let last_legal = if legal {
                pos
            } else {
                match self.largest_bet_idxes {
                    Some((_, llb)) => llb,
                    None => pos,
                }
            };
            PotState {
                largest_bet_idxes: Some((pos, last_legal)),
                largest_bet: if committed > self.largest_bet {
                    committed
                } else {
                    self.largest_bet
                },
                bet_diff: if legal {
                    (committed - self.largest_bet) as u64
                } else {
                    self.bet_diff
                },
                ..self.with_bet(pos, amount)
            }
        } else {
            self
        }
    }

    /// What `check_call` answers.
    pub open spec fn check_call_result(self, pos: usize) -> Result<u64, PotError> {
        if self.has_seat(pos) {
            Ok(self.committed(pos, self.largest_bet))
        } else {
            Err(PotError::UnknownSeat { position: pos })
        }
    }

    /// The state after `check_call`.
    pub open spec fn after_check_call(self, pos: usize) -> PotState {
        if self.has_seat(pos) {
            PotState {
                largest_bet_idxes: match self.largest_bet_idxes {
                    None => Some((pos, pos)),
                    some => some,
                },
                ..self.with_bet(pos, self.largest_bet)
            }
        } else {
            self
        }
    }

    /// The state after `fold`: the seat can win no slice any more.
    pub open spec fn after_fold(self, pos: usize) -> PotState {
        PotState {
            pots: Seq::new(
                self.pots.len(),
                |i: int|
                    PotSlice {
                        amount: self.pots[i].amount,
                        eligible: self.pots[i].eligible.remove(pos),
                    },
            ),
            largest_bet_idxes: match self.largest_bet_idxes {
                None => Some((pos, pos)),
                some => some,
            },
            ..self
        }
    }

    /// The state after the end of a street: every bet has moved from its
    /// stack into the slices, layer by layer, and the betting starts afresh.
    pub open spec fn after_collect(self) -> PotState {
        let start = if self.pots.len() == 0 {
            seq![PotSlice { amount: 0, eligible: self.stacks_bets.dom() }]
        } else {
            self.pots
        };
        PotState {
            pots: collect_layers(start, self.stacks_bets, self.bet_sizes, 0),
            stacks_bets: paid_in_full(self.stacks_bets),
            bet_sizes: Set::empty(),
            largest_bet_idxes: None,
            largest_bet: 0,
            bet_diff: self.bb_amt,
            ..self
        }
    }

    /// The state once every entrant has the ante as its bet.
    pub open spec fn with_antes(self) -> PotState {
        let table = Map::new(
            |p: usize| self.stacks_bets.contains_key(p),
            |p: usize| (self.stacks_bets[p].0, capped(self.stacks_bets[p].0, self.ante_amt)),
        );
        PotState { stacks_bets: table, bet_sizes: nonzero_bets(table), ..self }
    }

    /// The state after the antes have been paid and collected.
    pub open spec fn after_antes(self) -> PotState {
        self.with_antes().after_collect()
    }

    /// The state after the two blinds have been posted at the given seats.
    pub open spec fn with_blinds(self, bb_pos: usize, sb_pos: usize) -> PotState {
        PotState {
            largest_bet: self.bb_amt,
            ..self.with_bet(bb_pos, self.bb_amt).with_bet(sb_pos, self.sb_amt)
        }
    }

    /// What `post_before_deal` answers.
    pub open spec fn post_before_deal_result(self, bb_idx: usize) -> Result<(), PotError> {
        if !self.is_bomb_pot && self.stacks_bets.dom().is_empty() {
            Err(PotError::NoEntrants)
        } else {
            Ok(())
        }
    }

    /// The state after `post_before_deal`.
    pub open spec fn after_post_before_deal(self, bb_idx: usize) -> PotState {
        if self.post_before_deal_result(bb_idx) is Err {
            self
        } else if self.is_bomb_pot {
            self.after_antes()
        } else {
            self.after_antes().with_blinds(
                big_blind_seat(self.stacks_bets.dom(), bb_idx)->0 as usize,
                small_blind_seat(self.stacks_bets.dom(), bb_idx)->0 as usize,
            )
        }
    }
}

} // verus!
