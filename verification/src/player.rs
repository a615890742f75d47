//! The record of one seat at the table.

use crate::cards::Card;
use crate::ordered::among_first;
use crate::ordered::seat_keys;
use std::collections::HashMap;
use vstd::prelude::*;

verus! {

/// A player at a seat: its chips, its cards and whether it plays.
#[derive(Debug)]
pub struct Player {
    pub table_position: usize,
    pub name: String,
    pub stack: u64,
    pub bet: u64,
    pub is_in_hand: bool,
    pub hand: Vec<Card>,
    pub is_away: bool,
    pub play_in_bomb_pots: bool,
}

impl Player {
    /// The same player with another stack.
    pub open spec fn with_stack(self, stack: u64) -> Player {
        Player { stack, ..self }
    }

    /// A player who has just sat down: present, in the hand, without cards
    /// and without a bet.
    pub fn new(position: usize, name: String, starting_stack: u64) -> (player: Player)
        ensures
            player.table_position == position,
            player.name == name,
            player.stack == starting_stack,
            player.bet == 0,
            player.is_in_hand,
            player.hand@ == Seq::<Card>::empty(),
            !player.is_away,
            player.play_in_bomb_pots,
    {
        Player {
            table_position: position,
            name,
            stack: starting_stack,
            bet: 0,
            is_in_hand: true,
            hand: Vec::new(),
            is_away: false,
            play_in_bomb_pots: true,
        }
    }

    /// Replaces the player's cards and changes nothing else.
    pub fn set_new_hand(&mut self, hand: Vec<Card>)
        ensures
            *final(self) == (Player { hand, ..*old(self) }),
    {
        self.hand = hand;
    }
}

/// The stack of the player at each seat, zero where nobody sits.
pub open spec fn player_stack_of(players: Map<usize, Player>) -> spec_fn(int) -> int {
    |k: int|
        if 0 <= k <= usize::MAX && players.contains_key(k as usize) {
            players[k as usize].stack as int
        } else {
            0
        }
}

/// The stacks that enter a hand: those of the players who are not away, each
/// without a bet, by the seat that the player is filed under.
pub open spec fn entrants(players: Map<usize, Player>) -> Map<usize, (u64, u64)> {
    Map::new(
        |k: usize| players.contains_key(k) && !players[k].is_away,
        |k: usize| (players[k].stack, 0u64),
    )
}

/// Every player who is not away is filed under the seat that it holds.
pub open spec fn entrants_in_place(players: Map<usize, Player>) -> bool {
    forall|k: usize|
        players.contains_key(k) && !(#[trigger] players[k]).is_away ==> players[k].table_position
            == k
}

/// Every player is filed under the seat that it holds.
pub open spec fn all_in_place(players: Map<usize, Player>) -> bool {
    forall|k: usize| players.contains_key(k) ==> (#[trigger] players[k]).table_position == k
}

/// Whether a player counts: as one who still contests the hand, or as one who
/// is present at the table.
pub open spec fn counts(player: Player, in_hand: bool) -> bool {
    if in_hand {
        player.is_in_hand
    } else {
        !player.is_away
    }
}

/// The seats of the players who still contest the hand, or of those who are
/// present.
pub open spec fn seats_of_those(players: Map<usize, Player>, in_hand: bool) -> Set<usize> {
    Set::new(|k: usize| players.contains_key(k) && counts(players[k], in_hand))
}

/// The seats of the players who still contest the hand, or of those who are
/// present, in no particular order.
pub fn list_seats(players: &HashMap<usize, Player>, in_hand: bool) -> (seats: Vec<usize>)
    ensures
        seats@.to_set() == seats_of_those(players@, in_hand),
        seats@.no_duplicates(),
        seats@.len() == seats_of_those(players@, in_hand).len(),
        seats_of_those(players@, in_hand).finite(),
{
    let keys = seat_keys(players);
    let mut seats: Vec<usize> = Vec::new();
    let mut i: usize = 0;
    while i < keys.len()
        invariant
            i <= keys@.len(),
            keys@.to_set() == players@.dom(),
            keys@.no_duplicates(),
            seats@.no_duplicates(),
            forall|k: usize| #[trigger]
                seats@.contains(k) <==> among_first(keys@, i as int, k) && counts(
                    players@[k],
                    in_hand,
                ),
        decreases keys@.len() - i,
    {
        let seat = keys[i];
        proof {
            assert(keys@.to_set().contains(seat));
            assert(!among_first(keys@, i as int, seat));
            assert forall|p: usize| among_first(keys@, i + 1, p) <==> among_first(
                keys@,
                i as int,
                p,
            ) || p == seat by {}
        }
        let found = players.get(&seat);
        assert(found is Some);
        let player = found.unwrap();
        let wanted = if in_hand {
            player.is_in_hand
        } else {
            !player.is_away
        };
        let ghost before = seats@;
        if wanted {
            seats.push(seat);
            proof {
                assert(!before.contains(seat));
                assert forall|k: usize| #[trigger]
                    seats@.contains(k) <==> before.contains(k) || k == seat by {
                    if before.contains(k) {
                        let j = choose|j: int| 0 <= j < before.len() && before[j] == k;
                        assert(seats@[j] == k);
                    }
                    if k == seat {
                        assert(seats@[before.len() as int] == seat);
                    }
                    if seats@.contains(k) {
                        let j = choose|j: int| 0 <= j < seats@.len() && seats@[j] == k;
                        if j < before.len() {
                            assert(before[j] == k);
                        }
                    }
                }
                assert forall|a: int, b: int| 0 <= a < b < seats@.len() implies seats@[a]
                    != seats@[b] by {
                    if b == before.len() {
                        assert(before.contains(before[a]));
                    }
                }
            }
        }
        proof {
            assert forall|k: usize| #[trigger]
                seats@.contains(k) <==> among_first(keys@, i + 1, k) && counts(
                    players@[k],
                    in_hand,
                ) by {
                assert(before.contains(k) <==> among_first(keys@, i as int, k) && counts(
                    players@[k],
                    in_hand,
                ));
            }
        }
        i += 1;
    }
    proof {
        assert forall|k: usize| seats@.to_set().contains(k) <==> seats_of_those(
            players@,
            in_hand,
        ).contains(k) by {
            if players@.contains_key(k) {
                assert(keys@.to_set().contains(k));
            }
            if among_first(keys@, i as int, k) {
                assert(keys@.to_set().contains(k));
            }
        }
        assert(seats@.to_set() =~= seats_of_those(players@, in_hand));
        seats@.unique_seq_to_set();
    }
    seats
}

/// The seats of the players who are not away, in no particular order.
pub fn entrant_seats(players: &HashMap<usize, Player>) -> (seats: Vec<usize>)
    ensures
        seats@.to_set() == entrants(players@).dom(),
        seats@.no_duplicates(),
        seats@.len() == entrants(players@).dom().len(),
{
    assert(entrants(players@).dom() =~= seats_of_those(players@, false));
    list_seats(players, false)
}

} // verus!
