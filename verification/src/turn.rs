//! The two turns of a round. The player's turn is driven from outside, one
//! decision at a time; the dealer's turn runs by itself.

use crate::deck::hit;
use crate::score::{calculate, lemma_score_push_bound, score, BUST_LIMIT};
use rand::rngs::ThreadRng;
use vstd::prelude::*;

verus! {

/// The decision to draw one more card.
pub const HIT: u8 = 1;

/// The decision to stop drawing.
pub const STAND: u8 = 0;

/// The dealer draws while the hand scores less than this.
pub const DEALER_THRESHOLD: u8 = 16;

/// Where a participant's turn stands.
#[derive(Clone, Copy, Debug, PartialEq, Eq, Structural)]
pub enum TurnState {
    /// The turn goes on: the next decision is awaited.
    AwaitingDecision,
    /// The hand scores more than 21; the turn is over.
    Busted,
    /// The participant stopped drawing; the turn is over.
    Standing,
}

/// A card was needed in the middle of a turn and the pool was empty.
#[derive(Clone, Copy, Debug, PartialEq, Eq, Structural)]
pub struct DeckExhausted;

/// The state of the player's turn right after a card was added to `hand`.
pub open spec fn state_after_hit(hand: Seq<u8>) -> TurnState {
    if score(hand) > BUST_LIMIT {
        TurnState::Busted
    } else {
        TurnState::AwaitingDecision
    }
}

/// The state in which a turn ends with `hand`.
pub open spec fn final_state(hand: Seq<u8>) -> TurnState {
    if score(hand) > BUST_LIMIT {
        TurnState::Busted
    } else {
        TurnState::Standing
    }
}

/// One step of the player's turn, taken in the state `AwaitingDecision`.
///
/// `STAND` ends the turn and `HIT` draws one card and adds it to the hand,
/// which ends the turn where it busts the hand. Any other decision changes
/// nothing and leaves the turn waiting. A hit on an empty pool is the error.
pub fn player_step(
    cards: &mut Vec<u8>,
    player: &mut Vec<u8>,
    decision: u8,
    rng: &mut ThreadRng,
) -> (next: Result<TurnState, DeckExhausted>)
    requires
        decision == HIT ==> score(old(player)@) + 11 <= u8::MAX,
    ensures
        decision == STAND ==> next == Ok::<TurnState, DeckExhausted>(TurnState::Standing),
        decision > HIT ==> next == Ok::<TurnState, DeckExhausted>(TurnState::AwaitingDecision),
        decision == HIT && old(cards)@.len() == 0 ==> next is Err,
        decision != HIT || old(cards)@.len() == 0 ==> final(player)@ == old(player)@ && final(cards)@ == old(cards)@,
        decision == HIT && old(cards)@.len() > 0 ==> {
            &&& final(player)@.len() == old(player)@.len() + 1
            &&& final(player)@.drop_last() == old(player)@
            &&& old(cards)@.to_multiset().count(final(player)@.last()) > 0
            &&& final(cards)@.to_multiset() == old(cards)@.to_multiset().remove(
                final(player)@.last(),
            )
            &&& final(cards)@.len() == old(cards)@.len() - 1
            &&& next == Ok::<TurnState, DeckExhausted>(state_after_hit(final(player)@))
        },
{
    if decision == HIT {
        match hit(cards, rng) {
            Some(card) => {
                proof {
                    lemma_score_push_bound(player@, card);
                }
                player.push(card);
                assert(player@.drop_last() =~= old(player)@);
                let result = calculate(player.clone());
                if result > BUST_LIMIT {
                    Ok(TurnState::Busted)
                } else {
                    Ok(TurnState::AwaitingDecision)
                }
            },
            None => Err(DeckExhausted),
        }
    } else if decision > HIT {
        Ok(TurnState::AwaitingDecision)
    } else {
        Ok(TurnState::Standing)
    }
}

/// What every run of the dealer's turn does to the pool and to the hand:
/// the hand keeps its cards and grows by cards that left the pool, and each
/// of them was drawn on a score below the threshold.
pub open spec fn dealer_played(
    pool_before: Seq<u8>,
    hand_before: Seq<u8>,
    pool_after: Seq<u8>,
    hand_after: Seq<u8>,
) -> bool {
    &&& hand_before.len() <= hand_after.len()
    &&& hand_after.take(hand_before.len() as int) == hand_before
    &&& pool_after.len() + hand_after.len() == pool_before.len() + hand_before.len()
    &&& pool_after.to_multiset().add(hand_after.to_multiset()) == pool_before.to_multiset().add(
        hand_before.to_multiset(),
    )
    &&& forall|n: int|
        hand_before.len() <= n < hand_after.len() ==> score(#[trigger] hand_after.take(n))
            < DEALER_THRESHOLD
    &&& score(hand_before) >= DEALER_THRESHOLD ==> hand_after == hand_before && pool_after
        == pool_before
}

/// A dealer who drew ends on a score of at most 26: the last card came on a
/// score below sixteen and adds at most eleven. One who did not draw holds
/// the same hand.
pub proof fn lemma_dealer_score_bound(
    pool_before: Seq<u8>,
    hand_before: Seq<u8>,
    pool_after: Seq<u8>,
    hand_after: Seq<u8>,
)
    requires
        dealer_played(pool_before, hand_before, pool_after, hand_after),
    ensures
        hand_after.len() == hand_before.len() ==> hand_after == hand_before,
        hand_after.len() > hand_before.len() ==> score(hand_after) <= DEALER_THRESHOLD + 10,
{
    if hand_after.len() == hand_before.len() {
        assert(hand_after.take(hand_before.len() as int) =~= hand_after);
    } else {
        let n = hand_after.len() - 1;
        assert(score(hand_after.take(n)) < DEALER_THRESHOLD);
        assert(hand_after.take(n).push(hand_after.last()) =~= hand_after);
        lemma_score_push_bound(hand_after.take(n), hand_after.last());
    }
}

/// The dealer's turn: one card is drawn as long as the hand scores less than
/// sixteen. The turn ends busted or standing on a score of sixteen or more,
/// or fails on an empty pool with a score still below sixteen.
pub fn process_cpu(
    cards: &mut Vec<u8>,
    cpu: &mut Vec<u8>,
    rng: &mut ThreadRng,
) -> (end: Result<TurnState, DeckExhausted>)
    requires
        score(old(cpu)@) <= u8::MAX,
    ensures
        dealer_played(old(cards)@, old(cpu)@, final(cards)@, final(cpu)@),
        end is Ok <==> score(final(cpu)@) >= DEALER_THRESHOLD,
        end is Ok ==> end == Ok::<TurnState, DeckExhausted>(final_state(final(cpu)@)),
        end is Err ==> final(cards)@.len() == 0,
{
    let mut result = calculate(cpu.clone());
    while result < DEALER_THRESHOLD
        invariant
            result == score(cpu@),
            old(cpu)@.len() <= cpu@.len(),
            cpu@.take(old(cpu)@.len() as int) == old(cpu)@,
            cards@.len() + cpu@.len() == old(cards)@.len() + old(cpu)@.len(),
            cards@.to_multiset().add(cpu@.to_multiset()) == old(cards)@.to_multiset().add(
                old(cpu)@.to_multiset(),
            ),
            forall|n: int|
                old(cpu)@.len() <= n < cpu@.len() ==> score(#[trigger] cpu@.take(n))
                    < DEALER_THRESHOLD,
            score(old(cpu)@) >= DEALER_THRESHOLD ==> cpu@ == old(cpu)@ && cards@ == old(cards)@,
        decreases cards@.len(),
    {
        let ghost pool = cards@;
        let ghost held = cpu@;
        match hit(cards, rng) {
            Some(card) => {
                proof {
                    lemma_score_push_bound(cpu@, card);
                }
                cpu.push(card);
                proof {
                    broadcast use vstd::seq_lib::group_to_multiset_ensures;
                    assert(cards@.to_multiset().add(cpu@.to_multiset()) =~= pool.to_multiset().add(
                        held.to_multiset(),
                    ));
                    assert(cpu@.take(old(cpu)@.len() as int) =~= held.take(old(cpu)@.len() as int));
                    assert(cpu@.take(held.len() as int) =~= held);
                    assert forall|n: int| old(cpu)@.len() <= n < cpu@.len() implies score(
                        #[trigger] cpu@.take(n),
                    ) < DEALER_THRESHOLD by {
                        if n < held.len() {
                            assert(cpu@.take(n) =~= held.take(n));
                        }
                    }
                }
                result = calculate(cpu.clone());
            },
            None => {
                return Err(DeckExhausted);
            },
        }
    }
    if result > BUST_LIMIT {
        Ok(TurnState::Busted)
    } else {
        Ok(TurnState::Standing)
    }
}

} // verus!
