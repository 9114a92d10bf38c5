//! One round: dealing, the dealer's turn after the player's, and the outcome.

use crate::deck::{full_deck_count, initialize_cards, initialize_player};
use crate::score::{calculate, lemma_two_cards_not_bust, score, BUST_LIMIT};
use crate::turn::{
    dealer_played, lemma_dealer_score_bound, process_cpu, DeckExhausted, DEALER_THRESHOLD,
};
use rand::rngs::ThreadRng;
use vstd::prelude::*;

verus! {

/// How a round ends.
#[derive(Clone, Copy, Debug, PartialEq, Eq, Structural)]
pub enum RoundOutcome {
    /// The player's hand scores more than 21.
    PlayerBust,
    /// The dealer is bust, or the player's hand scores more.
    PlayerWin,
    /// The dealer's hand scores more.
    DealerWin,
    /// Both hands score the same.
    Draw,
}

/// The pool and the two hands of a round.
pub struct Round {
    /// The cards that can still be drawn.
    pub cards: Vec<u8>,
    /// The player's hand.
    pub player: Vec<u8>,
    /// The dealer's hand.
    pub cpu: Vec<u8>,
}

/// The outcome for two final scores. A bust player loses whatever the dealer
/// holds; then a bust dealer loses; then the higher score wins.
pub open spec fn outcome(player_score: nat, cpu_score: nat) -> RoundOutcome {
    if player_score > BUST_LIMIT {
        RoundOutcome::PlayerBust
    } else if cpu_score > BUST_LIMIT {
        RoundOutcome::PlayerWin
    } else if player_score > cpu_score {
        RoundOutcome::PlayerWin
    } else if player_score == cpu_score {
        RoundOutcome::Draw
    } else {
        RoundOutcome::DealerWin
    }
}

/// Decides the round from the two final scores.
pub fn judge(player_score: u8, cpu_score: u8) -> (result: RoundOutcome)
    ensures
        result == outcome(player_score as nat, cpu_score as nat),
{
    if player_score > BUST_LIMIT {
        RoundOutcome::PlayerBust
    } else if cpu_score > BUST_LIMIT {
        RoundOutcome::PlayerWin
    } else if player_score > cpu_score {
        RoundOutcome::PlayerWin
    } else if player_score == cpu_score {
        RoundOutcome::Draw
    } else {
        RoundOutcome::DealerWin
    }
}

/// Sets a round up: a full pool, then two cards for the player and two for
/// the dealer. On a full pool neither deal can fail, and neither hand is bust.
pub fn start_round(rng: &mut ThreadRng) -> (round: Round)
    ensures
        round.player@.len() == 2,
        round.cpu@.len() == 2,
        round.cards@.len() == 48,
        score(round.player@) <= BUST_LIMIT,
        score(round.cpu@) <= BUST_LIMIT,
        forall|rank: u8| #[trigger]
            round.cards@.to_multiset().add(round.player@.to_multiset()).add(
                round.cpu@.to_multiset(),
            ).count(rank) == full_deck_count(rank),
{
    let mut cards = initialize_cards();
    let ghost full = cards@.to_multiset();
    let dealt = initialize_player(&mut cards, rng);
    let player = dealt.unwrap();
    let dealt = initialize_player(&mut cards, rng);
    let cpu = dealt.unwrap();
    proof {
        assert(cards@.to_multiset().add(player@.to_multiset()).add(cpu@.to_multiset()) =~= full);
        lemma_two_cards_not_bust(player@);
        lemma_two_cards_not_bust(cpu@);
    }
    Round { cards, player, cpu }
}

/// Ends a round after the player's turn. A bust player loses at once and the
/// dealer does not play; otherwise the dealer plays and the scores decide.
pub fn finish_round(
    cards: &mut Vec<u8>,
    player: &Vec<u8>,
    cpu: &mut Vec<u8>,
    rng: &mut ThreadRng,
) -> (result: Result<RoundOutcome, DeckExhausted>)
    requires
        score(player@) <= u8::MAX,
        score(old(cpu)@) <= u8::MAX,
    ensures
        score(player@) > BUST_LIMIT ==> result == Ok::<RoundOutcome, DeckExhausted>(
            RoundOutcome::PlayerBust,
        ) && final(cpu)@ == old(cpu)@ && final(cards)@ == old(cards)@,
        score(player@) <= BUST_LIMIT ==> {
            &&& dealer_played(old(cards)@, old(cpu)@, final(cards)@, final(cpu)@)
            &&& result is Ok <==> score(final(cpu)@) >= DEALER_THRESHOLD
            &&& result is Ok ==> result == Ok::<RoundOutcome, DeckExhausted>(
                outcome(score(player@), score(final(cpu)@)),
            )
            &&& result is Err ==> final(cards)@.len() == 0
        },
{
    let player_result = calculate(player.clone());
    if player_result > BUST_LIMIT {
        Ok(RoundOutcome::PlayerBust)
    } else {
        match process_cpu(cards, cpu, rng) {
            Ok(_) => {
                proof {
                    lemma_dealer_score_bound(old(cards)@, old(cpu)@, cards@, cpu@);
                }
                let cpu_result = calculate(cpu.clone());
                Ok(judge(player_result, cpu_result))
            },
            Err(e) => Err(e),
        }
    }
}

} // verus!
