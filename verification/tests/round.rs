use blackjack::round::{finish_round, judge, start_round, RoundOutcome};
use blackjack::score::calculate;
use blackjack::turn::{player_step, DeckExhausted, TurnState};

#[test]
fn judge_follows_the_precedence() {
    assert_eq!(judge(22, 18), RoundOutcome::PlayerBust);
    assert_eq!(judge(22, 25), RoundOutcome::PlayerBust);
    assert_eq!(judge(11, 22), RoundOutcome::PlayerWin);
    assert_eq!(judge(21, 20), RoundOutcome::PlayerWin);
    assert_eq!(judge(18, 18), RoundOutcome::Draw);
    assert_eq!(judge(21, 21), RoundOutcome::Draw);
    assert_eq!(judge(11, 18), RoundOutcome::DealerWin);
    assert_eq!(judge(20, 21), RoundOutcome::DealerWin);
}

#[test]
fn standing_on_eleven_loses_to_eighteen() {
    let mut rng = rand::thread_rng();
    let mut cards: Vec<u8> = vec![10, 10];
    let mut player: Vec<u8> = vec![5, 6];
    let mut cpu: Vec<u8> = vec![9, 9];
    assert_eq!(calculate(player.clone()), 11);
    assert_eq!(calculate(cpu.clone()), 18);
    assert_eq!(player_step(&mut cards, &mut player, 0, &mut rng), Ok(TurnState::Standing));
    assert_eq!(player, vec![5, 6]);
    assert_eq!(finish_round(&mut cards, &player, &mut cpu, &mut rng), Ok(RoundOutcome::DealerWin));
    assert_eq!(cpu, vec![9, 9]);
    assert_eq!(cards, vec![10, 10]);
}

#[test]
fn standing_on_twenty_one_beats_twenty() {
    let mut rng = rand::thread_rng();
    let mut cards: Vec<u8> = vec![10, 10];
    let mut player: Vec<u8> = vec![13, 1];
    let mut cpu: Vec<u8> = vec![13, 13];
    assert_eq!(calculate(player.clone()), 21);
    assert_eq!(calculate(cpu.clone()), 20);
    assert_eq!(player_step(&mut cards, &mut player, 0, &mut rng), Ok(TurnState::Standing));
    assert_eq!(finish_round(&mut cards, &player, &mut cpu, &mut rng), Ok(RoundOutcome::PlayerWin));
    assert_eq!(cpu, vec![13, 13]);
    assert_eq!(cards, vec![10, 10]);
}

#[test]
fn bust_player_skips_the_dealer() {
    let mut rng = rand::thread_rng();
    let mut cards: Vec<u8> = vec![10, 10];
    let player: Vec<u8> = vec![13, 13, 13];
    let mut cpu: Vec<u8> = vec![2, 2];
    assert_eq!(finish_round(&mut cards, &player, &mut cpu, &mut rng), Ok(RoundOutcome::PlayerBust));
    assert_eq!(cpu, vec![2, 2]);
    assert_eq!(cards, vec![10, 10]);
}

#[test]
fn bust_dealer_loses() {
    let mut rng = rand::thread_rng();
    let mut cards: Vec<u8> = vec![13];
    let player: Vec<u8> = vec![2, 3];
    let mut cpu: Vec<u8> = vec![13, 5];
    assert_eq!(finish_round(&mut cards, &player, &mut cpu, &mut rng), Ok(RoundOutcome::PlayerWin));
    assert_eq!(cpu, vec![13, 5, 13]);
    assert!(cards.is_empty());
}

#[test]
fn equal_scores_draw() {
    let mut rng = rand::thread_rng();
    let mut cards: Vec<u8> = vec![];
    let player: Vec<u8> = vec![10, 8];
    let mut cpu: Vec<u8> = vec![9, 9];
    assert_eq!(finish_round(&mut cards, &player, &mut cpu, &mut rng), Ok(RoundOutcome::Draw));
}

#[test]
fn dealer_turn_on_empty_deck_fails_the_round() {
    let mut rng = rand::thread_rng();
    let mut cards: Vec<u8> = vec![];
    let player: Vec<u8> = vec![10, 8];
    let mut cpu: Vec<u8> = vec![5, 5];
    assert_eq!(finish_round(&mut cards, &player, &mut cpu, &mut rng), Err(DeckExhausted));
}

#[test]
fn new_round_deals_two_hands_from_the_full_deck() {
    let mut rng = rand::thread_rng();
    let round = start_round(&mut rng);
    assert_eq!(round.player.len(), 2);
    assert_eq!(round.cpu.len(), 2);
    assert_eq!(round.cards.len(), 48);
    let mut all = round.cards.clone();
    all.extend(round.player.iter().copied());
    all.extend(round.cpu.iter().copied());
    for rank in 1u8..=13 {
        assert_eq!(all.iter().filter(|&&c| c == rank).count(), 4);
    }
}
