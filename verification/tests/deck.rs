use blackjack::deck::{hit, initialize_cards, initialize_player, take_card};

#[test]
fn initialize_player_test() {
    let mut rng = rand::thread_rng();
    assert_eq!(initialize_player(&mut vec![], &mut rng), None);
    assert_eq!(initialize_player(&mut vec![1], &mut rng), None);
    assert_eq!(initialize_player(&mut vec![1, 1], &mut rng), Some(vec![1, 1]));
}

#[test]
fn hit_test() {
    let mut rng = rand::thread_rng();
    assert_eq!(hit(&mut Vec::new(), &mut rng), None);
    assert_eq!(hit(&mut vec![], &mut rng), None);
    assert_eq!(hit(&mut vec![0], &mut rng), Some(0));
}

#[test]
fn full_deck_holds_four_of_each_rank() {
    let cards = initialize_cards();
    assert_eq!(cards.len(), 52);
    for rank in 1u8..=13 {
        assert_eq!(cards.iter().filter(|&&c| c == rank).count(), 4);
    }
    assert!(cards.iter().all(|&c| (1..=13).contains(&c)));
}

#[test]
fn take_card_moves_last_into_gap() {
    let mut cards: Vec<u8> = vec![2, 3, 4, 5];
    assert_eq!(take_card(&mut cards, 1), 3);
    assert_eq!(cards, vec![2, 5, 4]);
    assert_eq!(take_card(&mut cards, 2), 4);
    assert_eq!(cards, vec![2, 5]);
    assert_eq!(take_card(&mut cards, 0), 2);
    assert_eq!(cards, vec![5]);
    assert_eq!(take_card(&mut cards, 0), 5);
    assert!(cards.is_empty());
}

#[test]
fn hit_removes_exactly_the_returned_card() {
    let mut rng = rand::thread_rng();
    for _ in 0..50 {
        let mut cards = initialize_cards();
        let mut before = cards.clone();
        let card = hit(&mut cards, &mut rng).unwrap();
        assert_eq!(cards.len(), 51);
        let mut after = cards.clone();
        after.push(card);
        after.sort();
        before.sort();
        assert_eq!(after, before);
    }
}

#[test]
fn hit_empties_the_deck_card_by_card() {
    let mut rng = rand::thread_rng();
    let mut cards = initialize_cards();
    let mut drawn: Vec<u8> = Vec::new();
    for left in (0..52).rev() {
        drawn.push(hit(&mut cards, &mut rng).unwrap());
        assert_eq!(cards.len(), left);
    }
    assert_eq!(hit(&mut cards, &mut rng), None);
    assert!(cards.is_empty());
    drawn.sort();
    let mut full = initialize_cards();
    full.sort();
    assert_eq!(drawn, full);
}

#[test]
fn deal_from_empty_deck_leaves_it_empty() {
    let mut rng = rand::thread_rng();
    let mut cards: Vec<u8> = vec![];
    assert_eq!(initialize_player(&mut cards, &mut rng), None);
    assert!(cards.is_empty());
}

#[test]
fn failed_deal_discards_the_single_card() {
    let mut rng = rand::thread_rng();
    let mut cards: Vec<u8> = vec![7];
    assert_eq!(initialize_player(&mut cards, &mut rng), None);
    assert!(cards.is_empty());
}

#[test]
fn deal_takes_two_cards_from_the_deck() {
    let mut rng = rand::thread_rng();
    let mut cards: Vec<u8> = vec![4, 9, 13];
    let hand = initialize_player(&mut cards, &mut rng).unwrap();
    assert_eq!(hand.len(), 2);
    assert_eq!(cards.len(), 1);
    let mut all = hand.clone();
    all.extend(cards.iter().copied());
    all.sort();
    assert_eq!(all, vec![4, 9, 13]);
}

#[test]
fn deal_from_full_deck() {
    let mut rng = rand::thread_rng();
    let mut cards = initialize_cards();
    let hand = initialize_player(&mut cards, &mut rng).unwrap();
    assert_eq!(hand.len(), 2);
    assert_eq!(cards.len(), 50);
}
