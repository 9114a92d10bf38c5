//! Hand scoring. A hand is a `Vec<u8>` of ranks; its score counts every card
//! that is no ace first and then lets each ace choose between 11 and 1.

use vstd::prelude::*;

verus! {

/// Rank of the Ace.
pub const ACE: u8 = 1;

/// Lowest rank that counts ten points (the ten and the face cards).
pub const TEN: u8 = 10;

/// A hand that scores more than this is bust.
pub const BUST_LIMIT: u8 = 21;

/// Points of a card that is no ace; an ace contributes nothing here.
pub open spec fn pip_value(card: u8) -> nat {
    if card >= TEN {
        10
    } else if card == ACE {
        0
    } else {
        card as nat
    }
}

/// Points of all cards of the hand that are no aces.
pub open spec fn pip_total(hand: Seq<u8>) -> nat
    decreases hand.len(),
{
    if hand.len() == 0 {
        0
    } else {
        pip_total(hand.drop_last()) + pip_value(hand.last())
    }
}

/// Number of aces in the hand.
pub open spec fn ace_count(hand: Seq<u8>) -> nat
    decreases hand.len(),
{
    if hand.len() == 0 {
        0
    } else {
        ace_count(hand.drop_last()) + if hand.last() == ACE {
            1nat
        } else {
            0nat
        }
    }
}

/// One ace on top of a running total: soft (11) unless that would bust.
pub open spec fn add_ace(total: nat) -> nat {
    if total + 11 > BUST_LIMIT {
        total + 1
    } else {
        total + 11
    }
}

/// `aces` aces on top of a running total, each deciding for itself in turn.
pub open spec fn add_aces(total: nat, aces: nat) -> nat
    decreases aces,
{
    if aces == 0 {
        total
    } else {
        add_aces(add_ace(total), (aces - 1) as nat)
    }
}

/// The score of a hand: the cards that are no aces are counted first, then
/// the aces one after another.
pub open spec fn score(hand: Seq<u8>) -> nat {
    add_aces(pip_total(hand), ace_count(hand))
}

/// Only the first ace can be soft: a soft ace lifts the total above ten.
pub proof fn lemma_add_aces_closed_form(total: nat, aces: nat)
    ensures
        add_aces(total, aces) == if aces > 0 && total <= 10 {
            total + aces + 10
        } else {
            total + aces
        },
    decreases aces,
{
    if aces > 0 {
        lemma_add_aces_closed_form(add_ace(total), (aces - 1) as nat);
    }
}

/// The score in closed form: every card at its low value, and ten more where
/// an ace is held and the cards that are no aces total at most ten.
pub proof fn lemma_score_closed_form(hand: Seq<u8>)
    ensures
        score(hand) == if ace_count(hand) > 0 && pip_total(hand) <= 10 {
            pip_total(hand) + ace_count(hand) + 10
        } else {
            pip_total(hand) + ace_count(hand)
        },
{
    lemma_add_aces_closed_form(pip_total(hand), ace_count(hand));
}

/// A prefix of a hand holds no more points and no more aces than the hand.
pub proof fn lemma_prefix_totals(hand: Seq<u8>, n: int)
    requires
        0 <= n <= hand.len(),
    ensures
        pip_total(hand.take(n)) <= pip_total(hand),
        ace_count(hand.take(n)) <= ace_count(hand),
    decreases hand.len(),
{
    if n == hand.len() {
        assert(hand.take(n) =~= hand);
    } else {
        assert(hand.drop_last().take(n) =~= hand.take(n));
        lemma_prefix_totals(hand.drop_last(), n);
    }
}

/// One more card changes the two totals by that card alone.
pub proof fn lemma_totals_push(hand: Seq<u8>, card: u8)
    ensures
        pip_total(hand.push(card)) == pip_total(hand) + pip_value(card),
        ace_count(hand.push(card)) == ace_count(hand) + if card == ACE {
            1nat
        } else {
            0nat
        },
{
    assert(hand.push(card).drop_last() =~= hand);
}

/// One more card raises the score by at most eleven. (It may lower it: an
/// ace that was soft can turn hard.)
pub proof fn lemma_score_push_bound(hand: Seq<u8>, card: u8)
    ensures
        score(hand.push(card)) <= score(hand) + 11,
{
    lemma_totals_push(hand, card);
    lemma_score_closed_form(hand);
    lemma_score_closed_form(hand.push(card));
}

/// No card counts more than eleven, so a hand of up to 23 cards scores
/// within a byte.
pub proof fn lemma_score_bound(hand: Seq<u8>)
    ensures
        score(hand) <= 11 * hand.len(),
{
    lemma_totals_bound(hand);
    lemma_score_closed_form(hand);
}

/// The cards that are no aces count at most ten each.
pub proof fn lemma_totals_bound(hand: Seq<u8>)
    ensures
        pip_total(hand) + 10 * ace_count(hand) <= 10 * hand.len(),
    decreases hand.len(),
{
    if hand.len() > 0 {
        lemma_totals_bound(hand.drop_last());
    }
}

/// A hand of two cards is never bust.
pub proof fn lemma_two_cards_not_bust(hand: Seq<u8>)
    requires
        hand.len() == 2,
    ensures
        score(hand) <= BUST_LIMIT,
{
    lemma_totals_bound(hand);
    lemma_score_closed_form(hand);
}

/// The empty hand scores nothing.
pub proof fn lemma_score_empty()
    ensures
        score(Seq::<u8>::empty()) == 0,
{
    lemma_score_closed_form(Seq::<u8>::empty());
}

/// A single card: ten for the ten and the face cards, eleven for the ace,
/// its rank otherwise.
pub proof fn lemma_score_single(card: u8)
    ensures
        card >= TEN ==> score(seq![card]) == 10,
        card == ACE ==> score(seq![card]) == 11,
        card < TEN && card != ACE ==> score(seq![card]) == card,
{
    assert(seq![card] =~= Seq::<u8>::empty().push(card));
    lemma_totals_push(Seq::<u8>::empty(), card);
    lemma_score_closed_form(seq![card]);
}

/// Two cards that are neither aces nor face cards score the sum of their
/// ranks.
pub proof fn lemma_score_pair(first: u8, second: u8)
    requires
        first != ACE && first <= TEN,
        second != ACE && second <= TEN,
        first + second <= BUST_LIMIT,
    ensures
        score(seq![first, second]) == first + second,
{
    let one = Seq::<u8>::empty().push(first);
    assert(seq![first, second] =~= one.push(second));
    lemma_totals_push(Seq::<u8>::empty(), first);
    lemma_totals_push(one, second);
    lemma_score_closed_form(seq![first, second]);
}

/// Taking one card out of a hand lowers the two totals by that card alone.
pub proof fn lemma_totals_remove(hand: Seq<u8>, index: int)
    requires
        0 <= index < hand.len(),
    ensures
        pip_total(hand) == pip_total(hand.remove(index)) + pip_value(hand[index]),
        ace_count(hand) == ace_count(hand.remove(index)) + if hand[index] == ACE {
            1nat
        } else {
            0nat
        },
    decreases hand.len(),
{
    if index == hand.len() - 1 {
        assert(hand.remove(index) =~= hand.drop_last());
    } else {
        assert(hand.remove(index).drop_last() =~= hand.drop_last().remove(index));
        lemma_totals_remove(hand.drop_last(), index);
    }
}

/// Two hands of the same cards hold the same points and the same aces.
pub proof fn lemma_totals_permutation(a: Seq<u8>, b: Seq<u8>)
    requires
        a.to_multiset() == b.to_multiset(),
    ensures
        pip_total(a) == pip_total(b),
        ace_count(a) == ace_count(b),
    decreases a.len(),
{
    broadcast use vstd::seq_lib::group_to_multiset_ensures;

    assert(a.len() == a.to_multiset().len());
    assert(b.len() == b.to_multiset().len());
    if a.len() > 0 {
        let card = a.last();
        assert(a.contains(card));
        assert(a.to_multiset().count(card) > 0);
        assert(b.to_multiset().count(card) > 0);
        assert(b.contains(card));
        let index = choose|index: int| 0 <= index < b.len() && b[index] == card;
        assert(a.drop_last() =~= a.remove(a.len() - 1));
        assert(a.drop_last().to_multiset() == b.remove(index).to_multiset());
        lemma_totals_permutation(a.drop_last(), b.remove(index));
        lemma_totals_remove(b, index);
    }
}

/// The order of the cards in a hand does not matter to its score.
pub proof fn lemma_score_permutation(a: Seq<u8>, b: Seq<u8>)
    requires
        a.to_multiset() == b.to_multiset(),
    ensures
        score(a) == score(b),
{
    lemma_totals_permutation(a, b);
}

/// The hand runs from its highest rank down to its lowest.
pub open spec fn descending(hand: Seq<u8>) -> bool {
    forall|i: int, j: int| 0 <= i <= j < hand.len() ==> hand[i] >= hand[j]
}

/// A running total after one more card is counted.
pub open spec fn count_card(total: nat, card: u8) -> nat {
    if card >= TEN {
        total + 10
    } else if card == ACE {
        add_ace(total)
    } else {
        total + card as nat
    }
}

/// The total reached by counting the cards of a hand one by one, front to
/// back, each ace deciding on the total that stands when its turn comes.
pub open spec fn running_total(hand: Seq<u8>) -> nat
    decreases hand.len(),
{
    if hand.len() == 0 {
        0
    } else {
        count_card(running_total(hand.drop_last()), hand.last())
    }
}

/// A hand without a card of rank 1 holds no ace.
pub proof fn lemma_no_ace(hand: Seq<u8>)
    requires
        forall|i: int| 0 <= i < hand.len() ==> hand[i] != ACE,
    ensures
        ace_count(hand) == 0,
    decreases hand.len(),
{
    if hand.len() > 0 {
        lemma_no_ace(hand.drop_last());
    }
}

/// Counting a hand card by card from the highest rank down gives its score:
/// in that order every ace is counted after all cards that are no aces.
pub proof fn lemma_descending_total(hand: Seq<u8>)
    requires
        descending(hand),
    ensures
        running_total(hand) == score(hand),
    decreases hand.len(),
{
    if hand.len() > 0 {
        let front = hand.drop_last();
        let card = hand.last();
        assert(descending(front));
        lemma_descending_total(front);
        assert(front.push(card) =~= hand);
        lemma_totals_push(front, card);
        lemma_score_closed_form(front);
        lemma_score_closed_form(hand);
        if card > ACE {
            assert forall|i: int| 0 <= i < front.len() implies front[i] != ACE by {
                assert(hand[i] >= hand[hand.len() - 1]);
            }
            lemma_no_ace(front);
        }
    }
}

/// The score of a hand is what counting its cards one by one gives once they
/// are put in order from the highest rank down to the lowest.
pub proof fn lemma_score_counts_sorted_hand(hand: Seq<u8>, sorted: Seq<u8>)
    requires
        sorted.to_multiset() == hand.to_multiset(),
        descending(sorted),
    ensures
        running_total(sorted) == score(hand),
{
    lemma_descending_total(sorted);
    lemma_score_permutation(sorted, hand);
}

/// Scores a hand.
pub fn calculate(cards: Vec<u8>) -> (result: u8)
    requires
        score(cards@) <= u8::MAX,
    ensures
        result == score(cards@),
{
    let mut total: u8 = 0;
    let mut aces: usize = 0;
    let mut i: usize = 0;
    proof {
        lemma_score_closed_form(cards@);
    }
    while i < cards.len()
        invariant
            i <= cards@.len(),
            total == pip_total(cards@.take(i as int)),
            aces == ace_count(cards@.take(i as int)),
            pip_total(cards@) + ace_count(cards@) <= u8::MAX,
        decreases cards@.len() - i,
    {
        let card = cards[i];
        proof {
            lemma_totals_push(cards@.take(i as int), card);
            assert(cards@.take(i as int).push(card) =~= cards@.take(i + 1));
            lemma_prefix_totals(cards@, i + 1);
        }
        if card >= TEN {
            total += 10;
        } else if card == ACE {
            aces += 1;
        } else {
            total += card;
        }
        i += 1;
    }
    proof {
        assert(cards@.take(i as int) =~= cards@);
    }
    let mut counted: usize = 0;
    while counted < aces
        invariant
            counted <= aces,
            add_aces(total as nat, (aces - counted) as nat) == score(cards@),
            score(cards@) <= u8::MAX,
        decreases aces - counted,
    {
        proof {
            lemma_add_aces_closed_form(total as nat, (aces - counted) as nat);
        }
        if total > BUST_LIMIT - 11 {
            total += 1;
        } else {
            total += 11;
        }
        counted += 1;
    }
    total
}

} // verus!
