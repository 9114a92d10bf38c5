//! The card pool: a `Vec<u8>` of ranks whose order carries no meaning. Its
//! mathematical model is the multiset of the ranks it holds.

use rand::rngs::ThreadRng;
use rand::Rng;
use vstd::multiset::Multiset;
use vstd::prelude::*;

verus! {

/// Number of copies of each rank in a fresh pool.
pub const COPIES_PER_RANK: usize = 4;

/// Highest rank (the King); the lowest, 1, is the Ace.
pub const HIGHEST_RANK: u8 = 13;

/// `rand::rngs::ThreadRng`, the generator of the current thread, which every
/// drawing operation is handed. It is carried through as an opaque value:
/// nothing is claimed of what it holds.
#[verifier::external_type_specification]
#[verifier::external_body]
pub struct ExThreadRng(rand::rngs::ThreadRng);

/// How often each rank occurs in a fresh pool.
pub open spec fn full_deck_count(rank: u8) -> nat {
    if 1 <= rank <= HIGHEST_RANK {
        COPIES_PER_RANK as nat
    } else {
        0
    }
}

/// The pool `s` after the card at `index` was overwritten with the last card
/// and the pool was shortened by one.
pub open spec fn swap_removed(s: Seq<u8>, index: int) -> Seq<u8>
    recommends
        0 <= index < s.len(),
{
    s.update(index, s.last()).drop_last()
}

/// Removing by overwrite-and-shorten takes exactly one copy of the chosen
/// card out of the multiset of the pool, whatever the position.
pub proof fn lemma_swap_removed_multiset(s: Seq<u8>, index: int)
    requires
        0 <= index < s.len(),
    ensures
        swap_removed(s, index).len() == s.len() - 1,
        s.to_multiset().count(s[index]) > 0,
        swap_removed(s, index).to_multiset() == s.to_multiset().remove(s[index]),
        swap_removed(s, index).to_multiset().insert(s[index]) == s.to_multiset(),
{
    broadcast use vstd::seq_lib::group_to_multiset_ensures;

    let last = s.len() - 1;
    let shorter = s.drop_last();
    let after = swap_removed(s, index);
    assert(shorter =~= s.remove(last));
    assert(s.contains(s[index]));
    assert(s.contains(s[last]));
    if index == last {
        assert(after =~= shorter);
    } else {
        // Without the card at `index`, the pool after the removal and the
        // pool without its last card are the same sequence.
        assert(after.remove(index) =~= shorter.remove(index));
        assert(after.remove(index).to_multiset() == after.to_multiset().remove(after[index]));
        assert(shorter.remove(index).to_multiset() == shorter.to_multiset().remove(
            shorter[index],
        ));
        assert(after.contains(after[index]));
        assert(shorter.contains(shorter[index]));
        assert forall|v: u8|
            after.to_multiset().count(v) == s.to_multiset().remove(s[index]).count(v) by {
            assert(after.to_multiset().remove(s[last]).count(v) == shorter.to_multiset().remove(
                s[index],
            ).count(v));
            assert(shorter.to_multiset().count(v) == s.to_multiset().remove(s[last]).count(v));
            assert(after.to_multiset().count(s[last]) > 0);
            assert(shorter.to_multiset().count(s[index]) > 0);
            assert(s.to_multiset().count(s[last]) > 0);
        }
    }
    assert(after.to_multiset().insert(s[index]) =~= s.to_multiset());
}

/// Builds the pool of a new round: four copies of each rank from 1 to 13.
pub fn initialize_cards() -> (cards: Vec<u8>)
    ensures
        cards@.len() == 52,
        forall|rank: u8| #[trigger] cards@.to_multiset().count(rank) == full_deck_count(rank),
{
    let mut cards: Vec<u8> = Vec::new();
    let mut rank: u8 = 1;
    proof {
        broadcast use vstd::seq_lib::group_to_multiset_ensures;
        assert(cards@.to_multiset() =~= Multiset::<u8>::empty());
    }
    while rank <= HIGHEST_RANK
        invariant
            1 <= rank <= HIGHEST_RANK + 1,
            cards@.len() == COPIES_PER_RANK * (rank - 1),
            forall|r: u8| #[trigger]
                cards@.to_multiset().count(r) == if 1 <= r < rank {
                    COPIES_PER_RANK as nat
                } else {
                    0
                },
        decreases HIGHEST_RANK + 1 - rank,
    {
        let mut copy: usize = 0;
        while copy < COPIES_PER_RANK
            invariant
                1 <= rank <= HIGHEST_RANK,
                copy <= COPIES_PER_RANK,
                cards@.len() == COPIES_PER_RANK * (rank - 1) + copy,
                forall|r: u8| #[trigger]
                    cards@.to_multiset().count(r) == if 1 <= r < rank {
                        COPIES_PER_RANK as nat
                    } else if r == rank {
                        copy as nat
                    } else {
                        0
                    },
            decreases COPIES_PER_RANK - copy,
        {
            proof {
                broadcast use vstd::seq_lib::group_to_multiset_ensures;
            }
            cards.push(rank);
            copy += 1;
        }
        rank += 1;
    }
    cards
}

/// Calls `rand::Rng::gen_range(0, len)` on the thread's generator. The
/// outside function returns a value that is at least its lower and below its
/// upper bound, and panics when the range is empty, which `requires` rules
/// out. Which value comes back is left open.
#[verifier::external_body]
fn random_index(rng: &mut ThreadRng, len: usize) -> (index: usize)
    requires
        len > 0,
    ensures
        index < len,
{
    rng.gen_range(0, len)
}

/// Takes the card at `index` out of the pool in constant time: the last card
/// moves into its place.
pub fn take_card(cards: &mut Vec<u8>, index: usize) -> (card: u8)
    requires
        index < old(cards)@.len(),
    ensures
        card == old(cards)@[index as int],
        final(cards)@ == swap_removed(old(cards)@, index as int),
        final(cards)@.len() == old(cards)@.len() - 1,
        old(cards)@.to_multiset().count(card) > 0,
        final(cards)@.to_multiset() == old(cards)@.to_multiset().remove(card),
{
    proof {
        lemma_swap_removed_multiset(cards@, index as int);
    }
    cards.swap_remove(index)
}

/// Draws one card at random. An empty pool gives nothing and stays empty;
/// otherwise one card leaves the pool and is returned.
pub fn hit(cards: &mut Vec<u8>, rng: &mut ThreadRng) -> (card: Option<u8>)
    ensures
        old(cards)@.len() == 0 ==> card is None && final(cards)@ == old(cards)@,
        old(cards)@.len() > 0 ==> card is Some,
        card is Some ==> exists|index: int|
            0 <= index < old(cards)@.len() && card == Some(old(cards)@[index])
                && final(cards)@ == #[trigger] swap_removed(old(cards)@, index),
        card is Some ==> final(cards)@.len() == old(cards)@.len() - 1,
        card is Some ==> old(cards)@.to_multiset().count(card.unwrap()) > 0,
        card is Some ==> final(cards)@.to_multiset() == old(cards)@.to_multiset().remove(
            card.unwrap(),
        ),
{
    if cards.is_empty() {
        None
    } else {
        let index = random_index(rng, cards.len());
        let card = take_card(cards, index);
        Some(card)
    }
}

/// Deals the two cards a hand starts with. A pool of fewer than two cards
/// gives no hand, and a single card drawn in the attempt does not go back.
pub fn initialize_player(cards: &mut Vec<u8>, rng: &mut ThreadRng) -> (hand: Option<Vec<u8>>)
    ensures
        hand is Some <==> old(cards)@.len() >= 2,
        hand is Some ==> hand.unwrap()@.len() == 2,
        hand is Some ==> final(cards)@.len() == old(cards)@.len() - 2,
        hand is Some ==> final(cards)@.to_multiset().add(hand.unwrap()@.to_multiset()) == old(cards)@.to_multiset(),
        hand is None ==> final(cards)@.len() == 0,
        old(cards)@.len() == 0 ==> final(cards)@ == old(cards)@,
{
    let mut player: Vec<u8> = Vec::new();
    let mut round: usize = 0;
    proof {
        broadcast use vstd::seq_lib::group_to_multiset_ensures;
        assert(player@.to_multiset() =~= Multiset::<u8>::empty());
        assert(cards@.to_multiset().add(player@.to_multiset()) =~= cards@.to_multiset());
    }
    while round < 2
        invariant
            round <= 2,
            player@.len() <= round,
            player@.len() < round ==> cards@.len() == 0,
            player@.len() + cards@.len() == old(cards)@.len(),
            old(cards)@.len() == 0 ==> cards@ == old(cards)@,
            cards@.to_multiset().add(player@.to_multiset()) == old(cards)@.to_multiset(),
        decreases 2 - round,
    {
        let ghost before = cards@;
        let ghost held = player@;
        match hit(cards, rng) {
            Some(card) => {
                player.push(card);
                proof {
                    broadcast use vstd::seq_lib::group_to_multiset_ensures;
                    assert(cards@.to_multiset().add(player@.to_multiset()) =~= before.to_multiset().add(
                        held.to_multiset(),
                    ));
                }
            },
            None => {},
        }
        round += 1;
    }
    if player.len() == 2 {
        Some(player)
    } else {
        None
    }
}

} // verus!
