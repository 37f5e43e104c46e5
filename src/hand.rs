use vstd::prelude::*;
use crate::card::{Card, Value, rank_points};
use crate::storage::{hand_cards, hand_vec_new, hand_vec_push, hand_vec_len, hand_vec_get, hand_vec_set};

verus! {

/// Most cards a hand can show: one per panel on its side of the table.
pub const HAND_CAPACITY: usize = 4;

/// Sum of the cards with every ace counted as 11.
pub open spec fn soft_total(cards: Seq<Card>) -> nat
    decreases cards.len(),
{
    if cards.len() == 0 {
        0
    } else {
        soft_total(cards.drop_last()) + rank_points(cards.last().value)
    }
}

/// Number of aces among the cards.
pub open spec fn ace_count(cards: Seq<Card>) -> nat
    decreases cards.len(),
{
    if cards.len() == 0 {
        0
    } else {
        ace_count(cards.drop_last()) + if cards.last().value == Value::Ace { 1nat } else { 0nat }
    }
}

/// Demotes aces from 11 to 1, one at a time, while the total exceeds 21 and
/// an ace that still counts 11 remains.
pub open spec fn demote_aces(total: int, aces: nat) -> int
    decreases aces,
{
    if total > 21 && aces > 0 {
        demote_aces(total - 10, (aces - 1) as nat)
    } else {
        total
    }
}

/// The BlackJack value of a sequence of cards.
pub open spec fn hand_value(cards: Seq<Card>) -> int {
    demote_aces(soft_total(cards) as int, ace_count(cards))
}

/// The sequence with every card turned face up.
pub open spec fn all_face_up(cards: Seq<Card>) -> Seq<Card> {
    Seq::new(cards.len(), |i: int| Card { is_face_up: true, ..cards[i] })
}

/// An ordered set of cards, at most four of them.
pub struct Hand {
    cards: heapless::Vec<Card, 10>,
}

impl View for Hand {
    type V = Seq<Card>;

    closed spec fn view(&self) -> Seq<Card> {
        hand_cards(self.cards)
    }
}

proof fn lemma_soft_total_bound(cards: Seq<Card>)
    ensures
        soft_total(cards) <= 11 * cards.len(),
        ace_count(cards) <= cards.len(),
    decreases cards.len(),
{
    if cards.len() > 0 {
        lemma_soft_total_bound(cards.drop_last());
    }
}

proof fn lemma_demote_bounds(total: int, aces: nat)
    ensures
        total - 10 * aces <= demote_aces(total, aces) <= total,
    decreases aces,
{
    if total > 21 && aces > 0 {
        lemma_demote_bounds(total - 10, (aces - 1) as nat);
    }
}

/// A total with `k` aces moved from 11 down to 1.
pub open spec fn with_demoted(total: int, k: nat) -> int {
    total - 10 * k
}

proof fn lemma_demote_greedy(total: int, aces: nat)
    ensures
        exists|k: nat| k <= aces && demote_aces(total, aces) == #[trigger] with_demoted(total, k),
        demote_aces(total, aces) > 21 ==> demote_aces(total, aces) == total - 10 * aces,
        forall|j: nat| j <= aces && #[trigger] with_demoted(total, j) <= 21 ==> with_demoted(total, j) <= demote_aces(total, aces),
    decreases aces,
{
    if total > 21 && aces > 0 {
        let rest = (aces - 1) as nat;
        lemma_demote_greedy(total - 10, rest);
        let k = choose|k: nat| k <= rest && demote_aces(total - 10, rest) == #[trigger] with_demoted(total - 10, k);
        assert(demote_aces(total, aces) == with_demoted(total, k + 1));
        assert forall|j: nat| j <= aces && #[trigger] with_demoted(total, j) <= 21 implies with_demoted(total, j) <= demote_aces(total, aces) by {
            assert(j > 0);
            let j1 = (j - 1) as nat;
            assert(with_demoted(total - 10, j1) == with_demoted(total, j));
        }
    } else {
        assert(demote_aces(total, aces) == with_demoted(total, 0));
    }
}

/// Aces are demoted greedily: the value is what the cards give with some
/// number of aces counted as 1; it exceeds 21 only once every ace counts 1;
/// and no other choice of demoted aces gives a higher total that stays at or
/// under 21.
pub proof fn lemma_value_demotes_greedily(cards: Seq<Card>)
    ensures
        exists|k: nat|
            k <= ace_count(cards) && hand_value(cards) == #[trigger] with_demoted(soft_total(cards) as int, k),
        hand_value(cards) > 21 ==> hand_value(cards) == with_demoted(soft_total(cards) as int, ace_count(cards)),
        forall|j: nat|
            j <= ace_count(cards) && #[trigger] with_demoted(soft_total(cards) as int, j) <= 21
                ==> with_demoted(soft_total(cards) as int, j) <= hand_value(cards),
{
    lemma_demote_greedy(soft_total(cards) as int, ace_count(cards));
}

impl Hand {
    #[verifier::type_invariant]
    spec fn inv(self) -> bool {
        hand_cards(self.cards).len() <= HAND_CAPACITY
    }

    /// Create a new empty hand
    pub fn new() -> (r: Self)
        ensures
            r@ == Seq::<Card>::empty(),
    {
        Hand { cards: hand_vec_new() }
    }

    /// Adds a card unless the hand already shows four; tells whether it did.
    pub fn add_card(&mut self, card: Card) -> (r: bool)
        ensures
            r == (old(self)@.len() < HAND_CAPACITY),
            r ==> final(self)@ == old(self)@.push(card),
            !r ==> final(self)@ == old(self)@,
    {
        proof { use_type_invariant(&*self); }
        if hand_vec_len(&self.cards) >= HAND_CAPACITY {
            return false;
        }
        let _ = hand_vec_push(&mut self.cards, card);
        true
    }

    /// The BlackJack value: aces count 11 until the total passes 21, then
    /// they drop to 1 one at a time.
    pub fn value(&self) -> (r: u8)
        ensures
            r == hand_value(self@),
    {
        proof { use_type_invariant(self); }
        let n = hand_vec_len(&self.cards);
        let ghost cards = self@;
        let mut value: u8 = 0;
        let mut num_aces: u8 = 0;
        let mut i: usize = 0;
        while i < n
            invariant
                n == cards.len(),
                n <= HAND_CAPACITY,
                cards == hand_cards(self.cards),
                i <= n,
                value == soft_total(cards.take(i as int)),
                num_aces == ace_count(cards.take(i as int)),
            decreases n - i,
        {
            proof {
                assert(cards.take(i + 1).drop_last() =~= cards.take(i as int));
                lemma_soft_total_bound(cards.take(i as int));
            }
            let card = hand_vec_get(&self.cards, i).unwrap();
            if card.value == Value::Ace {
                num_aces = num_aces + 1;
                value = value + 11;
            } else {
                value = value + card.blackjack_value();
            }
            i = i + 1;
        }
        assert(cards.take(n as int) =~= cards);
        proof { lemma_soft_total_bound(cards); }
        while value > 21 && num_aces > 0
            invariant
                demote_aces(value as int, num_aces as nat) == hand_value(cards),
            decreases num_aces,
        {
            value = value - 10;
            num_aces = num_aces - 1;
        }
        value
    }

    /// Whether the value has passed 21.
    pub fn is_bust(&self) -> (r: bool)
        ensures
            r == (hand_value(self@) > 21),
    {
        self.value() > 21
    }

    /// Whether the hand is exactly two cards worth 21.
    pub fn is_blackjack(&self) -> (r: bool)
        ensures
            r == (self@.len() == 2 && hand_value(self@) == 21),
    {
        hand_vec_len(&self.cards) == 2 && self.value() == 21
    }

    /// Get the number of cards in the hand
    pub fn card_count(&self) -> (r: usize)
        ensures
            r == self@.len(),
            r <= HAND_CAPACITY,
    {
        proof { use_type_invariant(self); }
        hand_vec_len(&self.cards)
    }

    /// The card at an index, if the hand holds one there.
    pub fn get_card(&self, index: usize) -> (r: Option<&Card>)
        ensures
            index < self@.len() ==> r == Some(&self@[index as int]),
            index >= self@.len() ==> r is None,
    {
        hand_vec_get(&self.cards, index)
    }

    /// Flip all cards face up
    pub fn reveal_all(&mut self)
        ensures
            final(self)@ == all_face_up(old(self)@),
    {
        proof { use_type_invariant(&*self); }
        let n = hand_vec_len(&self.cards);
        let ghost start = self@;
        let mut i: usize = 0;
        while i < n
            invariant
                n == start.len(),
                n <= HAND_CAPACITY,
                i <= n,
                self@.len() == n,
                forall|k: int| 0 <= k < i ==> self@[k] == all_face_up(start)[k],
                forall|k: int| i <= k < n ==> self@[k] == start[k],
            decreases n - i,
        {
            proof { use_type_invariant(&*self); }
            let mut card = *hand_vec_get(&self.cards, i).unwrap();
            card.set_face_up(true);
            hand_vec_set(&mut self.cards, i, card);
            i = i + 1;
        }
        assert(self@ =~= all_face_up(start));
    }
}

} // verus!
