use vstd::prelude::*;
use crate::card::{Card, Suit, Value, card_key, distinct_cards, lemma_distinct_by_map};
use crate::storage::{deck_cards, deck_vec_new, deck_vec_push, deck_vec_pop, deck_vec_swap};

verus! {

/// Number of cards in a full deck.
pub const DECK_SIZE: usize = 52;

/// The suit of the `i`-th group of thirteen in a fresh deck.
pub open spec fn suit_at(i: int) -> Suit {
    if i == 0 {
        Suit::Hearts
    } else if i == 1 {
        Suit::Diamonds
    } else if i == 2 {
        Suit::Clubs
    } else {
        Suit::Spades
    }
}

/// The `i`-th rank, counting from the ace.
pub open spec fn value_at(i: int) -> Value {
    if i == 0 { Value::Ace }
    else if i == 1 { Value::Two }
    else if i == 2 { Value::Three }
    else if i == 3 { Value::Four }
    else if i == 4 { Value::Five }
    else if i == 5 { Value::Six }
    else if i == 6 { Value::Seven }
    else if i == 7 { Value::Eight }
    else if i == 8 { Value::Nine }
    else if i == 9 { Value::Ten }
    else if i == 10 { Value::Jack }
    else if i == 11 { Value::Queen }
    else { Value::King }
}

/// The 52 cards in suit order, ace to king within each suit, all face up.
pub open spec fn standard_order() -> Seq<Card> {
    Seq::new(52, |i: int| Card { suit: suit_at(i / 13), value: value_at(i % 13), is_face_up: true })
}

/// Random words a shuffle takes: one per Fisher-Yates step.
pub const SHUFFLE_DRAWS: usize = 51;

/// The position that Fisher-Yates step `i` (51 down to 1) exchanges with
/// position `i`: the step's random word reduced to `0..=i`.
pub open spec fn shuffle_partner(words: Seq<u64>, i: nat) -> int {
    words[51 - i] as int % (i + 1) as int
}

/// Exchanges the items at `i` and `j`.
pub open spec fn swapped(s: Seq<Card>, i: int, j: int) -> Seq<Card> {
    s.update(i, s[j]).update(j, s[i])
}

/// Fisher-Yates steps `i`, `i - 1`, ..., `1`: step `k` exchanges position `k`
/// with position `shuffle_partner(words, k)`.
pub open spec fn shuffle_steps(s: Seq<Card>, words: Seq<u64>, i: nat) -> Seq<Card>
    decreases i,
{
    if i == 0 {
        s
    } else {
        shuffle_steps(swapped(s, i as int, shuffle_partner(words, i)), words, (i - 1) as nat)
    }
}

/// The increment of the SplitMix64 generator.
pub const SPLITMIX_GAMMA: u64 = 0x9E37_79B9_7F4A_7C15;

pub open spec fn wrapped_product(x: u64, y: u64) -> u64 {
    ((x as nat * y as nat) % 0x1_0000_0000_0000_0000) as u64
}

/// SplitMix64's output function.
pub open spec fn splitmix_mix(z: u64) -> u64 {
    let a = wrapped_product(z ^ (z >> 30u64), 0xBF58_476D_1CE4_E5B9);
    let b = wrapped_product(a ^ (a >> 27u64), 0x94D0_49BB_1331_11EB);
    b ^ (b >> 31u64)
}

/// The first 51 outputs of SplitMix64 started at `seed`: output `k` mixes
/// `seed + (k + 1) * SPLITMIX_GAMMA`, modulo 2^64.
pub open spec fn splitmix_words(seed: u64) -> Seq<u64> {
    Seq::new(
        51,
        |k: int| splitmix_mix(((seed as nat + (k + 1) * SPLITMIX_GAMMA as nat) % 0x1_0000_0000_0000_0000) as u64),
    )
}

/// A fresh deck shuffled by Fisher-Yates, drawing on SplitMix64 seeded
/// with `seed`.
pub open spec fn shuffled_deck(seed: u64) -> Seq<Card> {
    shuffle_steps(standard_order(), splitmix_words(seed), 51)
}

pub open spec fn all_cards_face_up(cards: Seq<Card>) -> bool {
    forall|i: int| 0 <= i < cards.len() ==> (#[trigger] cards[i]).is_face_up
}

/// Cards in a stack, bottom card first; cards are drawn from the top (end).
pub struct Deck {
    cards: heapless::Vec<Card, 52>,
}

impl View for Deck {
    type V = Seq<Card>;

    closed spec fn view(&self) -> Seq<Card> {
        deck_cards(self.cards)
    }
}

/// Relies on embassy_time::Instant::now and Instant::as_micros: the
/// microseconds on the system clock, of which nothing is known.
#[verifier::external_body]
fn clock_micros() -> (r: u64) {
    embassy_time::Instant::now().as_micros()
}

fn suit_from_index(i: usize) -> (r: Suit)
    requires
        i < 4,
    ensures
        r == suit_at(i as int),
{
    match i {
        0 => Suit::Hearts,
        1 => Suit::Diamonds,
        2 => Suit::Clubs,
        _ => Suit::Spades,
    }
}

fn value_from_index(i: usize) -> (r: Value)
    requires
        i < 13,
    ensures
        r == value_at(i as int),
{
    match i {
        0 => Value::Ace,
        1 => Value::Two,
        2 => Value::Three,
        3 => Value::Four,
        4 => Value::Five,
        5 => Value::Six,
        6 => Value::Seven,
        7 => Value::Eight,
        8 => Value::Nine,
        9 => Value::Ten,
        10 => Value::Jack,
        11 => Value::Queen,
        _ => Value::King,
    }
}

proof fn lemma_shuffle_keeps_face_up(s: Seq<Card>, words: Seq<u64>, i: nat)
    requires
        all_cards_face_up(s),
        i < s.len(),
    ensures
        all_cards_face_up(shuffle_steps(s, words, i)),
        shuffle_steps(s, words, i).len() == s.len(),
    decreases i,
{
    if i > 0 {
        let t = swapped(s, i as int, shuffle_partner(words, i));
        assert(all_cards_face_up(t));
        lemma_shuffle_keeps_face_up(t, words, (i - 1) as nat);
    }
}

proof fn lemma_swap_keeps_cards(s: Seq<Card>, i: int, j: int)
    requires
        0 <= i < s.len(),
        0 <= j < s.len(),
    ensures
        swapped(s, i, j).to_multiset() == s.to_multiset(),
        s.no_duplicates() ==> swapped(s, i, j).no_duplicates(),
{
    broadcast use vstd::seq_lib::group_to_multiset_ensures, vstd::multiset::group_multiset_axioms;
    let t = s.update(i, s[j]);
    vstd::seq_lib::to_multiset_update(s, i, s[j]);
    vstd::seq_lib::to_multiset_update(t, j, s[i]);
    assert(t.update(j, s[i]).to_multiset() =~= s.to_multiset());
    let u = swapped(s, i, j);
    if s.no_duplicates() {
        assert forall|a: int, b: int| 0 <= a < u.len() && 0 <= b < u.len() && a != b implies u[a] != u[b] by {
            let pa = if a == i { j } else if a == j { i } else { a };
            let pb = if b == i { j } else if b == j { i } else { b };
            assert(u[a] == s[pa] && u[b] == s[pb]);
        }
    }
}

proof fn lemma_shuffle_keeps_cards(s: Seq<Card>, words: Seq<u64>, i: nat)
    requires
        i < s.len(),
    ensures
        shuffle_steps(s, words, i).to_multiset() == s.to_multiset(),
        s.no_duplicates() ==> shuffle_steps(s, words, i).no_duplicates(),
    decreases i,
{
    if i > 0 {
        let j = shuffle_partner(words, i);
        let w = words[51 - i] as int;
        assert(0 <= j <= i) by (nonlinear_arith)
            requires j == w % (i + 1) as int, w >= 0;
        lemma_swap_keeps_cards(s, i as int, j);
        lemma_shuffle_keeps_cards(swapped(s, i as int, j), words, (i - 1) as nat);
    }
}

proof fn lemma_standard_order_distinct()
    ensures
        standard_order().no_duplicates(),
{
    let s = standard_order();
    assert forall|a: int, b: int| 0 <= a < s.len() && 0 <= b < s.len() && a != b implies s[a] != s[b] by {
        assert(a == 13 * (a / 13) + a % 13);
        assert(b == 13 * (b / 13) + b % 13);
        if a / 13 == b / 13 {
            assert(a % 13 != b % 13);
        }
    }
}

fn splitmix_output(z: u64) -> (r: u64)
    ensures
        r == splitmix_mix(z),
{
    let a = (z ^ (z >> 30u64)).wrapping_mul(0xBF58_476D_1CE4_E5B9);
    let b = (a ^ (a >> 27u64)).wrapping_mul(0x94D0_49BB_1331_11EB);
    b ^ (b >> 31u64)
}

/// The first 51 outputs of SplitMix64 started at `seed`.
fn splitmix_sequence(seed: u64) -> (r: Vec<u64>)
    ensures
        r@ == splitmix_words(seed),
{
    let mut state = seed;
    let mut words: Vec<u64> = Vec::new();
    let mut k: usize = 0;
    while k < SHUFFLE_DRAWS
        invariant
            k <= SHUFFLE_DRAWS,
            state as int == (seed as int + k * SPLITMIX_GAMMA as int) % 0x1_0000_0000_0000_0000int,
            words@ == splitmix_words(seed).take(k as int),
        decreases SHUFFLE_DRAWS - k,
    {
        proof {
            let m = 0x1_0000_0000_0000_0000int;
            let x = seed as int + k * SPLITMIX_GAMMA as int;
            let g = SPLITMIX_GAMMA as int;
            vstd::arithmetic::div_mod::lemma_add_mod_noop(x, g, m);
            vstd::arithmetic::div_mod::lemma_small_mod(g as nat, m as nat);
            vstd::arithmetic::div_mod::lemma_mod_twice(x, m);
            assert(x + g == seed as int + (k + 1) * g) by (nonlinear_arith)
                requires x == seed as int + k * g;
        }
        state = state.wrapping_add(SPLITMIX_GAMMA);
        let w = splitmix_output(state);
        words.push(w);
        assert(words@ =~= splitmix_words(seed).take(k + 1));
        k = k + 1;
    }
    assert(words@ =~= splitmix_words(seed));
    words
}

proof fn lemma_face_up_distinct(s: Seq<Card>)
    requires
        s.no_duplicates(),
        all_cards_face_up(s),
    ensures
        distinct_cards(s),
{
    assert forall|i: int, j: int| 0 <= i < s.len() && 0 <= j < s.len() && i != j implies card_key(#[trigger] s[i])
        != card_key(#[trigger] s[j]) by {
        assert(s[i].is_face_up && s[j].is_face_up);
        assert(s[i] != s[j]);
    }
}

impl Deck {
    /// At most 52 cards, all face up, no card twice.
    #[verifier::type_invariant]
    pub(crate) open spec fn inv(self) -> bool {
        &&& self@.len() <= DECK_SIZE
        &&& all_cards_face_up(self@)
        &&& distinct_cards(self@)
    }

    /// A fresh deck, shuffled with a seed taken from the system clock.
    pub fn new() -> (r: Self)
        ensures
            exists|seed: u64| r@ == shuffled_deck(seed),
            r@.len() == DECK_SIZE,
            r@.to_multiset() == standard_order().to_multiset(),
            r@.no_duplicates(),
    {
        Self::shuffled(clock_micros())
    }

    /// A fresh deck shuffled by Fisher-Yates, drawing on SplitMix64 seeded
    /// with `seed`.
    pub fn shuffled(seed: u64) -> (r: Self)
        ensures
            r@ == shuffled_deck(seed),
            r@.len() == DECK_SIZE,
            r@.to_multiset() == standard_order().to_multiset(),
            r@.no_duplicates(),
    {
        let words = splitmix_sequence(seed);
        Self::shuffled_with(words.as_slice()).unwrap()
    }

    /// A fresh deck shuffled by Fisher-Yates with the given random words,
    /// from any uniform source: the 52 cards of `standard_order`, put through
    /// steps 51 down to 1, step `i` using word `51 - i`. None when fewer than
    /// 51 words are given.
    pub fn shuffled_with(words: &[u64]) -> (r: Option<Self>)
        ensures
            r is Some <==> words@.len() >= SHUFFLE_DRAWS,
            r matches Some(d) ==> {
                &&& d@ == shuffle_steps(standard_order(), words@, 51)
                &&& d@.len() == DECK_SIZE
                &&& d@.to_multiset() == standard_order().to_multiset()
                &&& d@.no_duplicates()
            },
    {
        if words.len() < SHUFFLE_DRAWS {
            return None;
        }
        let mut cards = deck_vec_new();
        let mut s: usize = 0;
        while s < 4
            invariant
                s <= 4,
                deck_cards(cards) == standard_order().take(13 * s as int),
            decreases 4 - s,
        {
            let mut v: usize = 0;
            while v < 13
                invariant
                    s < 4,
                    v <= 13,
                    deck_cards(cards) == standard_order().take(13 * s + v as int),
                decreases 13 - v,
            {
                let card = Card::new(suit_from_index(s), value_from_index(v), true);
                proof {
                    let k = 13 * s + v as int;
                    assert(k / 13 == s as int && k % 13 == v as int) by (nonlinear_arith)
                        requires k == 13 * s + v as int, v < 13;
                    assert(standard_order().take(k + 1) =~= standard_order().take(k).push(card));
                }
                let _ = deck_vec_push(&mut cards, card);
                v = v + 1;
            }
            s = s + 1;
        }
        assert(deck_cards(cards) =~= standard_order());
        let ghost start = deck_cards(cards);
        let mut i: usize = DECK_SIZE - 1;
        while i > 0
            invariant
                i < DECK_SIZE,
                deck_cards(cards).len() == DECK_SIZE,
                words@.len() >= SHUFFLE_DRAWS,
                shuffle_steps(deck_cards(cards), words@, i as nat) == shuffle_steps(start, words@, 51),
            decreases i,
        {
            let j = (words[SHUFFLE_DRAWS - i] % (i as u64 + 1)) as usize;
            assert(j as int == shuffle_partner(words@, i as nat));
            deck_vec_swap(&mut cards, i, j);
            i = i - 1;
        }
        proof {
            assert(all_cards_face_up(standard_order()));
            lemma_shuffle_keeps_face_up(standard_order(), words@, 51);
            lemma_shuffle_keeps_cards(standard_order(), words@, 51);
            lemma_standard_order_distinct();
            lemma_face_up_distinct(shuffle_steps(standard_order(), words@, 51));
        }
        Some(Deck { cards })
    }

    /// A deck holding the given cards, bottom card first, each turned face up;
    /// none when there are more than 52 or a card appears twice.
    pub fn from_cards(cards: Vec<Card>) -> (r: Option<Self>)
        ensures
            r is Some <==> cards@.len() <= DECK_SIZE && distinct_cards(cards@),
            r matches Some(d) ==> d@ == crate::hand::all_face_up(cards@),
    {
        if cards.len() > DECK_SIZE {
            return None;
        }
        let n = cards.len();
        let mut i: usize = 0;
        while i < n
            invariant
                n == cards@.len(),
                i <= n,
                forall|a: int, b: int| 0 <= a < i && 0 <= b < n && a != b ==> card_key(#[trigger] cards@[a])
                    != card_key(#[trigger] cards@[b]),
            decreases n - i,
        {
            let mut k: usize = 0;
            while k < n
                invariant
                    n == cards@.len(),
                    i < n,
                    k <= n,
                    forall|a: int, b: int| 0 <= a < i && 0 <= b < n && a != b ==> card_key(#[trigger] cards@[a])
                        != card_key(#[trigger] cards@[b]),
                    forall|b: int| 0 <= b < k && b != i ==> card_key(cards@[i as int]) != card_key(#[trigger] cards@[b]),
                decreases n - k,
            {
                if k != i && cards[i].suit == cards[k].suit && cards[i].value == cards[k].value {
                    assert(!distinct_cards(cards@)) by {
                        assert(card_key(cards@[i as int]) == card_key(cards@[k as int]));
                    }
                    return None;
                }
                k = k + 1;
            }
            i = i + 1;
        }
        let mut v = deck_vec_new();
        let mut i: usize = 0;
        while i < cards.len()
            invariant
                cards@.len() <= DECK_SIZE,
                i <= cards@.len(),
                deck_cards(v) == crate::hand::all_face_up(cards@.take(i as int)),
            decreases cards@.len() - i,
        {
            let mut c = cards[i];
            c.set_face_up(true);
            assert(crate::hand::all_face_up(cards@.take(i + 1)) =~= crate::hand::all_face_up(cards@.take(i as int)).push(c));
            let _ = deck_vec_push(&mut v, c);
            i = i + 1;
        }
        assert(cards@.take(cards@.len() as int) =~= cards@);
        let ghost up = crate::hand::all_face_up(cards@);
        proof { lemma_distinct_by_map(cards@, up, |x: int| x); }
        Some(Deck { cards: v })
    }

    /// Takes the top card, if any is left; a drawn card is never put back.
    pub fn draw(&mut self) -> (r: Option<Card>)
        ensures
            old(self)@.len() == 0 ==> r is None && final(self)@ == old(self)@,
            old(self)@.len() > 0 ==> r == Some(old(self)@.last()) && final(self)@ == old(self)@.drop_last(),
            r matches Some(c) ==> c.is_face_up,
            r matches Some(c) ==> forall|i: int| 0 <= i < final(self)@.len() ==> card_key(#[trigger] final(self)@[i]) != card_key(c),
            distinct_cards(final(self)@),
    {
        proof { use_type_invariant(&*self); }
        let r = deck_vec_pop(&mut self.cards);
        proof {
            if r is Some {
                let s = old(self)@;
                assert forall|i: int| 0 <= i < self@.len() implies card_key(#[trigger] self@[i]) != card_key(r->Some_0) by {
                    assert(self@[i] == s[i]);
                    assert(r->Some_0 == s[s.len() - 1]);
                }
            }
        }
        r
    }
}

} // verus!
