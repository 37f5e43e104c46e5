//! Fixed-capacity storage from the `heapless` crate, with the facts this
//! library relies on. Each capacity in use has a name for what a vector of it
//! holds, and one small wrapper per operation the logic calls.
use vstd::prelude::*;
use crate::card::Card;

verus! {

#[verifier::external_type_specification]
#[verifier::external_body]
#[verifier::reject_recursive_types(T)]
pub struct ExHeaplessVec<T, const N: usize>(heapless::Vec<T, N>);

/// What a deck's vector holds, bottom card first.
pub uninterp spec fn deck_cards(v: heapless::Vec<Card, 52>) -> Seq<Card>;

/// What a hand's vector holds, in the order the cards were added.
pub uninterp spec fn hand_cards(v: heapless::Vec<Card, 10>) -> Seq<Card>;

/// What a bitmap's pixel vector holds, row-major.
pub uninterp spec fn pixel_bits(v: heapless::Vec<bool, 8192>) -> Seq<bool>;

/// What a display buffer holds, page by page.
pub uninterp spec fn buffer_bytes(v: heapless::Vec<u8, 1024>) -> Seq<u8>;

// ----- cards of a deck (capacity 52) -----

/// Relies on heapless::Vec::new: a new vector is empty.
#[verifier::external_body]
pub(crate) fn deck_vec_new() -> (r: heapless::Vec<Card, 52>)
    ensures
        deck_cards(r) == Seq::<Card>::empty(),
{
    heapless::Vec::new()
}

/// Relies on heapless::Vec::push: appends when below capacity, else hands
/// the item back and leaves the vector as it was.
#[verifier::external_body]
pub(crate) fn deck_vec_push(v: &mut heapless::Vec<Card, 52>, c: Card) -> (r: Result<(), Card>)
    ensures
        r is Ok <==> deck_cards(*old(v)).len() < 52,
        r is Ok ==> deck_cards(*final(v)) == deck_cards(*old(v)).push(c),
        r is Err ==> deck_cards(*final(v)) == deck_cards(*old(v)),
    no_unwind
{
    v.push(c)
}

/// Relies on heapless::Vec::pop: removes and returns the last item, if any.
#[verifier::external_body]
pub(crate) fn deck_vec_pop(v: &mut heapless::Vec<Card, 52>) -> (r: Option<Card>)
    ensures
        deck_cards(*old(v)).len() == 0 ==> r is None && deck_cards(*final(v)) == deck_cards(*old(v)),
        deck_cards(*old(v)).len() > 0 ==> r == Some(deck_cards(*old(v)).last())
            && deck_cards(*final(v)) == deck_cards(*old(v)).drop_last(),
    no_unwind
{
    v.pop()
}

/// Relies on heapless::Vec's slice view and slice::swap: exchanges two items.
#[verifier::external_body]
pub(crate) fn deck_vec_swap(v: &mut heapless::Vec<Card, 52>, i: usize, j: usize)
    requires
        i < deck_cards(*old(v)).len(),
        j < deck_cards(*old(v)).len(),
    ensures
        deck_cards(*final(v)) == deck_cards(*old(v)).update(i as int, deck_cards(*old(v))[j as int]).update(
            j as int,
            deck_cards(*old(v))[i as int],
        ),
    no_unwind
{
    v.swap(i, j)
}

// ----- cards of a hand (capacity 10) -----

/// Relies on heapless::Vec::new: a new vector is empty.
#[verifier::external_body]
pub(crate) fn hand_vec_new() -> (r: heapless::Vec<Card, 10>)
    ensures
        hand_cards(r) == Seq::<Card>::empty(),
{
    heapless::Vec::new()
}

/// Relies on heapless::Vec::push: appends when below capacity, else hands
/// the item back and leaves the vector as it was.
#[verifier::external_body]
pub(crate) fn hand_vec_push(v: &mut heapless::Vec<Card, 10>, c: Card) -> (r: Result<(), Card>)
    ensures
        r is Ok <==> hand_cards(*old(v)).len() < 10,
        r is Ok ==> hand_cards(*final(v)) == hand_cards(*old(v)).push(c),
        r is Err ==> hand_cards(*final(v)) == hand_cards(*old(v)),
    no_unwind
{
    v.push(c)
}

/// Relies on heapless::Vec::len: the number of items held.
#[verifier::external_body]
pub(crate) fn hand_vec_len(v: &heapless::Vec<Card, 10>) -> (r: usize)
    ensures
        r == hand_cards(*v).len(),
{
    v.len()
}

/// Relies on heapless::Vec::get: the item at an index, if there is one.
#[verifier::external_body]
pub(crate) fn hand_vec_get(v: &heapless::Vec<Card, 10>, i: usize) -> (r: Option<&Card>)
    ensures
        i < hand_cards(*v).len() ==> r == Some(&hand_cards(*v)[i as int]),
        i >= hand_cards(*v).len() ==> r is None,
{
    v.get(i)
}

/// Relies on heapless::Vec's mutable slice view: replaces the item at an index.
#[verifier::external_body]
pub(crate) fn hand_vec_set(v: &mut heapless::Vec<Card, 10>, i: usize, c: Card)
    requires
        i < hand_cards(*old(v)).len(),
    ensures
        hand_cards(*final(v)) == hand_cards(*old(v)).update(i as int, c),
    no_unwind
{
    v[i] = c;
}

// ----- pixels of a bitmap (capacity 8192) -----

/// Relies on heapless::Vec::new: a new vector is empty.
#[verifier::external_body]
pub(crate) fn pixel_vec_new() -> (r: heapless::Vec<bool, 8192>)
    ensures
        pixel_bits(r) == Seq::<bool>::empty(),
{
    heapless::Vec::new()
}

/// Relies on heapless::Vec::push: appends when below capacity, else hands
/// the item back and leaves the vector as it was.
#[verifier::external_body]
pub(crate) fn pixel_vec_push(v: &mut heapless::Vec<bool, 8192>, b: bool) -> (r: Result<(), bool>)
    ensures
        r is Ok <==> pixel_bits(*old(v)).len() < 8192,
        r is Ok ==> pixel_bits(*final(v)) == pixel_bits(*old(v)).push(b),
        r is Err ==> pixel_bits(*final(v)) == pixel_bits(*old(v)),
{
    v.push(b)
}

/// Relies on heapless::Vec's slice view: the item at an index.
#[verifier::external_body]
pub(crate) fn pixel_vec_at(v: &heapless::Vec<bool, 8192>, i: usize) -> (r: bool)
    requires
        i < pixel_bits(*v).len(),
    ensures
        r == pixel_bits(*v)[i as int],
{
    v[i]
}

// ----- bytes of a display buffer (capacity 1024) -----

/// Relies on heapless::Vec::new: a new vector is empty.
#[verifier::external_body]
pub(crate) fn buffer_vec_new() -> (r: heapless::Vec<u8, 1024>)
    ensures
        buffer_bytes(r) == Seq::<u8>::empty(),
{
    heapless::Vec::new()
}

/// Relies on heapless::Vec::push: appends when below capacity, else hands
/// the item back and leaves the vector as it was.
#[verifier::external_body]
pub(crate) fn buffer_vec_push(v: &mut heapless::Vec<u8, 1024>, b: u8) -> (r: Result<(), u8>)
    ensures
        r is Ok <==> buffer_bytes(*old(v)).len() < 1024,
        r is Ok ==> buffer_bytes(*final(v)) == buffer_bytes(*old(v)).push(b),
        r is Err ==> buffer_bytes(*final(v)) == buffer_bytes(*old(v)),
{
    v.push(b)
}

/// Relies on heapless::Vec::len: the number of items held.
#[verifier::external_body]
pub(crate) fn buffer_vec_len(v: &heapless::Vec<u8, 1024>) -> (r: usize)
    ensures
        r == buffer_bytes(*v).len(),
        r <= 1024,
{
    v.len()
}

/// Relies on heapless::Vec's slice view: the item at an index.
#[verifier::external_body]
pub(crate) fn buffer_vec_at(v: &heapless::Vec<u8, 1024>, i: usize) -> (r: u8)
    requires
        i < buffer_bytes(*v).len(),
    ensures
        r == buffer_bytes(*v)[i as int],
{
    v[i]
}

} // verus!
