//! The reactor's seeded source of randomness.
//!
//! The generator is ChaCha with eight rounds. Its state is held as plain
//! values, the seed and the position in the stream, so that every draw is a
//! function of the state before it.

use rand::seq::SliceRandom;
use rand::{Rng, SeedableRng};
use rand_chacha::ChaCha8Rng;
use vstd::prelude::*;

verus! {

/// What a uniform draw below `n` yields from the stream of `seed` at word
/// position `pos`: the number drawn, and the position after the draw.
pub uninterp spec fn uniform_draw(seed: Seq<u8>, pos: nat, n: nat) -> (nat, nat);

/// The number that a draw below `n` yields. It is taken modulo `n`, which
/// changes nothing for a number that lies in the range, as every number drawn
/// does, and lets the specifications rely on the range.
pub open spec fn drawn(seed: Seq<u8>, pos: nat, n: nat) -> nat {
    uniform_draw(seed, pos, n).0 % n
}

/// The stream position after a draw below `n`.
pub open spec fn pos_after(seed: Seq<u8>, pos: nat, n: nat) -> nat {
    uniform_draw(seed, pos, n).1
}

/// Seeds a `ChaCha8Rng` of `rand_chacha` with `seed`, moves it to the word
/// position `pos` with `set_word_pos`, draws with `Rng::gen_range` of `rand`
/// from `0..n`, and reads the position back with `get_word_pos`. The number and
/// the new position depend on the three arguments alone and are named. As
/// `gen_range` documents, the number lies in the range.
#[verifier::external_body]
fn chacha_below(seed: &[u8; 32], pos: u128, n: u64) -> (draw: (u64, u128))
    requires
        n > 0,
    ensures
        (draw.0 as nat, draw.1 as nat) == uniform_draw(seed@, pos as nat, n as nat),
        draw.0 < n,
{
    let mut rng = ChaCha8Rng::from_seed(*seed);
    rng.set_word_pos(pos);
    let value: u64 = rng.gen_range(0..n);
    (value, rng.get_word_pos())
}

/// What a uniform draw from `low..=high` yields from the stream of `seed` at
/// word position `pos`: the number drawn, and the position after the draw.
pub uninterp spec fn range_draw(seed: Seq<u8>, pos: nat, low: nat, high: nat) -> (nat, nat);

/// What a draw that is true with the probability `numerator / denominator`
/// yields from the stream of `seed` at word position `pos`: the outcome, and
/// the position after the draw.
pub uninterp spec fn ratio_draw(seed: Seq<u8>, pos: nat, numerator: nat, denominator: nat) -> (
    bool,
    nat,
);

/// What shuffling `items` yields with the stream of `seed` at word position
/// `pos`: the items in their new order, and the position after the shuffle.
pub uninterp spec fn shuffle_draw(seed: Seq<u8>, pos: nat, items: Seq<u32>) -> (Seq<u32>, nat);

/// Seeds a `ChaCha8Rng` of `rand_chacha` with `seed`, moves it to the word
/// position `pos`, draws with `Rng::gen_range` of `rand` from `low..=high`,
/// and reads the position back. The number and the new position are named.
/// As `gen_range` documents, the number lies in the range; an empty range,
/// on which it panics, is kept out.
#[verifier::external_body]
fn chacha_between(seed: &[u8; 32], pos: u128, low: u32, high: u32) -> (draw: (u32, u128))
    requires
        low <= high,
    ensures
        (draw.0 as nat, draw.1 as nat) == range_draw(seed@, pos as nat, low as nat, high as nat),
        low <= draw.0 <= high,
{
    let mut rng = ChaCha8Rng::from_seed(*seed);
    rng.set_word_pos(pos);
    let value: u32 = rng.gen_range(low..=high);
    (value, rng.get_word_pos())
}

/// Seeds a `ChaCha8Rng` of `rand_chacha` with `seed`, moves it to the word
/// position `pos`, draws with `Rng::gen_ratio` of `rand`, and reads the
/// position back. The outcome and the new position are named. As `gen_ratio`
/// documents, the outcome is true where numerator and denominator are equal
/// and false where the numerator is zero; a zero denominator and a numerator
/// above the denominator, on which it panics, are kept out.
#[verifier::external_body]
fn chacha_ratio(seed: &[u8; 32], pos: u128, numerator: u32, denominator: u32) -> (draw: (
    bool,
    u128,
))
    requires
        denominator > 0,
        numerator <= denominator,
    ensures
        (draw.0, draw.1 as nat) == ratio_draw(
            seed@,
            pos as nat,
            numerator as nat,
            denominator as nat,
        ),
        numerator == denominator ==> draw.0,
        numerator == 0 ==> !draw.0,
{
    let mut rng = ChaCha8Rng::from_seed(*seed);
    rng.set_word_pos(pos);
    let outcome: bool = rng.gen_ratio(numerator, denominator);
    (outcome, rng.get_word_pos())
}

/// Seeds a `ChaCha8Rng` of `rand_chacha` with `seed`, moves it to the word
/// position `pos`, shuffles the items in place with `SliceRandom::shuffle` of
/// `rand`, and reads the position back. The new order and the new position
/// are named. The shuffle only swaps items, so the same items are there
/// afterwards, each as often as before.
#[verifier::external_body]
fn chacha_shuffle(seed: &[u8; 32], pos: u128, items: &mut Vec<u32>) -> (after: u128)
    ensures
        (final(items)@, after as nat) == shuffle_draw(seed@, pos as nat, old(items)@),
        final(items)@.len() == old(items)@.len(),
        final(items)@.to_multiset() == old(items)@.to_multiset(),
{
    let mut rng = ChaCha8Rng::from_seed(*seed);
    rng.set_word_pos(pos);
    items.shuffle(&mut rng);
    rng.get_word_pos()
}

/// `rand::thread_rng`, which the operating system seeds, fills 32 bytes with
/// `Rng::gen`. Nothing is known of them.
#[verifier::external_body]
pub(crate) fn entropy_seed() -> (seed: [u8; 32]) {
    rand::thread_rng().gen()
}

/// A seeded stream of random numbers: the seed, and how many 32-bit words of
/// the stream have been consumed.
#[derive(Debug, Clone, Copy)]
pub struct ReactorRng {
    seed: [u8; 32],
    pos: u128,
}

impl ReactorRng {
    /// The seed of the stream.
    pub closed spec fn seed(&self) -> Seq<u8> {
        self.seed@
    }

    /// The number of words consumed so far.
    pub closed spec fn pos(&self) -> nat {
        self.pos as nat
    }

    /// A stream at its start.
    pub fn from_seed(seed: [u8; 32]) -> (rng: Self)
        ensures
            rng.seed() == seed@,
            rng.pos() == 0,
    {
        ReactorRng { seed, pos: 0 }
    }

    /// Draws a number uniformly from `low..=high` and advances the stream.
    pub fn between(&mut self, low: u32, high: u32) -> (value: u32)
        requires
            low <= high,
        ensures
            low <= value <= high,
            (value as nat, final(self).pos()) == range_draw(
                old(self).seed(),
                old(self).pos(),
                low as nat,
                high as nat,
            ),
            final(self).seed() == old(self).seed(),
    {
        let draw = chacha_between(&self.seed, self.pos, low, high);
        self.pos = draw.1;
        draw.0
    }

    /// Draws a truth value that is true with the probability
    /// `numerator / denominator`, and advances the stream.
    pub fn chance(&mut self, numerator: u32, denominator: u32) -> (outcome: bool)
        requires
            denominator > 0,
            numerator <= denominator,
        ensures
            (outcome, final(self).pos()) == ratio_draw(
                old(self).seed(),
                old(self).pos(),
                numerator as nat,
                denominator as nat,
            ),
            numerator == denominator ==> outcome,
            numerator == 0 ==> !outcome,
            final(self).seed() == old(self).seed(),
    {
        let draw = chacha_ratio(&self.seed, self.pos, numerator, denominator);
        self.pos = draw.1;
        draw.0
    }

    /// Shuffles the items in place and advances the stream.
    pub fn shuffle(&mut self, items: &mut Vec<u32>)
        ensures
            (final(items)@, final(self).pos()) == shuffle_draw(
                old(self).seed(),
                old(self).pos(),
                old(items)@,
            ),
            final(items)@.len() == old(items)@.len(),
            final(items)@.to_multiset() == old(items)@.to_multiset(),
            final(self).seed() == old(self).seed(),
    {
        let after = chacha_shuffle(&self.seed, self.pos, items);
        self.pos = after;
    }

    /// Draws an index uniformly from `0..n` and advances the stream.
    pub fn below(&mut self, n: usize) -> (index: usize)
        requires
            n > 0,
        ensures
            index < n,
            index == drawn(old(self).seed(), old(self).pos(), n as nat),
            final(self).pos() == pos_after(old(self).seed(), old(self).pos(), n as nat),
            final(self).seed() == old(self).seed(),
    {
        let draw = chacha_below(&self.seed, self.pos, n as u64);
        proof {
            vstd::arithmetic::div_mod::lemma_small_mod(draw.0 as nat, n as nat);
        }
        self.pos = draw.1;
        draw.0 as usize
    }
}

} // verus!
