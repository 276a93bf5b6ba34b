//! The seeded random number generators of map and camp generation, and the
//! draws that this library takes from them.
//!
//! A ChaCha generator seeded with `seed_from_u64` produces a stream fixed by
//! the seed, and its state is its position in that stream, counted in 32-bit
//! words (`get_word_pos` / `set_word_pos`). The library therefore carries a
//! generator as the plain pair (seed, word position): each draw below seeds a
//! generator, moves it to the position, draws, and hands back the value with
//! the position after the draw. Every draw is then a function of plain
//! values, and each is named here. Integers are drawn as `u8`, `u32` or
//! `u64`, whose sampling is the same on every machine; a `usize` draw would
//! take 32-bit words on a 32-bit machine and 64-bit words on a 64-bit one.

use vstd::prelude::*;
use rand::Rng;
use rand::rngs::ThreadRng;
use rand::seq::SliceRandom;
use rand_chacha::{ChaCha8Rng, ChaChaRng};
use rand_chacha::rand_core::SeedableRng;

verus! {

/// What `gen_range(lo..hi)` on `u64` gives from a 20-round ChaCha generator
/// seeded with `seed` and moved to word `word`, with the word position after it.
pub uninterp spec fn chacha20_u64_below(seed: u64, word: u128, lo: u64, hi: u64) -> (u64, u128);

/// What `gen_range(lo..hi)` on `u32` gives from a 20-round ChaCha generator
/// seeded with `seed` and moved to word `word`, with the word position after it.
pub uninterp spec fn chacha20_u32_below(seed: u64, word: u128, lo: u32, hi: u32) -> (u32, u128);

/// What `gen_range(lo..hi)` on `u8` gives from a 20-round ChaCha generator
/// seeded with `seed` and moved to word `word`, with the word position after it.
pub uninterp spec fn chacha20_u8_below(seed: u64, word: u128, lo: u8, hi: u8) -> (u8, u128);

/// What `gen_range(lo..=hi)` on `u8` gives from a 20-round ChaCha generator
/// seeded with `seed` and moved to word `word`, with the word position after it.
pub uninterp spec fn chacha20_u8_through(seed: u64, word: u128, lo: u8, hi: u8) -> (u8, u128);

/// `ChaChaRng::seed_from_u64(seed)`, `set_word_pos(word)`, then
/// `Rng::gen_range(lo..hi)` on `u64` and `get_word_pos()`. The value lies in
/// `[lo, hi)`; which one it is, and the position after it, are named by
/// `chacha20_u64_below`. `gen_range` panics on an empty range, which
/// `requires` rules out.
#[verifier::external_body]
pub(crate) fn chacha20_gen_range_u64(seed: u64, word: u128, lo: u64, hi: u64) -> (r: (u64, u128))
    requires
        lo < hi,
    ensures
        r == chacha20_u64_below(seed, word, lo, hi),
        lo <= r.0 < hi,
{
    let mut rng = ChaChaRng::seed_from_u64(seed);
    rng.set_word_pos(word);
    let v = rng.gen_range(lo..hi);
    (v, rng.get_word_pos())
}

/// `ChaChaRng::seed_from_u64(seed)`, `set_word_pos(word)`, then
/// `Rng::gen_range(lo..hi)` on `u32` and `get_word_pos()`. The value lies in
/// `[lo, hi)`; which one it is, and the position after it, are named by
/// `chacha20_u32_below`. `gen_range` panics on an empty range, which
/// `requires` rules out.
#[verifier::external_body]
pub(crate) fn chacha20_gen_range_u32(seed: u64, word: u128, lo: u32, hi: u32) -> (r: (u32, u128))
    requires
        lo < hi,
    ensures
        r == chacha20_u32_below(seed, word, lo, hi),
        lo <= r.0 < hi,
{
    let mut rng = ChaChaRng::seed_from_u64(seed);
    rng.set_word_pos(word);
    let v = rng.gen_range(lo..hi);
    (v, rng.get_word_pos())
}

/// `ChaChaRng::seed_from_u64(seed)`, `set_word_pos(word)`, then
/// `Rng::gen_range(lo..hi)` on `u8` and `get_word_pos()`. The value lies in
/// `[lo, hi)`; which one it is, and the position after it, are named by
/// `chacha20_u8_below`. `gen_range` panics on an empty range, which
/// `requires` rules out.
#[verifier::external_body]
pub(crate) fn chacha20_gen_range_u8(seed: u64, word: u128, lo: u8, hi: u8) -> (r: (u8, u128))
    requires
        lo < hi,
    ensures
        r == chacha20_u8_below(seed, word, lo, hi),
        lo <= r.0 < hi,
{
    let mut rng = ChaChaRng::seed_from_u64(seed);
    rng.set_word_pos(word);
    let v = rng.gen_range(lo..hi);
    (v, rng.get_word_pos())
}

/// `ChaChaRng::seed_from_u64(seed)`, `set_word_pos(word)`, then
/// `Rng::gen_range(lo..=hi)` on `u8` and `get_word_pos()`. The value lies in
/// `[lo, hi]`; which one it is, and the position after it, are named by
/// `chacha20_u8_through`. `gen_range` panics on an empty range, which
/// `requires` rules out.
#[verifier::external_body]
pub(crate) fn chacha20_gen_range_inclusive_u8(seed: u64, word: u128, lo: u8, hi: u8) -> (r: (u8, u128))
    requires
        lo <= hi,
    ensures
        r == chacha20_u8_through(seed, word, lo, hi),
        lo <= r.0 <= hi,
{
    let mut rng = ChaChaRng::seed_from_u64(seed);
    rng.set_word_pos(word);
    let v = rng.gen_range(lo..=hi);
    (v, rng.get_word_pos())
}

/// What the first `gen_range(0..hi)` on `u64` gives from an 8-round ChaCha
/// generator freshly seeded with `seed`.
pub uninterp spec fn chacha8_first_below(seed: u64, hi: u64) -> u64;

/// What the first `gen::<u64>()` gives from an 8-round ChaCha generator
/// freshly seeded with `seed`.
pub uninterp spec fn chacha8_first_u64(seed: u64) -> u64;

/// What `SliceRandom::shuffle` makes of `items` with an 8-round ChaCha
/// generator freshly seeded with `seed`.
pub uninterp spec fn chacha8_shuffled(seed: u64, items: Seq<(usize, usize)>) -> Seq<(usize, usize)>;

/// `ChaCha8Rng::seed_from_u64(seed).gen_range(0..hi)` on `u64`: a value in
/// `[0, hi)`, named by `chacha8_first_below`. `gen_range` panics on an empty
/// range, which `requires` rules out.
#[verifier::external_body]
pub(crate) fn chacha8_gen_first_below(seed: u64, hi: u64) -> (r: u64)
    requires
        0 < hi,
    ensures
        r == chacha8_first_below(seed, hi),
        r < hi,
{
    ChaCha8Rng::seed_from_u64(seed).gen_range(0..hi)
}

/// `ChaCha8Rng::seed_from_u64(seed).gen::<u64>()`, named by
/// `chacha8_first_u64`.
#[verifier::external_body]
pub(crate) fn chacha8_gen_first_u64(seed: u64) -> (r: u64)
    ensures
        r == chacha8_first_u64(seed),
{
    ChaCha8Rng::seed_from_u64(seed).gen::<u64>()
}

/// `SliceRandom::shuffle` on a vector of tile coordinates, drawing from
/// `ChaCha8Rng::seed_from_u64(seed)`. The order that comes back is named by
/// `chacha8_shuffled`; the source only swaps items, so it holds the same
/// items, each as often as before. (Its index draws are `u32` draws for any
/// vector shorter than `u32::MAX`.)
#[verifier::external_body]
pub(crate) fn chacha8_shuffle_coords(seed: u64, items: &mut Vec<(usize, usize)>)
    ensures
        final(items)@ == chacha8_shuffled(seed, old(items)@),
        final(items)@.len() == old(items)@.len(),
        final(items)@.to_multiset() == old(items)@.to_multiset(),
{
    items.shuffle(&mut ChaCha8Rng::seed_from_u64(seed))
}

/// `rand::rngs::ThreadRng`, the generator of the running thread, carried
/// opaquely.
#[verifier::external_type_specification]
#[verifier::external_body]
pub struct ExThreadRng(ThreadRng);

/// `rand::thread_rng()`: the generator of the running thread, seeded by the
/// operating system. Nothing is stated of its stream.
#[verifier::external_body]
pub(crate) fn thread_rng() -> ThreadRng {
    rand::thread_rng()
}

/// `Rng::gen_range(lo..=hi)` on `u8`, drawn from the thread's generator: a
/// value in `[lo, hi]`. `gen_range` panics on an empty range, which
/// `requires` rules out.
#[verifier::external_body]
pub(crate) fn gen_range_inclusive_u8_thread(rng: &mut ThreadRng, lo: u8, hi: u8) -> (r: u8)
    requires
        lo <= hi,
    ensures
        lo <= r <= hi,
{
    rng.gen_range(lo..=hi)
}

} // verus!
