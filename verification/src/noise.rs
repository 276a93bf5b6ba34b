//! The integer half of the Perlin noise generator: its permutation table,
//! the seeded shuffle of that table, the lookup of the values at the four
//! corners of a grid cell, and the gradient chosen for a value.

use vstd::prelude::*;
use crate::rng::{chacha20_gen_range_u64, chacha20_u64_below};

verus! {

/// Ken Perlin's permutation table.
pub const P: [usize; 256] = [
    151, 160, 137, 91, 90, 15, 131, 13, 201, 95, 96, 53, 194, 233, 7, 225,
    140, 36, 103, 30, 69, 142, 8, 99, 37, 240, 21, 10, 23, 190, 6, 148,
    247, 120, 234, 75, 0, 26, 197, 62, 94, 252, 219, 203, 117, 35, 11, 32,
    57, 177, 33, 88, 237, 149, 56, 87, 174, 20, 125, 136, 171, 168, 68, 175,
    74, 165, 71, 134, 139, 48, 27, 166, 77, 146, 158, 231, 83, 111, 229, 122,
    60, 211, 133, 230, 220, 105, 92, 41, 55, 46, 245, 40, 244, 102, 143, 54,
    65, 25, 63, 161, 1, 216, 80, 73, 209, 76, 132, 187, 208, 89, 18, 169,
    200, 196, 135, 130, 116, 188, 159, 86, 164, 100, 109, 198, 173, 186, 3, 64,
    52, 217, 226, 250, 124, 123, 5, 202, 38, 147, 118, 126, 255, 82, 85, 212,
    207, 206, 59, 227, 47, 16, 58, 17, 182, 189, 28, 42, 223, 183, 170, 213,
    119, 248, 152, 2, 44, 154, 163, 70, 221, 153, 101, 155, 167, 43, 172, 9,
    129, 22, 39, 253, 19, 98, 108, 110, 79, 113, 224, 232, 178, 185, 112, 104,
    218, 246, 97, 228, 251, 34, 242, 193, 238, 210, 144, 12, 191, 179, 162, 241,
    81, 51, 145, 235, 249, 14, 239, 107, 49, 192, 214, 31, 181, 199, 106, 157,
    184, 84, 204, 176, 115, 121, 50, 45, 127, 4, 150, 254, 138, 236, 205, 93,
    222, 114, 67, 29, 24, 72, 243, 141, 128, 195, 78, 66, 215, 61, 156, 180,
];

/// One step of the shuffle: the values in slots `i` and `j` change places.
pub open spec fn swap_step(t: Seq<usize>, i: int, j: int) -> Seq<usize> {
    t.update(i, t[j]).update(j, t[i])
}

/// The table after the first `k` steps of the shuffle driven by `draws`:
/// step `i` swaps slot `i` with slot `draws[i]`.
pub open spec fn shuffled(draws: Seq<usize>, k: int) -> Seq<usize>
    decreases k,
{
    if k <= 0 {
        P@
    } else {
        swap_step(shuffled(draws, k - 1), k - 1, draws[k - 1] as int)
    }
}

/// Every value drawn is an index of the table.
pub open spec fn valid_draws(draws: Seq<usize>) -> bool {
    &&& draws.len() == 256
    &&& forall|i: int| 0 <= i < 256 ==> #[trigger] draws[i] < 256
}

proof fn lemma_swap_keeps_values(t: Seq<usize>, i: int, j: int)
    requires
        0 <= i < t.len(),
        0 <= j < t.len(),
    ensures
        swap_step(t, i, j).len() == t.len(),
        swap_step(t, i, j).to_multiset() == t.to_multiset(),
{
    broadcast use vstd::seq_lib::group_to_multiset_ensures;
    broadcast use vstd::multiset::group_multiset_axioms;
    let t1 = t.update(i, t[j]);
    assert(t1.to_multiset() == t.to_multiset().insert(t[j]).remove(t[i]));
    assert(t1.update(j, t[i]).to_multiset() == t1.to_multiset().insert(t[i]).remove(t1[j]));
    if i == j {
        assert(t1 =~= t);
        assert(t1.update(j, t[i]) =~= t);
    } else {
        assert(t1[j] == t[j]);
        assert(t1.update(j, t[i]).to_multiset() =~= t.to_multiset());
    }
}

/// Every prefix of the shuffle holds the values of `P`, each as often as
/// `P` does.
proof fn lemma_shuffled_permutes(draws: Seq<usize>, k: int)
    requires
        valid_draws(draws),
        0 <= k <= 256,
    ensures
        shuffled(draws, k).len() == 256,
        shuffled(draws, k).to_multiset() == P@.to_multiset(),
    decreases k,
{
    if k > 0 {
        lemma_shuffled_permutes(draws, k - 1);
        assert(draws[k - 1] < 256);
        lemma_swap_keeps_values(shuffled(draws, k - 1), k - 1, draws[k - 1] as int);
    }
}

/// The shuffle driven by the 256 indices of `draws`: step `i` swaps slot
/// `i` with slot `draws[i]`, so the result holds the values of `P`, each
/// as often as `P` does.
pub fn shuffle_with(draws: &[usize]) -> (r: [usize; 256])
    requires
        valid_draws(draws@),
    ensures
        r@ == shuffled(draws@, 256),
        r@.to_multiset() == P@.to_multiset(),
{
    let mut new_array = P;
    let mut i: usize = 0;
    while i < 256
        invariant
            0 <= i <= 256,
            valid_draws(draws@),
            new_array@ == shuffled(draws@, i as int),
        decreases 256 - i,
    {
        let j = draws[i];
        let a = new_array[i];
        let b = new_array[j];
        new_array[i] = b;
        new_array[j] = a;
        assert(new_array@ =~= swap_step(shuffled(draws@, i as int), i as int, j as int));
        i = i + 1;
    }
    proof {
        lemma_shuffled_permutes(draws@, 256);
    }
    new_array
}

/// The word position of the seeded generator before the `k`-th index draw
/// of the shuffle.
pub open spec fn shuffle_word(seed: u64, k: nat) -> u128
    decreases k,
{
    if k == 0 {
        0
    } else {
        chacha20_u64_below(seed, shuffle_word(seed, (k - 1) as nat), 0, 256).1
    }
}

/// The 256 indices that the generator seeded with `seed` supplies to the
/// shuffle, one after the other.
pub open spec fn seeded_draws(seed: u64) -> Seq<usize> {
    Seq::new(256, |k: int| chacha20_u64_below(seed, shuffle_word(seed, k as nat), 0, 256).0 as usize)
}

/// The permutation table shuffled by the generator seeded with `seed`,
/// which supplies one index in `0..256` for each of the 256 swaps: the
/// result is fixed by the seed, and holds the values of `P`, each as often
/// as `P` does.
pub fn shuffle(seed: u64) -> (r: [usize; 256])
    ensures
        valid_draws(seeded_draws(seed)),
        r@ == shuffled(seeded_draws(seed), 256),
        r@.to_multiset() == P@.to_multiset(),
{
    let mut word: u128 = 0;
    let mut draws: Vec<usize> = Vec::new();
    let mut i: usize = 0;
    while i < 256
        invariant
            0 <= i <= 256,
            draws@.len() == i,
            word == shuffle_word(seed, i as nat),
            forall|k: int| 0 <= k < i ==> #[trigger] draws@[k] < 256,
            forall|k: int| 0 <= k < i ==> #[trigger] draws@[k] == seeded_draws(seed)[k],
        decreases 256 - i,
    {
        let (j, next) = chacha20_gen_range_u64(seed, word, 0, 256);
        draws.push(j as usize);
        word = next;
        i = i + 1;
    }
    assert(draws@ =~= seeded_draws(seed));
    shuffle_with(draws.as_slice())
}

/// Every value of the shuffled table comes from `P`, so it is below 256.
pub proof fn law_shuffled_in_range(draws: Seq<usize>, k: int)
    requires
        valid_draws(draws),
        0 <= k <= 256,
    ensures
        shuffled(draws, k).len() == 256,
        forall|i: int| 0 <= i < 256 ==> #[trigger] shuffled(draws, k)[i] < 256,
    decreases k,
{
    assert forall|i: int| 0 <= i < 256 implies #[trigger] P@[i] < 256 by {
        lemma_p_in_range(i);
    }
    if k > 0 {
        law_shuffled_in_range(draws, k - 1);
        let t = shuffled(draws, k - 1);
        let j = draws[k - 1] as int;
        assert(j < 256);
        assert forall|i: int| 0 <= i < 256 implies #[trigger] shuffled(draws, k)[i] < 256 by {
            assert(t[j] < 256 && t[k - 1] < 256);
        }
    }
}

proof fn lemma_p_in_range(i: int)
    requires
        0 <= i < 256,
    ensures
        P@[i] < 256,
{
}

/// The gradient picked for a table value: (1, 1), (-1, 1) or (-1, -1) as
/// the value leaves remainder 0, 1 or 2 on division by 3.
pub open spec fn gradient(v: usize) -> (i8, i8) {
    if v % 3 == 0 {
        (1i8, 1i8)
    } else if v % 3 == 1 {
        (-1i8, 1i8)
    } else {
        (-1i8, -1i8)
    }
}

/// The constant vector dotted with the offset from a grid corner.
pub fn constant_vec(v: usize) -> (r: (i8, i8))
    ensures
        r == gradient(v),
{
    let h = v % 3;
    let mut x: i8 = 1;
    let mut y: i8 = -1;
    if h == 0 {
        y = 1;
    }
    if h == 1 {
        x = -1;
        y = 1;
    }
    if h == 2 {
        x = -1;
    }
    (x, y)
}

/// The table value of the corner (`xi` + `dx`, `yi` + `dy`) of a grid cell.
pub open spec fn corner(p: Seq<usize>, xi: int, yi: int, dx: int, dy: int) -> usize {
    p[(p[(xi + dx) % 256] + yi + dy) % 256]
}

/// The table values of the top-right, top-left, bottom-right and
/// bottom-left corners of the cell whose lower corner is (`xi`, `yi`).
pub fn corner_values(p: &[usize; 256], xi: usize, yi: usize) -> (r: (usize, usize, usize, usize))
    requires
        xi < 256,
        yi < 256,
        forall|i: int| 0 <= i < 256 ==> #[trigger] p@[i] < 256,
    ensures
        r == (
            corner(p@, xi as int, yi as int, 1, 1),
            corner(p@, xi as int, yi as int, 0, 1),
            corner(p@, xi as int, yi as int, 1, 0),
            corner(p@, xi as int, yi as int, 0, 0),
        ),
{
    let top_r = p[(p[(xi + 1) % 256] + yi + 1) % 256];
    let top_l = p[(p[xi % 256] + yi + 1) % 256];
    let bot_r = p[(p[(xi + 1) % 256] + yi) % 256];
    let bot_l = p[(p[xi % 256] + yi) % 256];
    (top_r, top_l, bot_r, bot_l)
}

} // verus!
