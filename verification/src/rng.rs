//! Deterministic PRNG (SplitMix64): the engine's only source of randomness,
//! fully reproducible from the seed stored in the game state.
use vstd::prelude::*;

verus! {

/// The SplitMix64 output function applied to an already advanced state.
pub open spec fn mix(z0: u64) -> u64 {
    let z1 = ((z0 ^ (z0 >> 30u64)) as u64).wrapping_mul(0xBF58_476D_1CE4_E5B9u64);
    let z2 = ((z1 ^ (z1 >> 27u64)) as u64).wrapping_mul(0x94D0_49BB_1331_11EBu64);
    (z2 ^ (z2 >> 31u64)) as u64
}

/// The state after one draw.
pub open spec fn advance(state: u64) -> u64 {
    state.wrapping_add(0x9E37_79B9_7F4A_7C15u64)
}

/// Advances the state and returns the next 64-bit output.
pub fn next(state: &mut u64) -> (out: u64)
    ensures
        *final(state) == advance(*old(state)),
        out == mix(*final(state)),
{
    *state = state.wrapping_add(0x9E37_79B9_7F4A_7C15u64);
    let mut z = *state;
    z = (z ^ (z >> 30u64)).wrapping_mul(0xBF58_476D_1CE4_E5B9u64);
    z = (z ^ (z >> 27u64)).wrapping_mul(0x94D0_49BB_1331_11EBu64);
    z ^ (z >> 31u64)
}


/// The output of one draw taken from `state`.
pub open spec fn draw(state: u64) -> u64 {
    mix(advance(state))
}

/// The state after `n` draws.
pub open spec fn advance_n(state: u64, n: nat) -> u64
    decreases n,
{
    if n == 0 {
        state
    } else {
        advance_n(advance(state), (n - 1) as nat)
    }
}

/// A draw reduced modulo `bound`: the generator's output is uniform enough
/// over `u64` that the modulo bias is negligible for the small bounds used.
pub fn below(state: &mut u64, bound: u64) -> (out: u64)
    requires
        bound > 0,
    ensures
        *final(state) == advance(*old(state)),
        out == draw(*old(state)) % bound,
        out < bound,
{
    next(state) % bound
}

/// Swaps two entries of a slice.
#[verifier::external_body]
fn slice_swap<T>(items: &mut [T], i: usize, j: usize)
    requires
        i < old(items)@.len(),
        j < old(items)@.len(),
    ensures
        final(items)@ == old(items)@.update(i as int, old(items)@[j as int]).update(
            j as int,
            old(items)@[i as int],
        ),
{
    items.swap(i, j);
}

/// Fisher-Yates over the prefix `items[0..=i]`, walking `i` down to 1:
/// the sequence and generator state that the in-place shuffle produces.
pub open spec fn shuffle_down<T>(items: Seq<T>, state: u64, i: int) -> (Seq<T>, u64)
    decreases i,
{
    if i <= 0 || i >= items.len() {
        (items, state)
    } else {
        let j = (draw(state) as int) % (i + 1);
        let swapped = items.update(i, items[j]).update(j, items[i]);
        shuffle_down(swapped, advance(state), i - 1)
    }
}

/// The result of shuffling `items` with generator state `state`.
pub open spec fn shuffled<T>(items: Seq<T>, state: u64) -> (Seq<T>, u64) {
    shuffle_down(items, state, items.len() - 1)
}

proof fn lemma_swap_multiset<T>(s: Seq<T>, i: int, j: int)
    requires
        0 <= i < s.len(),
        0 <= j < s.len(),
    ensures
        s.update(i, s[j]).update(j, s[i]).to_multiset() == s.to_multiset(),
{
    broadcast use vstd::seq_lib::group_to_multiset_ensures;
    let t = s.update(i, s[j]);
    let u = t.update(j, s[i]);
    assert(t.to_multiset() == s.to_multiset().remove(s[i]).insert(s[j]));
    assert(u.to_multiset() == t.to_multiset().remove(t[j]).insert(s[i]));
    if i == j {
        assert(u =~= s);
    } else {
        assert(t[j] == s[j]);
    }
}

/// Shuffling only reorders: the result holds the same items, each as many
/// times as before.
pub proof fn lemma_shuffle_is_permutation<T>(items: Seq<T>, state: u64, i: int)
    ensures
        shuffle_down(items, state, i).0.to_multiset() == items.to_multiset(),
        shuffle_down(items, state, i).0.len() == items.len(),
    decreases i,
{
    if i <= 0 || i >= items.len() {
    } else {
        let j = (draw(state) as int) % (i + 1);
        vstd::arithmetic::div_mod::lemma_mod_bound(draw(state) as int, i + 1);
        lemma_swap_multiset(items, i, j);
        let swapped = items.update(i, items[j]).update(j, items[i]);
        lemma_shuffle_is_permutation(swapped, advance(state), i - 1);
    }
}

/// Fisher-Yates in-place shuffle driven by the generator.
pub fn shuffle<T>(items: &mut [T], state: &mut u64)
    ensures
        (final(items)@, *final(state)) == shuffled(old(items)@, *old(state)),
        final(items)@.to_multiset() == old(items)@.to_multiset(),
{
    proof {
        lemma_shuffle_is_permutation(old(items)@, *old(state), old(items)@.len() - 1);
    }
    let len = items.len();
    if len == 0 {
        return;
    }
    let mut i: usize = len - 1;
    while i >= 1
        invariant
            items@.len() == len,
            i < len,
            shuffle_down(items@, *state, i as int) == shuffled(old(items)@, *old(state)),
        decreases i,
    {
        let bound: u64 = (i + 1) as u64;
        let ghost st0 = *state;
        let j_raw = below(state, bound);
        let j: usize = j_raw as usize;
        proof {
            vstd::arithmetic::div_mod::lemma_mod_bound(draw(st0) as int, i + 1);
        }
        assert(j as int == (draw(st0) as int) % (i + 1));
        slice_swap(items, i, j);
        i = i - 1;
    }
}

} // verus!
