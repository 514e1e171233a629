use vstd::prelude::*;
use crate::puyo::{Puyo, PuyoPuyo, Orientation, all_colors, puyo_of_index};

verus! {

/// One step of the 64-bit xorshift generator (shifts 13, 7, 17).
pub open spec fn xorshift_step(x: u64) -> u64 {
    let a = x ^ (x << 13u64);
    let b = a ^ (a >> 7u64);
    b ^ (b << 17u64)
}

/// A small xorshift generator: the same seed gives the same stream.
struct Xorshift64(u64);

impl Xorshift64 {
    /// Seeds the generator; a zero seed is replaced by one, since zero is a
    /// fixed point of xorshift.
    fn new(seed: u64) -> (r: Self)
        ensures
            r.0 == (if seed == 0 { 1 } else { seed }),
    {
        Xorshift64(if seed < 1 { 1 } else { seed })
    }

    /// Advances the state by one step and returns the new state.
    fn next_u64(&mut self) -> (r: u64)
        ensures
            r == xorshift_step(old(self).0),
            final(self).0 == r,
    {
        let x = self.0;
        let a = x ^ (x << 13u64);
        let b = a ^ (a >> 7u64);
        let c = b ^ (b << 17u64);
        self.0 = c;
        c
    }

    /// A value below `max` taken from the next state.
    fn gen_range(&mut self, max: usize) -> (r: usize)
        requires
            max > 0,
        ensures
            final(self).0 == xorshift_step(old(self).0),
            r == (xorshift_step(old(self).0) as usize) % max,
            r < max,
    {
        let x = self.next_u64();
        (x as usize) % max
    }
}

/// The xorshift state never becomes zero once it is not zero, so the stream
/// never gets stuck.
pub proof fn lemma_xorshift_nonzero(x: u64)
    requires
        x != 0,
    ensures
        xorshift_step(x) != 0,
{
    let a = x ^ (x << 13u64);
    let b = a ^ (a >> 7u64);
    let c = b ^ (b << 17u64);
    assert(x != 0 ==> (x ^ (x << 13u64)) != 0) by (bit_vector);
    assert(a != 0 ==> (a ^ (a >> 7u64)) != 0) by (bit_vector);
    assert(b != 0 ==> (b ^ (b << 17u64)) != 0) by (bit_vector);
}

/// The index drawn from a state for a range of `max` values.
pub open spec fn draw(state: u64, max: nat) -> nat {
    ((xorshift_step(state) as usize) % (max as usize)) as nat
}

/// Palette and generator state after the Fisher-Yates passes for positions
/// `4` down to `i` (with `i == 5` meaning no pass yet).
pub open spec fn shuffle_upto(seed: u64, i: nat) -> (Seq<Puyo>, u64)
    decreases 5 - i,
{
    if i >= 5 {
        (all_colors(), if seed == 0 { 1 } else { seed })
    } else if i == 0 {
        shuffle_upto(seed, 1)
    } else {
        let (colors, state) = shuffle_upto(seed, i + 1);
        let j = draw(state, i + 1) as int;
        (colors.update(i as int, colors[j]).update(j, colors[i as int]), xorshift_step(state))
    }
}

/// The colours a factory made with `num_colors` and `seed` deals from: the
/// five colours shuffled with the seeded generator, cut to `num_colors`.
pub open spec fn factory_colors(num_colors: nat, seed: u64) -> Seq<Puyo> {
    let shuffled = shuffle_upto(seed, 1).0;
    if num_colors < 5 {
        shuffled.take(num_colors as int)
    } else {
        shuffled
    }
}

/// The generator state of a fresh factory.
pub open spec fn factory_state(seed: u64) -> u64 {
    shuffle_upto(seed, 1).1
}

/// The pair a factory in a given state deals next, and its state afterwards.
pub open spec fn deal(colors: Seq<Puyo>, state: u64) -> (PuyoPuyo, u64) {
    let s1 = xorshift_step(state);
    let s2 = xorshift_step(s1);
    let axis = colors[draw(state, colors.len()) as int];
    let child = colors[draw(s1, colors.len()) as int];
    (PuyoPuyo { axis, child, orientation: Orientation::Up }, s2)
}

/// The generator state after dealing `k` pairs.
pub open spec fn state_after(colors: Seq<Puyo>, state: u64, k: nat) -> u64
    decreases k,
{
    if k == 0 {
        state
    } else {
        deal(colors, state_after(colors, state, (k - 1) as nat)).1
    }
}

/// The `k`-th pair (counting from zero) that a factory made with
/// `num_colors` and `seed` deals.
pub open spec fn pair_sequence(num_colors: nat, seed: u64, k: nat) -> PuyoPuyo {
    let colors = factory_colors(num_colors, seed);
    deal(colors, state_after(colors, factory_state(seed), k)).0
}

/// Each Fisher-Yates pass only swaps two places, so the shuffled palette
/// holds the five colours, each once.
proof fn lemma_shuffle_is_permutation(seed: u64, i: nat)
    requires
        i <= 5,
    ensures
        shuffle_upto(seed, i).0.len() == 5,
        shuffle_upto(seed, i).0.no_duplicates(),
        forall|k: int| 0 <= k < 5 ==> all_colors().contains(#[trigger] shuffle_upto(seed, i).0[k]),
    decreases 5 - i,
{
    if i >= 5 {
        assert(all_colors()[0] != all_colors()[1]);
        assert forall|k: int| 0 <= k < 5 implies all_colors().contains(#[trigger] all_colors()[k]) by {}
    } else if i == 0 {
        lemma_shuffle_is_permutation(seed, 1);
    } else {
        lemma_shuffle_is_permutation(seed, i + 1);
        let (colors, state) = shuffle_upto(seed, i + 1);
        let j = draw(state, i + 1) as int;
        assert(0 <= j < i + 1);
        let next = colors.update(i as int, colors[j]).update(j, colors[i as int]);
        assert(next == shuffle_upto(seed, i).0);
        assert forall|a: int, b: int| 0 <= a < 5 && 0 <= b < 5 && a != b implies next[a] != next[b] by {
            assert(colors.no_duplicates());
        }
        assert forall|k: int| 0 <= k < 5 implies all_colors().contains(#[trigger] next[k]) by {
            if k == i {
                assert(all_colors().contains(colors[j]));
            } else if k == j {
                assert(all_colors().contains(colors[i as int]));
            } else {
                assert(all_colors().contains(colors[k]));
            }
        }
    }
}

/// A factory deals from `min(num_colors, 5)` different colours, all of them
/// among the five.
pub proof fn lemma_factory_palette(num_colors: nat, seed: u64)
    ensures
        factory_colors(num_colors, seed).len() == if num_colors < 5 { num_colors } else { 5 },
        factory_colors(num_colors, seed).no_duplicates(),
        forall|k: int|
            0 <= k < factory_colors(num_colors, seed).len() ==> all_colors().contains(
                #[trigger] factory_colors(num_colors, seed)[k],
            ),
{
    lemma_shuffle_is_permutation(seed, 1);
}

/// Seeds 0 and 1 start the shuffle alike: a zero seed is taken as 1.
proof fn lemma_shuffle_zero_one(i: nat)
    requires
        i <= 5,
    ensures
        shuffle_upto(0, i) == shuffle_upto(1, i),
    decreases 5 - i,
{
    if i < 5 {
        lemma_shuffle_zero_one(i + 1);
    }
}

/// Two factories with the same number of colours deal the same pairs, in
/// the same order, when their seeds are equal or are 0 and 1 (a zero seed
/// starts the generator as 1); each factory's pair after `k` deals is fixed
/// by the colour count, the seed and `k`, and the next deal moves it to the
/// pair after `k + 1` deals.
pub proof fn lemma_seeds_deal_alike(num_colors: nat, s1: u64, s2: u64, k: nat)
    requires
        s1 == s2 || (s1 == 0 && s2 == 1) || (s1 == 1 && s2 == 0),
    ensures
        factory_colors(num_colors, s1) == factory_colors(num_colors, s2),
        factory_state(s1) == factory_state(s2),
        pair_sequence(num_colors, s1, k) == pair_sequence(num_colors, s2, k),
        deal(
            factory_colors(num_colors, s1),
            state_after(factory_colors(num_colors, s1), factory_state(s1), k),
        ) == (
            pair_sequence(num_colors, s1, k),
            state_after(factory_colors(num_colors, s1), factory_state(s1), k + 1),
        ),
{
    lemma_shuffle_zero_one(1);
}

/// Every pair a factory deals starts child up, and both its colours come
/// from the factory's palette.
pub proof fn lemma_pairs_from_palette(num_colors: nat, seed: u64, k: nat)
    requires
        num_colors >= 1,
    ensures
        pair_sequence(num_colors, seed, k).orientation == Orientation::Up,
        factory_colors(num_colors, seed).contains(pair_sequence(num_colors, seed, k).axis),
        factory_colors(num_colors, seed).contains(pair_sequence(num_colors, seed, k).child),
{
    lemma_factory_palette(num_colors, seed);
    let colors = factory_colors(num_colors, seed);
    let st = state_after(colors, factory_state(seed), k);
    let ia = draw(st, colors.len()) as int;
    let ic = draw(xorshift_step(st), colors.len()) as int;
    assert(0 <= ia < colors.len());
    assert(0 <= ic < colors.len());
    assert(colors[ia] == pair_sequence(num_colors, seed, k).axis);
    assert(colors[ic] == pair_sequence(num_colors, seed, k).child);
}

/// Deals pairs from a seeded palette: the same number of colours and seed
/// give the same pairs in the same order.
pub struct PuyoPuyoFactory {
    colors: Vec<Puyo>,
    rng: Xorshift64,
}

impl View for PuyoPuyoFactory {
    /// The palette and the generator state.
    type V = (Seq<Puyo>, u64);

    closed spec fn view(&self) -> (Seq<Puyo>, u64) {
        (self.colors@, self.rng.0)
    }
}

impl PuyoPuyoFactory {
    /// The palette is not empty, so a pair can always be dealt.
    pub open spec fn well_formed(&self) -> bool {
        self@.0.len() > 0
    }

    /// A factory dealing from `num_colors` of the five colours, chosen and
    /// ordered by a Fisher-Yates shuffle driven by `seed`.
    pub fn new(num_colors: usize, seed: u64) -> (f: Self)
        ensures
            f@.0 == factory_colors(num_colors as nat, seed),
            f@.1 == factory_state(seed),
    {
        let mut rng = Xorshift64::new(seed);
        let mut colors: Vec<Puyo> = Vec::new();
        let mut k: usize = 0;
        while k < 5
            invariant
                k <= 5,
                colors@ == all_colors().take(k as int),
            decreases 5 - k,
        {
            colors.push(puyo_of_index(k));
            k = k + 1;
            assert(colors@ =~= all_colors().take(k as int));
        }
        assert(colors@ =~= all_colors());
        let mut i: usize = 4;
        while i >= 1
            invariant
                i <= 4,
                (colors@, rng.0) == shuffle_upto(seed, (i + 1) as nat),
                colors@.len() == 5,
            decreases i,
        {
            let j = rng.gen_range(i + 1);
            let ci = colors[i];
            let cj = colors[j];
            colors.set(i, cj);
            colors.set(j, ci);
            assert(colors@ =~= shuffle_upto(seed, i as nat).0);
            i = i - 1;
        }
        assert(shuffle_upto(seed, 0) == shuffle_upto(seed, 1));
        if num_colors < 5 {
            colors.truncate(num_colors);
        }
        PuyoPuyoFactory { colors, rng }
    }

    /// Deals the next pair: axis colour first, then child colour, child on
    /// top.
    pub fn create(&mut self) -> (p: PuyoPuyo)
        requires
            old(self).well_formed(),
        ensures
            (p, final(self)@.1) == deal(old(self)@.0, old(self)@.1),
            final(self)@.0 == old(self)@.0,
    {
        let n = self.colors.len();
        let ia = self.rng.gen_range(n);
        let axis = self.colors[ia];
        let ic = self.rng.gen_range(n);
        let child = self.colors[ic];
        PuyoPuyo { axis, child, orientation: Orientation::Up }
    }
}

} // verus!
