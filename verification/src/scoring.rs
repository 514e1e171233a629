use vstd::prelude::*;
use crate::puyo::{Puyo, all_colors};
use crate::chain::{ChainGroup, Group, groups_view, group_total};

verus! {

/// Chain power of the chain steps one to nineteen (the official table).
pub open spec fn power_table(i: int) -> int {
    if i == 0 {
        0
    } else if i <= 4 {
        8 * pow2_of(i - 1)
    } else {
        64 + 32 * (i - 4)
    }
}

/// Powers of two up to eight.
pub open spec fn pow2_of(i: int) -> int {
    if i == 0 {
        1
    } else if i == 1 {
        2
    } else if i == 2 {
        4
    } else {
        8
    }
}

/// Chain power of a chain step (counted from one): the table up to step
/// nineteen, then 32 more per step; zero for step zero.
pub open spec fn chain_power_of(chain: int) -> int {
    if chain == 0 {
        0
    } else if chain - 1 < 19 {
        power_table(chain - 1)
    } else {
        512 + (chain - 19) * 32
    }
}

/// Chain power of a chain step (counted from one), for any step count.
fn chain_power_wide(chain: u32) -> (r: u64)
    ensures
        r == chain_power_of(chain as int),
{
    if chain == 0 {
        return 0;
    }
    let idx = chain - 1;
    if idx < 19 {
        if idx == 0 {
            0
        } else if idx == 1 {
            8
        } else if idx == 2 {
            16
        } else if idx == 3 {
            32
        } else if idx == 4 {
            64
        } else {
            64 + 32 * (idx as u64 - 4)
        }
    } else {
        512 + (chain as u64 - 19) * 32
    }
}

/// Chain power of a chain step (counted from one), for the steps whose
/// power fits in 32 bits.
pub fn chain_power(chain: u32) -> (r: u32)
    requires
        chain_power_of(chain as int) <= u32::MAX,
    ensures
        r == chain_power_of(chain as int),
{
    chain_power_wide(chain) as u32
}

/// Whether some group has this colour.
pub open spec fn color_present(groups: Seq<Group>, p: Puyo) -> bool {
    exists|i: int| 0 <= i < groups.len() && (#[trigger] groups[i]).0 == p
}

/// Number of distinct colours among the groups.
pub open spec fn color_count(groups: Seq<Group>) -> int {
    (if color_present(groups, Puyo::Red) { 1int } else { 0 })
        + (if color_present(groups, Puyo::Blue) { 1int } else { 0 })
        + (if color_present(groups, Puyo::Green) { 1int } else { 0 })
        + (if color_present(groups, Puyo::Yellow) { 1int } else { 0 })
        + (if color_present(groups, Puyo::Purple) { 1int } else { 0 })
}

/// Bonus for the number of colours popped at once.
pub open spec fn color_bonus_of(groups: Seq<Group>) -> int {
    let n = color_count(groups);
    if n <= 1 {
        0
    } else if n == 2 {
        3
    } else if n == 3 {
        6
    } else if n == 4 {
        12
    } else {
        24
    }
}

/// Index of a colour in [`all_colors`].
fn puyo_index(p: Puyo) -> (i: usize)
    ensures
        i < 5,
        all_colors()[i as int] == p,
{
    match p {
        Puyo::Red => 0,
        Puyo::Blue => 1,
        Puyo::Green => 2,
        Puyo::Yellow => 3,
        Puyo::Purple => 4,
    }
}

/// Bonus for the number of different colours among the popped groups.
///
/// The colours seen are kept as five flags, one per colour, not in a
/// `HashSet<Puyo>`; a hash set was not tried: vstd proves little of a hash
/// set keyed by an enum with a derived `Hash` (not even its length after an
/// insert), while the flags make the count of colours exact.
pub fn color_bonus(groups: &Vec<ChainGroup>) -> (r: u32)
    ensures
        r == color_bonus_of(groups_view(groups@)),
        r <= 24,
{
    let ghost gs = groups_view(groups@);
    let mut seen: Vec<bool> = Vec::new();
    seen.push(false);
    seen.push(false);
    seen.push(false);
    seen.push(false);
    seen.push(false);
    let mut i: usize = 0;
    while i < groups.len()
        invariant
            gs == groups_view(groups@),
            i <= groups@.len(),
            seen@.len() == 5,
            forall|k: int|
                0 <= k < 5 ==> (#[trigger] seen@[k] <==> exists|j: int|
                    0 <= j < i && (#[trigger] gs[j]).0 == all_colors()[k]),
        decreases groups@.len() - i,
    {
        let k = puyo_index(groups[i].puyo);
        seen.set(k, true);
        proof {
            assert(gs[i as int].0 == groups@[i as int].puyo);
            assert forall|m: int| 0 <= m < 5 implies (#[trigger] seen@[m] <==> exists|j: int|
                0 <= j < i + 1 && (#[trigger] gs[j]).0 == all_colors()[m]) by {
                if seen@[m] && m != k {
                    let j = choose|j: int| 0 <= j < i && (#[trigger] gs[j]).0 == all_colors()[m];
                }
                if m == k {
                    assert(gs[i as int].0 == all_colors()[m]);
                }
                if exists|j: int| 0 <= j < i + 1 && (#[trigger] gs[j]).0 == all_colors()[m] {
                    let j = choose|j: int| 0 <= j < i + 1 && (#[trigger] gs[j]).0 == all_colors()[m];
                    if j < i {
                    } else {
                        assert(all_colors()[m] == all_colors()[k as int]);
                    }
                }
            }
        }
        i = i + 1;
    }
    proof {
        assert forall|k: int| 0 <= k < 5 implies (seen@[k] <==> color_present(gs, all_colors()[k])) by {
            if color_present(gs, all_colors()[k]) {
                let j = choose|j: int| 0 <= j < gs.len() && (#[trigger] gs[j]).0 == all_colors()[k];
            }
        }
    }
    let mut n: u32 = 0;
    if seen[0] {
        n = n + 1;
    }
    if seen[1] {
        n = n + 1;
    }
    if seen[2] {
        n = n + 1;
    }
    if seen[3] {
        n = n + 1;
    }
    if seen[4] {
        n = n + 1;
    }
    if n <= 1 {
        0
    } else if n == 2 {
        3
    } else if n == 3 {
        6
    } else if n == 4 {
        12
    } else {
        24
    }
}

/// Bonus for one group of `n` puyos: none up to four, 2 to 7 for five to
/// ten, 10 from eleven on.
pub open spec fn size_bonus(n: int) -> int {
    if n <= 4 {
        0
    } else if n <= 10 {
        n - 3
    } else {
        10
    }
}

/// Sum of the size bonuses of the groups.
pub open spec fn group_bonus_of(groups: Seq<Group>) -> int
    decreases groups.len(),
{
    if groups.len() == 0 {
        0
    } else {
        group_bonus_of(groups.drop_last()) + size_bonus(groups.last().1.len() as int)
    }
}

/// Sum of the bonuses for the sizes of the popped groups.
pub fn group_bonus(groups: &Vec<ChainGroup>) -> (r: u32)
    requires
        groups@.len() <= 1000,
    ensures
        r == group_bonus_of(groups_view(groups@)),
        r <= 10 * groups@.len(),
{
    let ghost gs = groups_view(groups@);
    let mut sum: u32 = 0;
    let mut i: usize = 0;
    while i < groups.len()
        invariant
            gs == groups_view(groups@),
            groups@.len() <= 1000,
            i <= groups@.len(),
            sum == group_bonus_of(gs.take(i as int)),
            sum <= 10 * i,
        decreases groups@.len() - i,
    {
        let n = groups[i].cells.len();
        let b: u32 = if n < 5 {
            0
        } else if n < 11 {
            (n - 3) as u32
        } else {
            10
        };
        proof {
            assert(gs.take(i + 1).drop_last() =~= gs.take(i as int));
            assert(gs[i as int].1.len() == n);
        }
        sum = sum + b;
        i = i + 1;
    }
    assert(gs.take(groups@.len() as int) =~= gs);
    sum
}

/// Number of popped puyos.
pub fn cleared_count(groups: &Vec<ChainGroup>) -> (r: u32)
    requires
        group_total(groups_view(groups@)) <= 1000,
    ensures
        r == group_total(groups_view(groups@)),
{
    let ghost gs = groups_view(groups@);
    let mut sum: u32 = 0;
    let mut i: usize = 0;
    while i < groups.len()
        invariant
            gs == groups_view(groups@),
            group_total(gs) <= 1000,
            i <= groups@.len(),
            sum == group_total(gs.take(i as int)),
        decreases groups@.len() - i,
    {
        proof {
            assert(gs.take(i + 1).drop_last() =~= gs.take(i as int));
            lemma_group_total_prefix(gs, i + 1);
        }
        sum = sum + groups[i].cells.len() as u32;
        i = i + 1;
    }
    assert(gs.take(groups@.len() as int) =~= gs);
    sum
}

/// The total of a prefix is at most the total.
proof fn lemma_group_total_prefix(gs: Seq<Group>, n: int)
    requires
        0 <= n <= gs.len(),
    ensures
        group_total(gs.take(n)) <= group_total(gs),
    decreases gs.len() - n,
{
    if n < gs.len() {
        lemma_group_total_prefix(gs, n + 1);
        assert(gs.take(n + 1).drop_last() =~= gs.take(n));
    } else {
        assert(gs.take(n) =~= gs);
    }
}

/// The score multiplier: chain power plus colour bonus plus group bonus,
/// at least 1.
pub open spec fn multiplier_of(chain: int, groups: Seq<Group>) -> int {
    let m = chain_power_of(chain) + color_bonus_of(groups) + group_bonus_of(groups);
    if m < 1 {
        1
    } else {
        m
    }
}

/// Points for one chain step: ten per popped puyo times the multiplier.
pub open spec fn score_gain_of(chain: int, groups: Seq<Group>) -> int {
    group_total(groups) * 10 * multiplier_of(chain, groups)
}

/// Points for one chain step at chain count `chain` (counted from one), for
/// any step count.
pub(crate) fn score_gain_wide(chain: u32, groups: &Vec<ChainGroup>) -> (r: u64)
    requires
        group_total(groups_view(groups@)) <= 72,
        groups@.len() <= 1000,
    ensures
        r == score_gain_of(chain as int, groups_view(groups@)),
{
    let cleared = cleared_count(groups) as u64;
    let cp = chain_power_wide(chain);
    let cb = color_bonus(groups) as u64;
    let gb = group_bonus(groups) as u64;
    assert(cp <= 512 + 32 * 0x1_0000_0000);
    let sum = cp + cb + gb;
    let multiplier = if sum < 1 {
        1
    } else {
        sum
    };
    assert(multiplier <= 512 + 32 * 0x1_0000_0000 + 24 + 10000);
    assert(cleared * 10 <= 720);
    assert((cleared * 10) * multiplier <= 720 * (512 + 32 * 0x1_0000_0000 + 24 + 10000)) by (nonlinear_arith)
        requires
            cleared * 10 <= 720,
            multiplier <= 512 + 32 * 0x1_0000_0000 + 24 + 10000,
    ;
    cleared * 10 * multiplier
}

/// Points for one chain step at chain count `chain` (counted from one), for
/// the steps whose multiplier and points fit in 32 bits.
pub fn score_gain(chain: u32, groups: &Vec<ChainGroup>) -> (r: u32)
    requires
        group_total(groups_view(groups@)) <= 72,
        groups@.len() <= 1000,
        chain_power_of(chain as int) + color_bonus_of(groups_view(groups@)) + group_bonus_of(
            groups_view(groups@),
        ) <= u32::MAX,
        score_gain_of(chain as int, groups_view(groups@)) <= u32::MAX,
    ensures
        r == score_gain_of(chain as int, groups_view(groups@)),
{
    score_gain_wide(chain, groups) as u32
}

/// Each group adds at most ten to the group bonus.
proof fn lemma_group_bonus_at_most(groups: Seq<Group>)
    ensures
        0 <= group_bonus_of(groups) <= 10 * groups.len(),
    decreases groups.len(),
{
    if groups.len() > 0 {
        lemma_group_bonus_at_most(groups.drop_last());
    }
}

/// One chain step scores at most 720 times its chain power plus 204: at
/// most 72 puyos pop, in at most 18 groups, so the colour bonus is at most
/// 24 and the group bonus at most 180. Up to chain step 19, where the chain
/// power is at most 512, that is at most 515,520 points.
pub proof fn lemma_gain_at_most(chain: int, groups: Seq<Group>)
    requires
        chain >= 0,
        group_total(groups) <= 72,
        groups.len() * 4 <= group_total(groups),
    ensures
        0 <= score_gain_of(chain, groups) <= 720 * (chain_power_of(chain) + 204),
        chain <= 19 ==> score_gain_of(chain, groups) <= 515_520,
{
    lemma_group_bonus_at_most(groups);
    let t = group_total(groups);
    let m = multiplier_of(chain, groups);
    let cp = chain_power_of(chain);
    assert(0 <= cp);
    assert(chain <= 19 ==> cp <= 512);
    assert(1 <= m <= cp + 204);
    assert(t * 10 * m <= 720 * (cp + 204)) by (nonlinear_arith)
        requires
            0 <= t <= 72,
            1 <= m <= cp + 204,
    ;
    assert(0 <= t * 10 * m) by (nonlinear_arith)
        requires
            0 <= t,
            1 <= m,
    ;
}

} // verus!
