//! Weight vectors of the nodes of a map: distance, and the pull of an input.

use vstd::prelude::*;
use crate::algorithms::math::{Ratio, RATIO_ONE};
use crate::models::common::clamp_i32;

verus! {

/// Component `i` of the weights of an input, zero where it has none.
pub open spec fn weight_at(weights: Seq<i32>, i: int) -> int {
    if 0 <= i < weights.len() {
        weights[i] as int
    } else {
        0
    }
}

/// The sum of the squared differences of the first `count` components of the
/// weights of a node and of an input.
pub open spec fn squared_distance(node: Seq<i32>, input: Seq<i32>, count: int) -> int
    decreases count,
{
    if count <= 0 {
        0
    } else {
        squared_distance(node, input, count - 1) + (node[count - 1] - weight_at(input, count - 1))
            * (node[count - 1] - weight_at(input, count - 1))
    }
}

/// The squared Euclidean distance of the weights of a node to those of an
/// input.
pub open spec fn distance_of(node: Seq<i32>, input: Seq<i32>) -> int {
    squared_distance(node, input, node.len() as int)
}

/// A ratio that is at most one.
pub open spec fn capped(rate: Ratio) -> int {
    if rate > RATIO_ONE {
        RATIO_ONE as int
    } else {
        rate as int
    }
}

/// The share `rate` of a difference, rounded towards zero.
pub open spec fn share(difference: int, rate: int) -> int {
    if difference >= 0 {
        (difference * rate) / 1_000_000
    } else {
        -((-difference * rate) / 1_000_000)
    }
}

/// A weight pulled towards the weight of an input by the share `rate` of
/// their difference.
pub open spec fn pulled(weight: int, input: int, rate: Ratio) -> int {
    weight + share(input - weight, capped(rate))
}

/// The weights of a node pulled towards those of an input.
pub open spec fn adjusted(node: Seq<i32>, input: Seq<i32>, rate: Ratio) -> Seq<i32> {
    Seq::new(node.len(), |i: int| pulled(node[i] as int, weight_at(input, i), rate) as i32)
}

/// The rate at which the neighbours of the best matching node learn: the
/// learning rate times the distribution factor.
pub open spec fn neighbour_rate(learning_rate: Ratio, distribution_factor: Ratio) -> Ratio {
    ((capped(learning_rate) * capped(distribution_factor)) / 1_000_000) as Ratio
}

/// The weights of an input as those of a node of `dimension` components.
pub open spec fn padded(input: Seq<i32>, dimension: int) -> Seq<i32> {
    Seq::new(dimension as nat, |i: int| weight_at(input, i) as i32)
}

/// A share of a difference lies between zero and the difference.
pub proof fn lemma_share_bound(difference: int, rate: int)
    requires
        0 <= rate <= 1_000_000,
    ensures
        difference >= 0 ==> 0 <= share(difference, rate) <= difference,
        difference <= 0 ==> difference <= share(difference, rate) <= 0,
        rate == 0 ==> share(difference, rate) == 0,
{
    let size = if difference >= 0 {
        difference
    } else {
        -difference
    };
    assert(0 <= size * rate <= size * 1_000_000) by (nonlinear_arith)
        requires
            0 <= size,
            0 <= rate <= 1_000_000,
    ;
    vstd::arithmetic::div_mod::lemma_div_is_ordered(size * rate, size * 1_000_000, 1_000_000);
    vstd::arithmetic::div_mod::lemma_div_multiples_vanish(size, 1_000_000);
    vstd::arithmetic::div_mod::lemma_div_pos_is_pos(size * rate, 1_000_000);
    assert(size * 1_000_000 == 1_000_000 * size) by (nonlinear_arith);
    if rate == 0 {
        assert(size * rate == 0) by (nonlinear_arith)
            requires
                rate == 0,
        ;
    }
}

fn get_weight(weights: &Vec<i32>, i: usize) -> (r: i32)
    ensures
        r == weight_at(weights@, i as int),
{
    if i < weights.len() {
        weights[i]
    } else {
        0
    }
}

proof fn lemma_squared_distance_bound(node: Seq<i32>, input: Seq<i32>, count: int)
    requires
        0 <= count <= node.len(),
    ensures
        0 <= squared_distance(node, input, count) <= count * 0x1_0000_0000_0000_0000,
    decreases count,
{
    if count > 0 {
        lemma_squared_distance_bound(node, input, count - 1);
        let difference = node[count - 1] - weight_at(input, count - 1);
        assert(0 <= difference * difference <= 0x1_0000_0000_0000_0000) by (nonlinear_arith)
            requires
                -0x1_0000_0000 <= difference <= 0x1_0000_0000,
        ;
        assert((count - 1) * 0x1_0000_0000_0000_0000 + 0x1_0000_0000_0000_0000 == count
            * 0x1_0000_0000_0000_0000) by (nonlinear_arith);
    }
}

/// The squared Euclidean distance of the weights of a node to those of an
/// input.
pub fn get_distance(node: &Vec<i32>, input: &Vec<i32>) -> (r: u128)
    ensures
        r == distance_of(node@, input@),
{
    let mut sum: u128 = 0;
    let mut i: usize = 0;
    while i < node.len()
        invariant
            i <= node@.len(),
            sum == squared_distance(node@, input@, i as int),
        decreases node@.len() - i,
    {
        let difference: i64 = node[i] as i64 - get_weight(input, i) as i64;
        proof {
            lemma_squared_distance_bound(node@, input@, i as int);
            assert(0 <= difference * difference <= 0x1_0000_0000_0000_0000) by (nonlinear_arith)
                requires
                    -0x1_0000_0000 <= difference <= 0x1_0000_0000,
            ;
            assert(i * 0x1_0000_0000_0000_0000 <= 0xffff_ffff_ffff_ffff * 0x1_0000_0000_0000_0000)
                by (nonlinear_arith)
                requires
                    0 <= i <= 0xffff_ffff_ffff_ffff,
            ;
        }
        let wide: i128 = difference as i128 * difference as i128;
        sum = sum + wide as u128;
        i = i + 1;
    }
    sum
}

fn cap(rate: Ratio) -> (r: u64)
    ensures
        r == capped(rate),
{
    if rate > RATIO_ONE {
        RATIO_ONE
    } else {
        rate
    }
}

/// The rate at which the neighbours of the best matching node learn.
pub fn get_neighbour_rate(learning_rate: Ratio, distribution_factor: Ratio) -> (r: Ratio)
    ensures
        r == neighbour_rate(learning_rate, distribution_factor),
        r <= RATIO_ONE,
{
    let first = cap(learning_rate);
    let second = cap(distribution_factor);
    assert(first * second <= 1_000_000 * 1_000_000) by (nonlinear_arith)
        requires
            0 <= first <= 1_000_000,
            0 <= second <= 1_000_000,
    ;
    assert((first * second) / 1_000_000 <= 1_000_000) by {
        vstd::arithmetic::div_mod::lemma_div_is_ordered(
            first * second,
            1_000_000int * 1_000_000int,
            1_000_000,
        );
    }
    (first * second) / 1_000_000
}

fn pull(weight: i32, input: i32, rate: Ratio) -> (r: i32)
    ensures
        r == pulled(weight as int, input as int, rate),
{
    let capped_rate: i64 = cap(rate) as i64;
    let difference: i64 = input as i64 - weight as i64;
    proof {
        lemma_share_bound(difference as int, capped_rate as int);
    }
    let size: i64 = if difference >= 0 {
        difference
    } else {
        -difference
    };
    assert(0 <= size * capped_rate <= 0x1_0000_0000 * 1_000_000) by (nonlinear_arith)
        requires
            0 <= size <= 0x1_0000_0000,
            0 <= capped_rate <= 1_000_000,
    ;
    let part: i64 = (size * capped_rate) / 1_000_000;
    let moved: i64 = if difference >= 0 {
        weight as i64 + part
    } else {
        weight as i64 - part
    };
    moved as i32
}

/// The weights of a node pulled towards those of an input.
pub fn adjust(node: &Vec<i32>, input: &Vec<i32>, rate: Ratio) -> (r: Vec<i32>)
    ensures
        r@ == adjusted(node@, input@, rate),
{
    let mut out: Vec<i32> = Vec::new();
    let mut i: usize = 0;
    while i < node.len()
        invariant
            i <= node@.len(),
            out@.len() == i,
            forall|k: int| 0 <= k < i ==> out@[k] == adjusted(node@, input@, rate)[k],
        decreases node@.len() - i,
    {
        out.push(pull(node[i], get_weight(input, i), rate));
        i = i + 1;
    }
    assert(out@ =~= adjusted(node@, input@, rate));
    out
}

/// The weights of an input as those of a node of `dimension` components.
pub fn pad(input: &Vec<i32>, dimension: usize) -> (r: Vec<i32>)
    ensures
        r@ == padded(input@, dimension as int),
{
    let mut out: Vec<i32> = Vec::new();
    let mut i: usize = 0;
    while i < dimension
        invariant
            i <= dimension,
            out@.len() == i,
            forall|k: int| 0 <= k < i ==> out@[k] == weight_at(input@, k) as i32,
        decreases dimension - i,
    {
        out.push(get_weight(input, i));
        i = i + 1;
    }
    assert(out@ =~= padded(input@, dimension as int));
    out
}

/// The weights of a new node beside a node with the weights `base`: those of
/// the node mirrored at it where the node has a neighbour at the other side,
/// with the weights `opposite`; else half way between the node and the node
/// beyond the new one, with the weights `beyond`, where there is one; else
/// those of the node, each moved by one.
pub open spec fn grown(base: Seq<i32>, opposite: Option<Seq<i32>>, beyond: Option<Seq<i32>>) -> Seq<
    i32,
> {
    Seq::new(
        base.len(),
        |i: int|
            match opposite {
                Some(other) => clamp_i32(2 * base[i] - weight_at(other, i)) as i32,
                None => match beyond {
                    Some(other) => half(base[i] + weight_at(other, i)) as i32,
                    None => clamp_i32(base[i] + 1) as i32,
                },
            },
    )
}

/// Half of a sum, rounded towards zero.
pub open spec fn half(sum: int) -> int {
    if sum >= 0 {
        sum / 2
    } else {
        -((-sum) / 2)
    }
}

fn clamp(value: i64) -> (r: i32)
    ensures
        r == clamp_i32(value as int),
{
    if value < i32::MIN as i64 {
        i32::MIN
    } else if value > i32::MAX as i64 {
        i32::MAX
    } else {
        value as i32
    }
}

/// The weights of a new node beside a node with the weights `base`.
pub fn grow(base: &Vec<i32>, opposite: Option<&Vec<i32>>, beyond: Option<&Vec<i32>>) -> (r: Vec<
    i32,
>)
    ensures
        r@ == grown(
            base@,
            match opposite {
                Some(other) => Some(other@),
                None => None,
            },
            match beyond {
                Some(other) => Some(other@),
                None => None,
            },
        ),
{
    let ghost expected = grown(
        base@,
        match opposite {
            Some(other) => Some(other@),
            None => None,
        },
        match beyond {
            Some(other) => Some(other@),
            None => None,
        },
    );
    let mut out: Vec<i32> = Vec::new();
    let mut i: usize = 0;
    while i < base.len()
        invariant
            i <= base@.len(),
            out@.len() == i,
            expected.len() == base@.len(),
            expected == grown(
                base@,
                match opposite {
                    Some(other) => Some(other@),
                    None => None,
                },
                match beyond {
                    Some(other) => Some(other@),
                    None => None,
                },
            ),
            forall|k: int| 0 <= k < i ==> out@[k] == expected[k],
        decreases base@.len() - i,
    {
        let own: i64 = base[i] as i64;
        let value: i32 = match opposite {
            Some(other) => clamp(2 * own - get_weight(other, i) as i64),
            None => match beyond {
                Some(other) => {
                    let sum: i64 = own + get_weight(other, i) as i64;
                    if sum >= 0 {
                        (sum / 2) as i32
                    } else {
                        (-((-sum) / 2)) as i32
                    }
                },
                None => clamp(own + 1),
            },
        };
        out.push(value);
        i = i + 1;
    }
    assert(out@ =~= expected);
    out
}

} // verus!
