//! Fixed-point ratios, square roots and the relative distance between fitness
//! vectors.

use vstd::prelude::*;

verus! {

/// A real number in parts per million: `RATIO_ONE` stands for one.
pub type Ratio = u64;

/// The ratio that stands for one.
pub const RATIO_ONE: u64 = 1_000_000;

/// Whether `root` is the square root of `value`, rounded down.
pub open spec fn is_floor_sqrt(root: int, value: int) -> bool {
    0 <= root && root * root <= value < (root + 1) * (root + 1)
}

/// The square root of `value`, rounded down.
pub open spec fn floor_sqrt(value: int) -> int {
    choose|root: int| is_floor_sqrt(root, value)
}

/// There is one square root rounded down, at most.
pub proof fn lemma_floor_sqrt_unique(first: int, second: int, value: int)
    requires
        is_floor_sqrt(first, value),
        is_floor_sqrt(second, value),
    ensures
        first == second,
{
    if first < second {
        assert((first + 1) * (first + 1) <= second * second) by (nonlinear_arith)
            requires
                0 <= first,
                first + 1 <= second,
        ;
    } else if second < first {
        assert((second + 1) * (second + 1) <= first * first) by (nonlinear_arith)
            requires
                0 <= second,
                second + 1 <= first,
        ;
    }
}

/// The square root of `value`, rounded down.
pub fn isqrt(value: u128) -> (r: u64)
    ensures
        is_floor_sqrt(r as int, value as int),
        r == floor_sqrt(value as int),
{
    // bisection: low * low <= value < high * high
    let mut low: u128 = 0;
    let mut high: u128 = 0x1_0000_0000_0000_0000;
    assert(value < high * high) by (nonlinear_arith)
        requires
            value <= 0xffff_ffff_ffff_ffff_ffff_ffff_ffff_ffff,
            high == 0x1_0000_0000_0000_0000,
    ;
    while high - low > 1
        invariant
            low < high <= 0x1_0000_0000_0000_0000,
            low * low <= value,
            value < high * high,
        decreases high - low,
    {
        let middle: u128 = low + (high - low) / 2;
        assert(middle * middle < 0x1_0000_0000_0000_0000 * 0x1_0000_0000_0000_0000)
            by (nonlinear_arith)
            requires
                0 <= middle < 0x1_0000_0000_0000_0000,
        ;
        if middle * middle <= value {
            low = middle;
        } else {
            high = middle;
        }
    }
    proof {
        assert(is_floor_sqrt(low as int, value as int));
        let other = floor_sqrt(value as int);
        lemma_floor_sqrt_unique(low as int, other, value as int);
    }
    low as u64
}

/// The absolute value of a fitness component.
pub open spec fn magnitude(value: int) -> int {
    if value < 0 {
        -value
    } else {
        value
    }
}

/// The relative difference of two fitness components in parts per million:
/// their difference over the greater of their magnitudes, rounded down; zero
/// where both are zero.
pub open spec fn relative_difference(a: int, b: int) -> int {
    let scale = if magnitude(a) >= magnitude(b) {
        magnitude(a)
    } else {
        magnitude(b)
    };
    if scale == 0 {
        0
    } else {
        (magnitude(a - b) * RATIO_ONE as int) / scale
    }
}

/// The sum of the squared relative differences of the first `count`
/// components of two fitness vectors.
pub open spec fn squared_differences(a: Seq<i64>, b: Seq<i64>, count: int) -> int
    decreases count,
{
    if count <= 0 {
        0
    } else {
        squared_differences(a, b, count - 1) + relative_difference(
            a[count - 1] as int,
            b[count - 1] as int,
        ) * relative_difference(a[count - 1] as int, b[count - 1] as int)
    }
}

/// The number of components that two fitness vectors share.
pub open spec fn shared_len(a: Seq<i64>, b: Seq<i64>) -> int {
    if a.len() <= b.len() {
        a.len() as int
    } else {
        b.len() as int
    }
}

/// The relative distance of two fitness vectors in parts per million: the
/// square root, rounded down, of the sum of the squared relative differences
/// of the components that both have.
pub open spec fn relative_distance_of(a: Seq<i64>, b: Seq<i64>) -> int {
    floor_sqrt(squared_differences(a, b, shared_len(a, b)))
}

fn get_magnitude(value: i64) -> (r: u128)
    ensures
        r == magnitude(value as int),
{
    if value < 0 {
        (-(value as i128)) as u128
    } else {
        value as u128
    }
}

fn get_relative_difference(a: i64, b: i64) -> (r: u128)
    ensures
        r == relative_difference(a as int, b as int),
        r <= 2 * RATIO_ONE,
{
    let first = get_magnitude(a);
    let second = get_magnitude(b);
    let scale: u128 = if first >= second {
        first
    } else {
        second
    };
    if scale == 0 {
        0
    } else {
        let wide: i128 = a as i128 - b as i128;
        let difference: u128 = if wide < 0 {
            (-wide) as u128
        } else {
            wide as u128
        };
        assert(difference == magnitude(a as int - b as int));
        assert(difference <= 2 * scale);
        assert(difference * 1_000_000 <= 2 * scale * 1_000_000) by (nonlinear_arith)
            requires
                difference <= 2 * scale,
        ;
        let scaled: u128 = difference * 1_000_000;
        assert(scaled / scale <= 2_000_000) by {
            vstd::arithmetic::div_mod::lemma_div_is_ordered(
                scaled as int,
                2_000_000 * scale as int,
                scale as int,
            );
            vstd::arithmetic::div_mod::lemma_div_multiples_vanish(2_000_000, scale as int);
        }
        scaled / scale
    }
}

proof fn lemma_squared_differences_bound(a: Seq<i64>, b: Seq<i64>, count: int)
    requires
        0 <= count,
    ensures
        0 <= squared_differences(a, b, count) <= count * 4_000_000_000_000,
    decreases count,
{
    if count > 0 {
        lemma_squared_differences_bound(a, b, count - 1);
        let d = relative_difference(a[count - 1] as int, b[count - 1] as int);
        lemma_relative_difference_bound(a[count - 1] as int, b[count - 1] as int);
        assert(0 <= d * d <= 4_000_000_000_000) by (nonlinear_arith)
            requires
                0 <= d <= 2_000_000,
        ;
        assert((count - 1) * 4_000_000_000_000 + 4_000_000_000_000 == count * 4_000_000_000_000)
            by (nonlinear_arith);
    }
}

proof fn lemma_relative_difference_bound(a: int, b: int)
    ensures
        0 <= relative_difference(a, b) <= 2_000_000,
{
    let scale = if magnitude(a) >= magnitude(b) {
        magnitude(a)
    } else {
        magnitude(b)
    };
    if scale != 0 {
        let difference = magnitude(a - b);
        assert(difference * 1_000_000 <= 2_000_000 * scale) by (nonlinear_arith)
            requires
                0 <= difference <= 2 * scale,
        ;
        vstd::arithmetic::div_mod::lemma_div_is_ordered(
            difference * 1_000_000,
            2_000_000 * scale,
            scale,
        );
        vstd::arithmetic::div_mod::lemma_div_multiples_vanish(2_000_000, scale);
        assert(0 <= difference * 1_000_000) by (nonlinear_arith)
            requires
                0 <= difference,
        ;
        vstd::arithmetic::div_mod::lemma_div_pos_is_pos(difference * 1_000_000, scale);
    }
}

/// For fitness vectors of one component the relative distance is the
/// relative difference of the two components.
pub proof fn lemma_distance_of_one_component(a: i64, b: i64)
    ensures
        relative_distance_of(seq![a], seq![b]) == relative_difference(a as int, b as int),
{
    let difference = relative_difference(a as int, b as int);
    lemma_relative_difference_bound(a as int, b as int);
    reveal_with_fuel(squared_differences, 2);
    assert(squared_differences(seq![a], seq![b], 1) == difference * difference);
    assert(is_floor_sqrt(difference, difference * difference)) by (nonlinear_arith)
        requires
            0 <= difference,
    ;
    lemma_floor_sqrt_unique(
        floor_sqrt(difference * difference),
        difference,
        difference * difference,
    );
}

/// The relative distance of two fitness vectors in parts per million, over
/// the components that both have. Two equal vectors, and two vectors without
/// a common component, are at distance zero.
pub fn relative_distance(a: &Vec<i64>, b: &Vec<i64>) -> (r: u64)
    ensures
        r == relative_distance_of(a@, b@),
{
    let count: usize = if a.len() <= b.len() {
        a.len()
    } else {
        b.len()
    };
    let mut sum: u128 = 0;
    let mut i: usize = 0;
    while i < count
        invariant
            i <= count,
            count == shared_len(a@, b@),
            sum == squared_differences(a@, b@, i as int),
        decreases count - i,
    {
        let difference = get_relative_difference(a[i], b[i]);
        proof {
            lemma_squared_differences_bound(a@, b@, i as int);
            assert(difference * difference <= 4_000_000_000_000) by (nonlinear_arith)
                requires
                    0 <= difference <= 2_000_000,
            ;
            assert(i * 4_000_000_000_000 <= 0xffff_ffff_ffff_ffff * 4_000_000_000_000)
                by (nonlinear_arith)
                requires
                    0 <= i <= 0xffff_ffff_ffff_ffff,
            ;
        }
        sum = sum + difference * difference;
        i = i + 1;
    }
    isqrt(sum)
}

/// The product of a count and a ratio, rounded to the nearest whole, half up;
/// at most `u64::MAX`.
pub open spec fn scaled_round(count: int, ratio: int) -> int {
    let exact = (count * ratio + 500_000) / 1_000_000;
    if exact > u64::MAX as int {
        u64::MAX as int
    } else {
        exact
    }
}

/// The product of a count and a ratio, rounded to the nearest whole, half up.
pub fn scale_round(count: u64, ratio: Ratio) -> (r: u64)
    ensures
        r == scaled_round(count as int, ratio as int),
{
    assert(count * ratio <= 0xffff_ffff_ffff_ffff * 0xffff_ffff_ffff_ffff) by (nonlinear_arith)
        requires
            0 <= count <= 0xffff_ffff_ffff_ffff,
            0 <= ratio <= 0xffff_ffff_ffff_ffff,
    ;
    let exact: u128 = (count as u128 * ratio as u128 + 500_000) / 1_000_000;
    if exact > u64::MAX as u128 {
        u64::MAX
    } else {
        exact as u64
    }
}

} // verus!
