//! Order statistics of integer samples.
use vstd::prelude::*;
use vstd::relations::{sorted_by, total_ordering};

verus! {

/// The ascending order on `usize`.
pub open spec fn usize_leq() -> spec_fn(usize, usize) -> bool {
    |a: usize, b: usize| a <= b
}

/// `s` in ascending order.
pub open spec fn ascending(s: Seq<usize>) -> Seq<usize> {
    s.sort_by(usize_leq())
}

/// `2^n`.
pub open spec fn two_pow(n: nat) -> nat
    decreases n,
{
    if n == 0 {
        1
    } else {
        2 * two_pow((n - 1) as nat)
    }
}

/// The number of binary digits of `x` (zero for zero).
pub open spec fn bit_len(x: nat) -> nat
    decreases x,
{
    if x == 0 {
        0
    } else {
        1 + bit_len(x / 2)
    }
}

/// `x` rounded to 53 significant binary digits, ties to even: the value an
/// IEEE 754 double holds for `x` (read as `x` over any fixed power of two,
/// away from the subnormal range).
pub open spec fn round_to_double(x: nat) -> nat {
    if bit_len(x) <= 53 {
        x
    } else {
        let p = two_pow((bit_len(x) - 53) as nat);
        let q = x / p;
        let r = x % p;
        if r > p / 2 || (r == p / 2 && q % 2 == 1) {
            (q + 1) * p
        } else {
            q * p
        }
    }
}

/// The percentiles the summaries report.
pub open spec fn is_quantile(percent: int) -> bool {
    percent == 5 || percent == 10 || percent == 20 || percent == 30 || percent == 40 || percent
        == 50 || percent == 60 || percent == 70 || percent == 80 || percent == 90 || percent == 95
}

/// The `f64` nearest to `percent / 100` (the literals `0.05`, `0.10`, ...,
/// `0.95`), times `2^60`: an exact integer for each of these percentiles.
pub open spec fn quantile_fraction(percent: int) -> nat {
    if percent == 5 {
        57646075230342352
    } else if percent == 10 {
        115292150460684704
    } else if percent == 20 {
        230584300921369408
    } else if percent == 30 {
        345876451382054080
    } else if percent == 40 {
        461168601842738816
    } else if percent == 50 {
        576460752303423488
    } else if percent == 60 {
        691752902764108160
    } else if percent == 70 {
        807045053224792832
    } else if percent == 80 {
        922337203685477632
    } else if percent == 90 {
        1037629354146162304
    } else {
        1095275429376504576
    }
}

/// The index of the `percent`-th percentile among `len` sorted values, as
/// `((len - 1) as f64 * q).round()` computes it with `q` the `f64` of
/// `percent / 100`: `len - 1` rounded to a double, times `q`, the product
/// rounded to a double, then rounded to the nearest integer, halves upwards.
/// (At `len = 46` the 70th percentile is index 31, not the exact 31.5 rounded up.)
pub open spec fn percentile_rank(len: int, percent: int) -> int {
    let a = round_to_double((len - 1) as nat);
    let b = round_to_double(a * quantile_fraction(percent));
    ((b + 0x800000000000000) / 0x1000000000000000) as int
}

/// The `percent`-th percentile of `s`: the value at `percentile_rank` in `s` sorted.
pub open spec fn spec_percentile(s: Seq<usize>, percent: int) -> usize {
    ascending(s)[percentile_rank(s.len() as int, percent)]
}

/// Powers of two grow with the exponent.
proof fn lemma_two_pow_mono(i: nat, j: nat)
    requires
        i <= j,
    ensures
        two_pow(i) <= two_pow(j),
    decreases j,
{
    if i < j {
        lemma_two_pow_mono(i, (j - 1) as nat);
    }
}

/// `2^(i + j) = 2^i * 2^j`.
proof fn lemma_two_pow_add(i: nat, j: nat)
    ensures
        two_pow(i + j) == two_pow(i) * two_pow(j),
    decreases i,
{
    if i > 0 {
        let k = (i - 1) as nat;
        lemma_two_pow_add(k, j);
        assert(two_pow(i) == 2 * two_pow(k));
        assert(two_pow(k + j + 1) == 2 * two_pow(k + j));
        assert(i + j == k + j + 1);
        let a = two_pow(k);
        let b = two_pow(j);
        assert(2 * (a * b) == (2 * a) * b) by (nonlinear_arith);
    } else {
        assert(two_pow(0) == 1);
        assert(i + j == j);
    }
}

/// A positive `x` lies between `2^(bit_len(x) - 1)` and `2^bit_len(x)`, and
/// has at most `x` digits.
proof fn lemma_bit_len_bounds(x: nat)
    requires
        x > 0,
    ensures
        two_pow((bit_len(x) - 1) as nat) <= x < two_pow(bit_len(x)),
        1 <= bit_len(x) <= x,
    decreases x,
{
    if x > 1 {
        let y = x / 2;
        lemma_bit_len_bounds(y);
        assert(bit_len(x) == 1 + bit_len(y));
        assert(two_pow(bit_len(x)) == 2 * two_pow(bit_len(y)));
        assert(two_pow((bit_len(x) - 1) as nat) == two_pow(bit_len(y)));
        if bit_len(y) >= 1 {
            assert(two_pow(bit_len(y)) == 2 * two_pow((bit_len(y) - 1) as nat));
        }
    } else {
        assert(bit_len(0) == 0);
        assert(bit_len(1) == 1 + bit_len(0));
    }
}

/// Rounding to a double changes a value by at most one part in `2^52`.
proof fn lemma_round_upper(x: nat)
    ensures
        4503599627370496 * round_to_double(x) <= 4503599627370497 * x,
{
    if bit_len(x) > 53 {
        lemma_bit_len_bounds(x);
        let d = (bit_len(x) - 53) as nat;
        let p = two_pow(d);
        lemma_two_pow_add(d, 52);
        assert(two_pow(52) == 4503599627370496) by {
            reveal_with_fuel(two_pow, 53);
        }
        assert((bit_len(x) - 1) as nat == d + 52);
        assert(p * 4503599627370496 <= x);
        let q = x / p;
        let r = x % p;
        assert(p > 0) by {
            lemma_two_pow_mono(0, d);
        }
        assert(q * p + r == x && 0 <= r) by (nonlinear_arith)
            requires
                p > 0,
                q == x / p,
                r == x % p,
        ;
        assert((q + 1) * p == q * p + p) by (nonlinear_arith);
        assert(q * p <= q * p + p);
        assert(round_to_double(x) <= q * p + p);
        assert(4503599627370496 * round_to_double(x) <= 4503599627370497 * x) by (nonlinear_arith)
            requires
                round_to_double(x) <= q * p + p,
                q * p <= x,
                p * 4503599627370496 <= x,
        ;
    }
}

/// The number of binary digits of `x`.
fn bit_length(x: u128) -> (r: u128)
    ensures
        r == bit_len(x as nat),
{
    let mut y = x;
    let mut n: u128 = 0;
    proof {
        if x > 0 {
            lemma_bit_len_bounds(x as nat);
        }
    }
    while y > 0
        invariant
            n + bit_len(y as nat) == bit_len(x as nat),
            bit_len(x as nat) <= x,
        decreases y,
    {
        assert(bit_len(y as nat) == 1 + bit_len((y / 2) as nat));
        y = y / 2;
        n = n + 1;
    }
    n
}

/// `2^d`, which is at most `x`.
fn power_of_two(d: u128, x: u128) -> (r: u128)
    requires
        two_pow(d as nat) <= x,
    ensures
        r == two_pow(d as nat),
{
    let mut p: u128 = 1;
    let mut i: u128 = 0;
    while i < d
        invariant
            i <= d,
            p == two_pow(i as nat),
            two_pow(d as nat) <= x,
        decreases d - i,
    {
        proof {
            lemma_two_pow_mono((i + 1) as nat, d as nat);
        }
        p = p * 2;
        i = i + 1;
    }
    p
}

/// `x` rounded to 53 significant binary digits, ties to even.
fn round_double(x: u128) -> (r: u128)
    requires
        x <= 0x40000000000000000000000000000000,
    ensures
        r == round_to_double(x as nat),
{
    let bits = bit_length(x);
    if bits <= 53 {
        return x;
    }
    proof {
        lemma_bit_len_bounds(x as nat);
        lemma_two_pow_mono((bits - 53) as nat, (bits - 1) as nat);
        lemma_two_pow_mono(0, (bits - 53) as nat);
    }
    let p = power_of_two(bits - 53, x);
    let q = x / p;
    let r = x % p;
    proof {
        assert(q * p + r == x && r < p) by (nonlinear_arith)
            requires
                p > 0,
                q == x / p,
                r == x % p,
        ;
        assert((q + 1) * p == q * p + p) by (nonlinear_arith);
    }
    if r > p / 2 || (r == p / 2 && q % 2 == 1) {
        (q + 1) * p
    } else {
        q * p
    }
}

/// `quantile_fraction(percent)` for a reported percentile.
fn quantile_value(percent: usize) -> (r: u128)
    requires
        is_quantile(percent as int),
    ensures
        r == quantile_fraction(percent as int),
{
    if percent == 5 {
        57646075230342352
    } else if percent == 10 {
        115292150460684704
    } else if percent == 20 {
        230584300921369408
    } else if percent == 30 {
        345876451382054080
    } else if percent == 40 {
        461168601842738816
    } else if percent == 50 {
        576460752303423488
    } else if percent == 60 {
        691752902764108160
    } else if percent == 70 {
        807045053224792832
    } else if percent == 80 {
        922337203685477632
    } else if percent == 90 {
        1037629354146162304
    } else {
        1095275429376504576
    }
}

/// `<=` on `usize` is a total order.
pub proof fn lemma_usize_leq_total()
    ensures
        total_ordering(usize_leq()),
{
}

/// A sorted sequence with the same elements as `s` is `s` sorted.
pub proof fn lemma_ascending_unique(s: Seq<usize>, t: Seq<usize>)
    requires
        sorted_by(t, usize_leq()),
        t.to_multiset() == s.to_multiset(),
    ensures
        t == ascending(s),
{
    lemma_usize_leq_total();
    s.lemma_sort_by_ensures(usize_leq());
    vstd::seq_lib::lemma_sorted_unique(t, ascending(s), usize_leq());
}

/// Calls `slice::sort_unstable`, which sorts the values in ascending order.
/// The contract states exactly that: the result is ascending and holds the same
/// values, each as often, as before.
#[verifier::external_body]
fn sort_unstable(values: &mut Vec<usize>)
    ensures
        sorted_by(final(values)@, usize_leq()),
        final(values)@.to_multiset() == old(values)@.to_multiset(),
{
    values.sort_unstable();
}

/// A copy of `values` in ascending order.
pub fn sorted_copy(values: &Vec<usize>) -> (r: Vec<usize>)
    ensures
        r@ == ascending(values@),
        r.len() == values.len(),
{
    broadcast use vstd::seq_lib::group_to_multiset_ensures;

    let mut copy = values.clone();
    assert(copy@ == values@);
    sort_unstable(&mut copy);
    proof {
        lemma_ascending_unique(values@, copy@);
        assert(copy@.to_multiset().len() == values@.to_multiset().len());
    }
    copy
}

/// The index of the `percent`-th percentile among `len` sorted values.
pub fn rank_of(len: usize, percent: usize) -> (r: usize)
    requires
        len >= 1,
        is_quantile(percent as int),
    ensures
        r == percentile_rank(len as int, percent as int),
        r < len,
{
    let q = quantile_value(percent);
    let l = (len - 1) as u128;
    proof {
        lemma_round_upper(l as nat);
        assert(l <= 0xFFFF_FFFF_FFFF_FFFF);
    }
    let a = round_double(l);
    proof {
        assert(a * q <= 0x40000000000000000000000000000000) by (nonlinear_arith)
            requires
                4503599627370496 * a <= 4503599627370497 * l,
                l <= 0xFFFF_FFFF_FFFF_FFFF,
                q <= 1095275429376504576,
        ;
        lemma_round_upper((a * q) as nat);
    }
    let b = round_double(a * q);
    proof {
        if l == 0 {
            assert(a == 0);
            assert(a * q == 0);
            assert(b == 0);
        } else {
            assert(b < l * 0x1000000000000000) by (nonlinear_arith)
                requires
                    4503599627370496 * a <= 4503599627370497 * l,
                    4503599627370496 * b <= 4503599627370497 * (a * q),
                    q <= 1095275429376504576,
                    l >= 1,
            ;
        }
        assert(b <= 0x80000000000000000000000000000000);
    }
    let c = (b + 0x800000000000000) / 0x1000000000000000;
    proof {
        assert(c <= l);
    }
    c as usize
}

/// The `percent`-th percentile of values already in ascending order.
pub fn percentile(sorted: &Vec<usize>, percent: usize) -> (r: usize)
    requires
        sorted.len() >= 1,
        is_quantile(percent as int),
    ensures
        r == sorted@[percentile_rank(sorted.len() as int, percent as int)],
{
    sorted[rank_of(sorted.len(), percent)]
}

/// In an ascending sequence, the first value is the least and the last the greatest.
pub proof fn lemma_ascending_bounds(s: Seq<usize>)
    requires
        s.len() >= 1,
    ensures
        forall|i: int| 0 <= i < s.len() ==> ascending(s)[0] <= #[trigger] s[i] <= ascending(s)[s.len() - 1],
        s.contains(ascending(s)[0]),
        s.contains(ascending(s)[s.len() - 1]),
{
    broadcast use vstd::seq_lib::group_to_multiset_ensures;

    lemma_usize_leq_total();
    s.lemma_sort_by_ensures(usize_leq());
    let t = ascending(s);
    let n = s.len() as int;
    assert(t.to_multiset().len() == s.to_multiset().len());
    assert(t.len() == s.len());
    assert forall|i: int| 0 <= i < n implies t[0] <= #[trigger] s[i] <= t[n - 1] by {
        assert(s.contains(s[i]));
        assert(s.to_multiset().count(s[i]) > 0);
        assert(t.contains(s[i]));
        let j = choose|j: int| 0 <= j < t.len() && t[j] == s[i];
        if 0 < j {
            assert(usize_leq()(t[0], t[j]));
        }
        if j < n - 1 {
            assert(usize_leq()(t[j], t[n - 1]));
        }
    }
    assert(t.contains(t[0]));
    assert(t.to_multiset().count(t[0]) > 0);
    assert(t.contains(t[n - 1]));
    assert(t.to_multiset().count(t[n - 1]) > 0);
}

} // verus!
