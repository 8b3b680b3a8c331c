use vstd::prelude::*;

use vstd::arithmetic::power2::{
    lemma_pow2_adds, lemma_pow2_pos, lemma_pow2_strictly_increases, lemma_pow2_unfold, pow2,
};

verus! {

// Label sampling spreads the chosen labels with a step computed in binary
// floating point (IEEE 754 double precision, rounding to nearest with ties
// to even). The spec functions below write that arithmetic out exactly over
// whole numbers: a double is a pair (mantissa, exponent) whose value is
// mantissa * 2^exponent, with at most 53 significant bits.

/// `floor(log2(x))` for `x >= 1` (and 0 for 0).
pub open spec fn ilog2(x: nat) -> nat
    decreases x,
{
    if x < 2 {
        0
    } else {
        1 + ilog2(x / 2)
    }
}

/// `x / y` rounded to the nearest whole number, ties to the even one.
pub open spec fn div_round_even(x: nat, y: nat) -> nat {
    let q = x / y;
    let r = x % y;
    if 2 * r > y || (2 * r == y && q % 2 == 1) {
        q + 1
    } else {
        q
    }
}

/// The double nearest to the whole number `p`.
pub open spec fn double_of_nat(p: nat) -> (nat, int) {
    if p < pow2(53) {
        (p, 0)
    } else {
        let j = (ilog2(p) - 52) as nat;
        (div_round_even(p, pow2(j)), j as int)
    }
}

/// How far `x / y` is scaled up so that its whole part has at least 55
/// significant bits.
pub open spec fn ratio_shift(x: nat, y: nat) -> nat {
    if ilog2(y) >= ilog2(x) {
        (55 + ilog2(y) - ilog2(x)) as nat
    } else {
        55
    }
}

/// The double nearest to `x / y`, for whole `x, y >= 1`.
pub open spec fn double_of_ratio(x: nat, y: nat) -> (nat, int) {
    let s = ratio_shift(x, y);
    let k = ilog2(x * pow2(s) / y);
    (div_round_even(x * pow2(s), y * pow2((k - 52) as nat)), k - 52 - s)
}

/// The double nearest to the quotient of two doubles.
pub open spec fn double_div(a: (nat, int), b: (nat, int)) -> (nat, int) {
    let q = double_of_ratio(a.0, b.0);
    (q.0, q.1 + a.1 - b.1)
}

/// The double nearest to the product of two doubles.
pub open spec fn double_mul(a: (nat, int), b: (nat, int)) -> (nat, int) {
    let p = double_of_nat(a.0 * b.0);
    (p.0, p.1 + a.1 + b.1)
}

/// A non-negative double rounded to a whole number, halves rounded up.
pub open spec fn round_half_up(d: (nat, int)) -> nat {
    if d.1 >= 0 {
        d.0 * pow2(d.1 as nat)
    } else {
        (d.0 + pow2((-d.1 - 1) as nat)) / pow2((-d.1) as nat)
    }
}

/// The step between sampled labels: `(total - 1) / (target - 1)` in
/// floating point.
pub open spec fn sample_step(total: nat, target: nat) -> (nat, int) {
    double_div(double_of_nat((total - 1) as nat), double_of_nat((target - 1) as nat))
}

/// The index of the `i`-th sampled label: `i * step` rounded, at most the
/// last index.
pub open spec fn sample_position(total: nat, target: nat, i: nat) -> nat {
    let r = round_half_up(double_mul(double_of_nat(i), sample_step(total, target)));
    if r < total - 1 {
        r
    } else {
        (total - 1) as nat
    }
}

/// `s` without consecutive repeats.
pub open spec fn dedup(s: Seq<nat>) -> Seq<nat>
    decreases s.len(),
{
    if s.len() == 0 {
        s
    } else {
        let d = dedup(s.drop_last());
        if d.len() > 0 && d.last() == s.last() {
            d
        } else {
            d.push(s.last())
        }
    }
}

/// The labels shown out of `total` when about `target` fit: all of them
/// when they fit, the first and last when one or two fit, and otherwise
/// `target` positions spread evenly (with repeats dropped).
pub open spec fn spec_strategic_indices(total: nat, target: nat) -> Seq<nat> {
    if total == 0 {
        Seq::empty()
    } else if target >= total {
        Seq::new(total, |i: int| i as nat)
    } else if target <= 1 {
        if total == 1 {
            seq![0]
        } else {
            seq![0, (total - 1) as nat]
        }
    } else if target == 2 {
        seq![0, (total - 1) as nat]
    } else {
        dedup(Seq::new(target, |i: int| sample_position(total, target, i as nat)))
    }
}


proof fn lemma_pow2_mono(a: nat, b: nat)
    requires
        a <= b,
    ensures
        pow2(a) <= pow2(b),
{
    if a < b {
        lemma_pow2_strictly_increases(a, b);
    }
}

proof fn lemma_pow2_128()
    ensures
        pow2(64) == 0x1_0000_0000_0000_0000,
        pow2(128) == 0x1_0000_0000_0000_0000_0000_0000_0000_0000,
        pow2(53) == 0x20_0000_0000_0000,
        pow2(52) == 0x10_0000_0000_0000,
{
    vstd::arithmetic::power2::lemma2_to64();
    vstd::arithmetic::power2::lemma2_to64_rest();
    lemma_pow2_adds(64, 64);
}

proof fn lemma_ilog2_bounds(x: nat)
    requires
        x >= 1,
    ensures
        pow2(ilog2(x)) <= x < pow2(ilog2(x) + 1),
    decreases x,
{
    lemma_pow2_pos(0);
    lemma_pow2_unfold(1);
    if x >= 2 {
        lemma_ilog2_bounds(x / 2);
        lemma_pow2_unfold(ilog2(x));
        lemma_pow2_unfold(ilog2(x) + 1);
    } else {
        assert(pow2(0) == 1) by {
            vstd::arithmetic::power2::lemma2_to64();
        }
    }
}

proof fn lemma_ilog2_unique(x: nat, k: nat)
    requires
        pow2(k) <= x < pow2(k + 1),
    ensures
        ilog2(x) == k,
{
    lemma_pow2_pos(k);
    lemma_ilog2_bounds(x);
    if ilog2(x) < k {
        lemma_pow2_mono(ilog2(x) + 1, k);
    } else if ilog2(x) > k {
        lemma_pow2_mono(k + 1, ilog2(x));
    }
}

proof fn lemma_ilog2_below(x: nat, k: nat)
    requires
        1 <= x < pow2(k),
    ensures
        ilog2(x) < k,
{
    lemma_ilog2_bounds(x);
    if ilog2(x) >= k {
        lemma_pow2_mono(k, ilog2(x));
    }
}

fn ilog2_exec(x: u128) -> (r: u32)
    ensures
        r as nat == ilog2(x as nat),
        r < 128,
{
    proof {
        lemma_pow2_128();
        if x >= 1 {
            lemma_ilog2_below(x as nat, 128);
        }
    }
    let mut v = x;
    let mut k: u32 = 0;
    while v >= 2
        invariant
            ilog2(x as nat) == k + ilog2(v as nat),
            ilog2(x as nat) < 128,
        decreases v,
    {
        v = v / 2;
        k = k + 1;
    }
    k
}

fn pow2_exec(k: u32) -> (r: u128)
    requires
        k < 128,
    ensures
        r as nat == pow2(k as nat),
{
    proof {
        lemma_pow2_128();
    }
    let mut v: u128 = 1;
    let mut j: u32 = 0;
    assert(pow2(0) == 1) by {
        vstd::arithmetic::power2::lemma2_to64();
    }
    while j < k
        invariant
            j <= k < 128,
            v as nat == pow2(j as nat),
            pow2(128) == 0x1_0000_0000_0000_0000_0000_0000_0000_0000,
        decreases k - j,
    {
        proof {
            lemma_pow2_unfold(j as nat + 1);
            lemma_pow2_mono(j as nat + 1, 127);
            lemma_pow2_strictly_increases(127, 128);
        }
        v = v * 2;
        j = j + 1;
    }
    v
}

fn div_round_even_exec(x: u128, y: u128) -> (r: u128)
    requires
        y > 0,
    ensures
        r as nat == div_round_even(x as nat, y as nat),
{
    let q = x / y;
    let rem = x % y;
    let up = rem > y - rem || (rem == y - rem && q % 2 == 1);
    if up {
        assert(q < u128::MAX) by (nonlinear_arith)
            requires
                y >= 2,
                q == x / y,
        ;
        q + 1
    } else {
        q
    }
}

proof fn lemma_div_below(p: nat, a: nat, b: nat)
    requires
        a > 0,
        p < a * b,
    ensures
        p / a < b,
{
    assert(p / a < b) by (nonlinear_arith)
        requires
            a > 0,
            p < a * b,
    ;
}

/// The mantissa of the double nearest to a whole number has at most 53
/// significant bits, and its exponent is not negative.
proof fn lemma_double_of_nat_bounds(p: nat)
    ensures
        double_of_nat(p).0 <= pow2(53),
        double_of_nat(p).1 >= 0,
        p >= 1 ==> double_of_nat(p).0 >= 1,
        p >= pow2(53) ==> double_of_nat(p).1 == ilog2(p) - 52 && ilog2(p) >= 53,
{
    if p >= pow2(53) {
        lemma_pow2_pos(53);
        lemma_ilog2_bounds(p);
        if ilog2(p) < 53 {
            lemma_pow2_mono(ilog2(p) + 1, 53);
        }
        let j = (ilog2(p) - 52) as nat;
        lemma_pow2_adds(j, 53);
        assert(ilog2(p) + 1 == j + 53);
        lemma_pow2_pos(j);
        lemma_div_below(p, pow2(j), pow2(53));
        lemma_pow2_adds(j, 52);
        assert(p / pow2(j) >= pow2(52)) by (nonlinear_arith)
            requires
                p >= pow2(j) * pow2(52),
                pow2(j) > 0,
        ;
        lemma_pow2_pos(52);
    }
}

/// The double nearest to a whole number below 2^128.
fn double_of_exec(p: u128) -> (r: (u128, i64))
    ensures
        r.0 as nat == double_of_nat(p as nat).0,
        r.1 as int == double_of_nat(p as nat).1,
        r.0 <= pow2(53),
        0 <= r.1 <= 75,
        p < pow2(64) ==> r.1 <= 11,
        p < pow2(107) ==> r.1 <= 54,
{
    proof {
        lemma_pow2_128();
        lemma_double_of_nat_bounds(p as nat);
        if p >= 1 {
            lemma_ilog2_below(p as nat, 128);
            if p < pow2(64) {
                lemma_ilog2_below(p as nat, 64);
            }
            if p < pow2(107) {
                lemma_ilog2_below(p as nat, 107);
            }
        }
    }
    if p < 0x20_0000_0000_0000 {
        (p, 0)
    } else {
        let k = ilog2_exec(p);
        let j = k - 52;
        let d = pow2_exec(j);
        proof {
            lemma_pow2_pos(j as nat);
        }
        (div_round_even_exec(p, d), j as i64)
    }
}

proof fn lemma_mul_pow2_lt(a: nat, i: nat, j: nat)
    requires
        a < pow2(i),
    ensures
        a * pow2(j) < pow2(i + j),
{
    lemma_pow2_adds(i, j);
    lemma_pow2_pos(j);
    assert(a * pow2(j) < pow2(i) * pow2(j)) by (nonlinear_arith)
        requires
            a < pow2(i),
            pow2(j) > 0,
    ;
}

proof fn lemma_mul_pow2_ge(a: nat, i: nat, j: nat)
    requires
        a >= pow2(i),
    ensures
        a * pow2(j) >= pow2(i + j),
{
    lemma_pow2_adds(i, j);
    lemma_pow2_pos(j);
    assert(a * pow2(j) >= pow2(i) * pow2(j)) by (nonlinear_arith)
        requires
            a >= pow2(i),
            pow2(j) > 0,
    ;
}

proof fn lemma_div_at_least(num: nat, y: nat, p: nat)
    requires
        y > 0,
        num >= p * y,
    ensures
        num / y >= p,
{
    assert(num / y >= p) by (nonlinear_arith)
        requires
            y > 0,
            num >= p * y,
    ;
}

proof fn lemma_ratio_bounds(x: nat, y: nat)
    requires
        1 <= x <= pow2(53),
        1 <= y <= pow2(53),
    ensures
        ilog2(x) <= 53,
        ilog2(y) <= 53,
        ratio_shift(x, y) <= 108,
        x * pow2(ratio_shift(x, y)) < pow2(109),
        x * pow2(ratio_shift(x, y)) / y >= pow2(54),
        54 <= ilog2(x * pow2(ratio_shift(x, y)) / y) <= 108,
        y * pow2((ilog2(x * pow2(ratio_shift(x, y)) / y) - 52) as nat) <= pow2(109),
        double_of_ratio(x, y).0 <= pow2(53),
        -106 <= double_of_ratio(x, y).1 <= 1,
{
    let lx = ilog2(x);
    let ly = ilog2(y);
    lemma_ilog2_bounds(x);
    lemma_ilog2_bounds(y);
    lemma_pow2_strictly_increases(53, 54);
    lemma_ilog2_below(x, 54);
    lemma_ilog2_below(y, 54);
    let s = ratio_shift(x, y);
    let num = x * pow2(s);
    // num < 2^(lx + 1 + s) <= 2^109
    lemma_mul_pow2_lt(x, lx + 1, s);
    lemma_pow2_mono(lx + 1 + s, 109);
    // num >= 2^(lx + s) >= 2^(e0) * 2^(ly + 1) > 2^e0 * y
    lemma_mul_pow2_ge(x, lx, s);
    let e0 = (lx + s - ly - 1) as nat;
    assert(e0 >= 54);
    lemma_pow2_adds(e0, ly + 1);
    assert(lx + s == e0 + ly + 1);
    lemma_pow2_pos(e0);
    assert(num >= pow2(e0) * y) by (nonlinear_arith)
        requires
            num >= pow2(e0) * pow2(ly + 1),
            y < pow2(ly + 1),
            pow2(e0) > 0,
    ;
    lemma_div_at_least(num, y, pow2(e0));
    lemma_pow2_mono(54, e0);
    let n = num / y;
    // 54 <= k <= 108
    lemma_ilog2_bounds(n);
    let k = ilog2(n);
    if k < 54 {
        lemma_pow2_mono(k + 1, 54);
    }
    assert(n <= num) by (nonlinear_arith)
        requires
            y >= 1,
            n == num / y,
    ;
    lemma_ilog2_below(n, 109);
    // den = y * 2^(k - 52) <= 2^53 * 2^56
    let j = (k - 52) as nat;
    lemma_pow2_mono(j, 56);
    lemma_pow2_adds(53, 56);
    assert(y * pow2(j) <= pow2(53) * pow2(56)) by (nonlinear_arith)
        requires
            y <= pow2(53),
            pow2(j) <= pow2(56),
    ;
    // num < 2^(k + 1) * y = 2^53 * den
    assert(num < pow2(k + 1) * y) by (nonlinear_arith)
        requires
            n == num / y,
            n < pow2(k + 1),
            y >= 1,
    ;
    lemma_pow2_adds(53, j);
    assert(k + 1 == 53 + j);
    lemma_pow2_pos(j);
    let den = y * pow2(j);
    assert(num < den * pow2(53)) by (nonlinear_arith)
        requires
            num < pow2(k + 1) * y,
            pow2(k + 1) == pow2(53) * pow2(j),
            den == y * pow2(j),
    ;
    assert(den > 0) by (nonlinear_arith)
        requires
            y >= 1,
            pow2(j) > 0,
            den == y * pow2(j),
    ;
    lemma_div_below(num, den, pow2(53));
}

/// The double nearest to `x / y`, for mantissas `x, y` of at most 53 bits.
fn double_of_ratio_exec(x: u128, y: u128) -> (r: (u128, i64))
    requires
        1 <= x <= pow2(53),
        1 <= y <= pow2(53),
    ensures
        r.0 as nat == double_of_ratio(x as nat, y as nat).0,
        r.1 as int == double_of_ratio(x as nat, y as nat).1,
        r.0 <= pow2(53),
        -106 <= r.1 <= 1,
{
    proof {
        lemma_ratio_bounds(x as nat, y as nat);
        lemma_pow2_128();
        lemma_pow2_strictly_increases(109, 128);
    }
    let lx = ilog2_exec(x);
    let ly = ilog2_exec(y);
    let s: u32 = if ly >= lx { 55 + ly - lx } else { 55 };
    assert(s as nat == ratio_shift(x as nat, y as nat));
    let ps = pow2_exec(s);
    let num = x * ps;
    let n = num / y;
    let k = ilog2_exec(n);
    assert(k >= 54);
    let pk = pow2_exec(k - 52);
    assert(y as nat * pk as nat <= pow2(109));
    let den = y * pk;
    proof {
        lemma_pow2_pos((k - 52) as nat);
        assert(den > 0) by (nonlinear_arith)
            requires
                y >= 1,
                pk >= 1,
                den == y * pk,
        ;
    }
    let m = div_round_even_exec(num, den);
    (m, (k as i64) - 52 - (s as i64))
}

/// The `i`-th sampled position, given the step already computed.
fn sample_position_exec(total: usize, target: usize, step: (u128, i64), i: usize) -> (r: usize)
    requires
        total >= 1,
        step.0 as nat == sample_step(total as nat, target as nat).0,
        step.1 as int == sample_step(total as nat, target as nat).1,
        step.0 <= pow2(53),
        -117 <= step.1 <= 12,
    ensures
        r as nat == sample_position(total as nat, target as nat, i as nat),
{
    proof {
        lemma_pow2_128();
        lemma_pow2_strictly_increases(64, 128);
    }
    let fi = double_of_exec(i as u128);
    assert(fi.0 as nat * step.0 as nat <= pow2(53) * pow2(53)) by (nonlinear_arith)
        requires
            fi.0 <= pow2(53),
            step.0 <= pow2(53),
    ;
    proof {
        lemma_pow2_adds(53, 53);
        lemma_pow2_strictly_increases(106, 107);
        lemma_pow2_strictly_increases(107, 128);
    }
    let p = fi.0 * step.0;
    let dp = double_of_exec(p);
    let m = dp.0;
    let e: i64 = dp.1 + fi.1 + step.1;
    let ghost prod = double_mul(double_of_nat(i as nat), sample_step(total as nat, target as nat));
    assert(prod == (m as nat, e as int));
    let last = total - 1;
    let rounded: u128 = if e >= 0 {
        if m == 0 {
            assert(m as nat * pow2(e as nat) == 0);
            0
        } else if e >= 64 {
            proof {
                lemma_pow2_mono(64, e as nat);
                assert(m as nat * pow2(e as nat) >= pow2(64)) by (nonlinear_arith)
                    requires
                        m >= 1,
                        pow2(e as nat) >= pow2(64),
                ;
            }
            last as u128
        } else {
            proof {
                lemma_pow2_mono(e as nat, 63);
                lemma_pow2_adds(53, 63);
                lemma_pow2_strictly_increases(116, 128);
                assert(m as nat * pow2(e as nat) <= pow2(53) * pow2(63)) by (nonlinear_arith)
                    requires
                        m <= pow2(53),
                        pow2(e as nat) <= pow2(63),
                ;
            }
            m * pow2_exec(e as u32)
        }
    } else {
        let t = (0 - e) as u32;
        proof {
            lemma_pow2_mono(t as nat, 117);
            lemma_pow2_strictly_increases(117, 128);
            lemma_pow2_pos((t - 1) as nat);
            lemma_pow2_strictly_increases((t - 1) as nat, t as nat);
            lemma_pow2_mono((t - 1) as nat, 116);
            lemma_pow2_mono(53, 116);
            lemma_pow2_unfold(117);
        }
        let half = pow2_exec(t - 1);
        let whole = pow2_exec(t);
        (m + half) / whole
    };
    if rounded < last as u128 {
        rounded as usize
    } else {
        last
    }
}

proof fn lemma_step_bounds(total: nat, target: nat)
    requires
        3 <= target < total <= u64::MAX as nat + 1,
    ensures
        sample_step(total, target).0 <= pow2(53),
        -117 <= sample_step(total, target).1 <= 12,
        double_of_nat((total - 1) as nat).0 >= 1,
        double_of_nat((target - 1) as nat).0 >= 1,
{
    lemma_pow2_128();
    let n = (total - 1) as nat;
    let d = (target - 1) as nat;
    lemma_double_of_nat_bounds(n);
    lemma_double_of_nat_bounds(d);
    lemma_ilog2_below(n, 64);
    lemma_ilog2_below(d, 64);
    lemma_ratio_bounds(double_of_nat(n).0, double_of_nat(d).0);
}

/// `s` as whole numbers.
pub open spec fn as_nats(s: Seq<usize>) -> Seq<nat> {
    Seq::new(s.len(), |i: int| s[i] as nat)
}

/// Select strategic indices for sampled label display.
/// Always includes first and last; evenly distributes the rest.
pub fn strategic_indices(total: usize, target: usize) -> (r: Vec<usize>)
    ensures
        as_nats(r@) == spec_strategic_indices(total as nat, target as nat),
{
    if total == 0 {
        let out: Vec<usize> = Vec::new();
        assert(as_nats(out@) =~= spec_strategic_indices(total as nat, target as nat));
        return out;
    }
    if target >= total {
        let mut out: Vec<usize> = Vec::new();
        let mut k: usize = 0;
        while k < total
            invariant
                k <= total,
                out@.len() == k,
                forall|j: int| 0 <= j < k ==> #[trigger] out@[j] == j,
            decreases total - k,
        {
            out.push(k);
            k = k + 1;
        }
        assert(as_nats(out@) =~= Seq::new(total as nat, |i: int| i as nat));
        return out;
    }
    if target <= 2 {
        let mut out: Vec<usize> = Vec::new();
        out.push(0);
        if total > 1 {
            out.push(total - 1);
        }
        assert(as_nats(out@) =~= spec_strategic_indices(total as nat, target as nat));
        return out;
    }
    proof {
        lemma_step_bounds(total as nat, target as nat);
        lemma_pow2_128();
    }
    let n = double_of_exec((total - 1) as u128);
    let d = double_of_exec((target - 1) as u128);
    let q = double_of_ratio_exec(n.0, d.0);
    let step = (q.0, q.1 + n.1 - d.1);
    let ghost f = |i: int| sample_position(total as nat, target as nat, i as nat);
    let mut out: Vec<usize> = Vec::new();
    let mut i: usize = 0;
    assert(as_nats(out@) =~= dedup(Seq::new(0, f)));
    while i < target
        invariant
            3 <= target < total,
            i <= target,
            step.0 as nat == sample_step(total as nat, target as nat).0,
            step.1 as int == sample_step(total as nat, target as nat).1,
            step.0 <= pow2(53),
            -117 <= step.1 <= 12,
            f == (|i: int| sample_position(total as nat, target as nat, i as nat)),
            as_nats(out@) == dedup(Seq::new(i as nat, f)),
        decreases target - i,
    {
        let pos = sample_position_exec(total, target, step, i);
        let ghost prev = Seq::new(i as nat, f);
        let ghost next = Seq::new(i as nat + 1, f);
        assert(next.drop_last() =~= prev);
        assert(next.last() == pos as nat);
        let n_out = out.len();
        if n_out > 0 && out[n_out - 1] == pos {
            assert(as_nats(out@).last() == pos as nat);
        } else {
            out.push(pos);
            assert(as_nats(out@) =~= dedup(prev).push(pos as nat));
        }
        i = i + 1;
    }
    out
}

/// The value of the double nearest to a whole number (itself whole).
pub open spec fn rne_value(x: nat) -> nat {
    double_of_nat(x).0 * pow2(double_of_nat(x).1 as nat)
}

proof fn lemma_div_round_even_monotone(x1: nat, x2: nat, y: nat)
    requires
        x1 <= x2,
        y > 0,
    ensures
        div_round_even(x1, y) <= div_round_even(x2, y),
{
    let q1 = x1 / y;
    let q2 = x2 / y;
    assert(q1 <= q2) by (nonlinear_arith)
        requires
            x1 <= x2,
            y > 0,
            q1 == x1 / y,
            q2 == x2 / y,
    ;
    if q1 == q2 {
        assert(x1 % y <= x2 % y) by (nonlinear_arith)
            requires
                x1 <= x2,
                y > 0,
                x1 / y == x2 / y,
        ;
    }
}

proof fn lemma_div_round_even_bounds(x: nat, y: nat)
    requires
        y > 0,
    ensures
        x / y <= div_round_even(x, y) <= x / y + 1,
{
}

proof fn lemma_rne_value_bounds(x: nat)
    ensures
        x < pow2(53) ==> rne_value(x) == x,
        x >= pow2(53) ==> pow2(ilog2(x)) <= rne_value(x) <= pow2(ilog2(x) + 1),
{
    lemma_pow2_pos(0);
    assert(pow2(0) == 1) by {
        vstd::arithmetic::power2::lemma2_to64();
    }
    if x >= pow2(53) {
        lemma_double_of_nat_bounds(x);
        let j = (ilog2(x) - 52) as nat;
        let m = double_of_nat(x).0;
        lemma_pow2_pos(53);
        lemma_ilog2_bounds(x);
        lemma_pow2_adds(52, j);
        lemma_pow2_adds(53, j);
        assert(ilog2(x) == 52 + j);
        lemma_pow2_pos(j);
        // m >= x / 2^j >= 2^52
        lemma_div_round_even_bounds(x, pow2(j));
        assert(x / pow2(j) >= pow2(52)) by (nonlinear_arith)
            requires
                x >= pow2(52) * pow2(j),
                pow2(j) > 0,
        ;
        assert(m * pow2(j) >= pow2(52) * pow2(j)) by (nonlinear_arith)
            requires
                m >= pow2(52),
                pow2(j) > 0,
        ;
        assert(m * pow2(j) <= pow2(53) * pow2(j)) by (nonlinear_arith)
            requires
                m <= pow2(53),
                pow2(j) > 0,
        ;
    } else {
        assert(double_of_nat(x).1 == 0);
        assert(double_of_nat(x).0 == x);
        assert(rne_value(x) == x * pow2(0));
    }
}

/// Rounding whole numbers to doubles keeps their order.
proof fn lemma_rne_value_monotone(x: nat, y: nat)
    requires
        x <= y,
    ensures
        rne_value(x) <= rne_value(y),
{
    lemma_rne_value_bounds(x);
    lemma_rne_value_bounds(y);
    if y < pow2(53) {
    } else if x < pow2(53) {
        lemma_ilog2_bounds(y);
        lemma_pow2_pos(53);
        if ilog2(y) < 53 {
            lemma_pow2_mono(ilog2(y) + 1, 53);
        }
        lemma_pow2_mono(53, ilog2(y));
    } else {
        lemma_pow2_pos(53);
        lemma_ilog2_bounds(x);
        lemma_ilog2_bounds(y);
        if ilog2(x) == ilog2(y) {
            let j = (ilog2(x) - 52) as nat;
            lemma_pow2_pos(j);
            lemma_div_round_even_monotone(x, y, pow2(j));
            lemma_double_of_nat_bounds(x);
            lemma_double_of_nat_bounds(y);
            assert(double_of_nat(x).0 * pow2(j) <= double_of_nat(y).0 * pow2(j)) by (nonlinear_arith)
                requires
                    double_of_nat(x).0 <= double_of_nat(y).0,
            ;
        } else if ilog2(x) < ilog2(y) {
            lemma_pow2_mono(ilog2(x) + 1, ilog2(y));
        } else {
            lemma_pow2_mono(ilog2(y) + 1, ilog2(x));
        }
    }
}

proof fn lemma_ilog2_scaled(x: nat, k: nat)
    requires
        x >= 1,
    ensures
        ilog2(x * pow2(k)) == ilog2(x) + k,
{
    lemma_ilog2_bounds(x);
    let l = ilog2(x);
    lemma_mul_pow2_ge(x, l, k);
    lemma_mul_pow2_lt(x, l + 1, k);
    assert(l + 1 + k == (l + k) + 1);
    lemma_ilog2_unique(x * pow2(k), l + k);
}

proof fn lemma_div_mod_scaled(x: nat, y: nat, c: nat)
    requires
        y > 0,
        c > 0,
    ensures
        (x * c) / (y * c) == x / y,
        (x * c) % (y * c) == (x % y) * c,
        y * c > 0,
{
    let q = x / y;
    let r = x % y;
    assert(x == q * y + r && 0 <= r < y) by (nonlinear_arith)
        requires
            y > 0,
            q == x / y,
            r == x % y,
    ;
    assert(x * c == q * (y * c) + r * c && 0 <= r * c < y * c) by (nonlinear_arith)
        requires
            x == q * y + r,
            0 <= r < y,
            c > 0,
    ;
    vstd::arithmetic::div_mod::lemma_fundamental_div_mod_converse(
        (x * c) as int,
        (y * c) as int,
        q as int,
        (r * c) as int,
    );
}

proof fn lemma_div_round_even_scaled(x: nat, y: nat, c: nat)
    requires
        y > 0,
        c > 0,
    ensures
        div_round_even(x * c, y * c) == div_round_even(x, y),
{
    lemma_div_mod_scaled(x, y, c);
    let r = x % y;
    assert((2 * (r * c) > y * c) == (2 * r > y)) by (nonlinear_arith)
        requires
            c > 0,
    ;
    assert((2 * (r * c) == y * c) == (2 * r == y)) by (nonlinear_arith)
        requires
            c > 0,
    ;
}

/// Rounding a whole number to a double commutes with scaling it by a power
/// of two.
proof fn lemma_rne_value_scaled(x: nat, k: nat)
    ensures
        rne_value(x * pow2(k)) == rne_value(x) * pow2(k),
{
    lemma_pow2_pos(k);
    lemma_rne_value_bounds(x);
    lemma_rne_value_bounds(x * pow2(k));
    if x == 0 {
        assert(x * pow2(k) == 0);
        lemma_pow2_pos(53);
    } else if x * pow2(k) < pow2(53) {
        assert(x <= x * pow2(k)) by (nonlinear_arith)
            requires
                pow2(k) > 0,
        ;
    } else if x < pow2(53) {
        lemma_ilog2_scaled(x, k);
        lemma_ilog2_below(x, 53);
        let l = ilog2(x);
        lemma_ilog2_bounds(x * pow2(k));
        if l + k < 53 {
            lemma_pow2_mono(l + k + 1, 53);
        }
        let jp = (l + k - 52) as nat;
        let rest = (k - jp) as nat;
        lemma_pow2_adds(rest, jp);
        assert(k == rest + jp);
        lemma_pow2_pos(jp);
        let xs = x * pow2(k);
        assert(xs == (x * pow2(rest)) * pow2(jp)) by (nonlinear_arith)
            requires
                xs == x * pow2(k),
                pow2(k) == pow2(rest) * pow2(jp),
        ;
        vstd::arithmetic::div_mod::lemma_fundamental_div_mod_converse(
            xs as int,
            pow2(jp) as int,
            (x * pow2(rest)) as int,
            0,
        );
        lemma_double_of_nat_bounds(xs);
        assert(double_of_nat(xs).0 == x * pow2(rest));
        assert(double_of_nat(xs).1 == jp);
        assert(rne_value(xs) == x * pow2(rest) * pow2(jp));
        assert(rne_value(x) == x);
        assert(x * pow2(rest) * pow2(jp) == x * pow2(k)) by (nonlinear_arith)
            requires
                pow2(k) == pow2(rest) * pow2(jp),
        ;
    } else {
        lemma_ilog2_scaled(x, k);
        lemma_pow2_pos(53);
        lemma_ilog2_bounds(x);
        if ilog2(x) < 53 {
            lemma_pow2_mono(ilog2(x) + 1, 53);
        }
        let j = (ilog2(x) - 52) as nat;
        lemma_pow2_adds(j, k);
        assert((ilog2(x) + k - 52) as nat == j + k);
        lemma_pow2_pos(j);
        lemma_div_round_even_scaled(x, pow2(j), pow2(k));
        lemma_double_of_nat_bounds(x);
        lemma_double_of_nat_bounds(x * pow2(k));
        assert(double_of_nat(x * pow2(k)).0 == double_of_nat(x).0);
        assert(double_of_nat(x * pow2(k)).1 == j + k);
        let m = double_of_nat(x).0;
        assert(m * pow2(j + k) == m * pow2(j) * pow2(k)) by (nonlinear_arith)
            requires
                pow2(j + k) == pow2(j) * pow2(k),
        ;
    }
}

proof fn lemma_round_half_up_shift(m: nat, a: nat, es: int)
    ensures
        round_half_up((m, a + es)) == round_half_up((m * pow2(a), es)),
{
    lemma_pow2_pos(a);
    if es >= 0 {
        lemma_pow2_adds(a, es as nat);
        assert((a + es) as nat == a + es as nat);
        assert(m * pow2(a + es as nat) == m * pow2(a) * pow2(es as nat)) by (nonlinear_arith)
            requires
                pow2(a + es as nat) == pow2(a) * pow2(es as nat),
        ;
    } else if a + es >= 0 {
        let t = (-es) as nat;
        let rest = (a - t) as nat;
        lemma_pow2_adds(rest, t);
        assert(a == rest + t);
        lemma_pow2_pos(t);
        lemma_pow2_pos((t - 1) as nat);
        lemma_pow2_strictly_increases((t - 1) as nat, t);
        let big = m * pow2(rest);
        assert(m * pow2(a) == big * pow2(t)) by (nonlinear_arith)
            requires
                pow2(a) == pow2(rest) * pow2(t),
                big == m * pow2(rest),
        ;
        vstd::arithmetic::div_mod::lemma_fundamental_div_mod_converse(
            (m * pow2(a) + pow2((t - 1) as nat)) as int,
            pow2(t) as int,
            big as int,
            pow2((t - 1) as nat) as int,
        );
        assert((a + es) as nat == rest);
    } else {
        let t = (-es) as nat;
        let tp = (t - a) as nat;
        lemma_pow2_adds((tp - 1) as nat, a);
        lemma_pow2_adds(tp, a);
        assert((t - 1) as nat == (tp - 1) as nat + a);
        assert(t == tp + a);
        lemma_pow2_pos(tp);
        lemma_div_mod_scaled(m + pow2((tp - 1) as nat), pow2(tp), pow2(a));
        assert((m + pow2((tp - 1) as nat)) * pow2(a) == m * pow2(a) + pow2((t - 1) as nat)) by (nonlinear_arith)
            requires
                pow2((t - 1) as nat) == pow2((tp - 1) as nat) * pow2(a),
        ;
        assert((-(a + es)) as nat == tp);
        assert((-(a + es) - 1) as nat == (tp - 1) as nat);
    }
}

proof fn lemma_round_half_up_monotone(w1: nat, w2: nat, es: int)
    requires
        w1 <= w2,
    ensures
        round_half_up((w1, es)) <= round_half_up((w2, es)),
{
    if es >= 0 {
        lemma_pow2_pos(es as nat);
        assert(w1 * pow2(es as nat) <= w2 * pow2(es as nat)) by (nonlinear_arith)
            requires
                w1 <= w2,
        ;
    } else {
        let t = (-es) as nat;
        let h = pow2((t - 1) as nat);
        lemma_pow2_pos(t);
        assert((w1 + h) / pow2(t) <= (w2 + h) / pow2(t)) by (nonlinear_arith)
            requires
                w1 <= w2,
                pow2(t) > 0,
        ;
    }
}

/// The rounded `i`-th sample is the rounded product of `i` (as a double)
/// and the step mantissa, scaled by the step exponent.
proof fn lemma_sample_rounding(i: nat, step: (nat, int))
    ensures
        round_half_up(double_mul(double_of_nat(i), step))
            == round_half_up((rne_value(rne_value(i) * step.0), step.1)),
{
    let fi = double_of_nat(i);
    lemma_double_of_nat_bounds(i);
    let p = fi.0 * step.0;
    let dp = double_of_nat(p);
    lemma_double_of_nat_bounds(p);
    let a = (dp.1 + fi.1) as nat;
    assert(double_mul(fi, step) == (dp.0, a + step.1));
    lemma_round_half_up_shift(dp.0, a, step.1);
    lemma_pow2_adds(dp.1 as nat, fi.1 as nat);
    assert(dp.0 * pow2(a) == rne_value(p) * pow2(fi.1 as nat)) by (nonlinear_arith)
        requires
            pow2(a) == pow2(dp.1 as nat) * pow2(fi.1 as nat),
            rne_value(p) == dp.0 * pow2(dp.1 as nat),
    ;
    lemma_rne_value_scaled(p, fi.1 as nat);
    assert(p * pow2(fi.1 as nat) == rne_value(i) * step.0) by (nonlinear_arith)
        requires
            p == fi.0 * step.0,
            rne_value(i) == fi.0 * pow2(fi.1 as nat),
    ;
}

/// Later samples never come before earlier ones.
proof fn lemma_sample_position_monotone(total: nat, target: nat, i1: nat, i2: nat)
    requires
        i1 <= i2,
    ensures
        sample_position(total, target, i1) <= sample_position(total, target, i2),
{
    lemma_raw_sample_monotone(total, target, i1, i2);
}

proof fn lemma_dedup(s: Seq<nat>)
    ensures
        dedup(s).len() <= s.len(),
        s.len() > 0 ==> dedup(s).len() > 0 && dedup(s)[0] == s[0] && dedup(s).last() == s.last(),
        forall|k: int| 0 <= k < dedup(s).len() ==> s.contains(#[trigger] dedup(s)[k]),
        (forall|a: int, b: int| 0 <= a <= b < s.len() ==> s[a] <= s[b])
            ==> forall|a: int, b: int| 0 <= a < b < dedup(s).len() ==> dedup(s)[a] < dedup(s)[b],
    decreases s.len(),
{
    if s.len() > 0 {
        let t = s.drop_last();
        lemma_dedup(t);
        let d = dedup(t);
        assert forall|k: int| 0 <= k < dedup(s).len() implies s.contains(#[trigger] dedup(s)[k]) by {
            if k < d.len() {
                assert(t.contains(d[k]));
                let j = choose|j: int| 0 <= j < t.len() && t[j] == d[k];
                assert(s[j] == d[k]);
            } else {
                assert(dedup(s)[k] == s.last());
                assert(s[s.len() - 1] == s.last());
            }
        }
        if t.len() == 0 {
            assert(d.len() == 0);
        } else {
            assert(d[0] == t[0]);
        }
        if forall|a: int, b: int| 0 <= a <= b < s.len() ==> s[a] <= s[b] {
            assert forall|a: int, b: int| 0 <= a <= b < t.len() implies t[a] <= t[b] by {
                assert(t[a] == s[a] && t[b] == s[b]);
            }
            if d.len() > 0 && d.last() != s.last() {
                assert forall|a: int, b: int| 0 <= a < b < dedup(s).len() implies dedup(s)[a] < dedup(s)[b] by {
                    if b == d.len() {
                        assert(t.contains(d[a]));
                        let j = choose|j: int| 0 <= j < t.len() && t[j] == d[a];
                        assert(s[j] <= s[s.len() - 1]);
                        assert(d[a] <= d.last()) by {
                            if a < d.len() - 1 {
                                assert(d[a] < d[d.len() - 1]);
                            }
                        }
                        assert(d.last() == t.last());
                        assert(t.last() == s[s.len() - 2]);
                        assert(s[s.len() - 2] <= s[s.len() - 1]);
                    }
                }
            }
        }
    }
}

proof fn lemma_sample_position_first(total: nat, target: nat)
    requires
        total >= 1,
    ensures
        sample_position(total, target, 0) == 0,
{
    let step = sample_step(total, target);
    lemma_sample_rounding(0, step);
    lemma_rne_value_bounds(0);
    lemma_pow2_pos(53);
    assert(rne_value(0) == 0);
    assert(rne_value(0) * step.0 == 0);
    assert(rne_value(rne_value(0) * step.0) == 0);
    if step.1 < 0 {
        let t = (-step.1) as nat;
        lemma_pow2_strictly_increases((t - 1) as nat, t);
        lemma_pow2_pos((t - 1) as nat);
        assert(pow2((t - 1) as nat) / pow2(t) == 0) by (nonlinear_arith)
            requires
                pow2((t - 1) as nat) < pow2(t),
        ;
        assert((0 + pow2((t - 1) as nat)) as nat == pow2((t - 1) as nat));
    } else {
        assert(0 * pow2(step.1 as nat) == 0);
    }
}

/// The sampled labels start with the first label, end within the labels,
/// come in increasing order without repeats, and number at most `total`
/// and, when at least two fit, at most `target`.
pub proof fn lemma_strategic_indices_shape(total: nat, target: nat)
    ensures
        spec_strategic_indices(total, target).len() <= total,
        target >= 2 ==> spec_strategic_indices(total, target).len() <= target,
        total > 0 ==> spec_strategic_indices(total, target).len() > 0
            && spec_strategic_indices(total, target)[0] == 0,
        forall|k: int| 0 <= k < spec_strategic_indices(total, target).len()
            ==> #[trigger] spec_strategic_indices(total, target)[k] < total,
        forall|a: int, b: int| 0 <= a < b < spec_strategic_indices(total, target).len()
            ==> spec_strategic_indices(total, target)[a] < spec_strategic_indices(total, target)[b],
{
    let r = spec_strategic_indices(total, target);
    if total > 0 && target < total && target > 2 {
        let f = |i: int| sample_position(total, target, i as nat);
        let s = Seq::new(target, f);
        assert forall|a: int, b: int| 0 <= a <= b < s.len() implies s[a] <= s[b] by {
            lemma_sample_position_monotone(total, target, a as nat, b as nat);
        }
        lemma_dedup(s);
        lemma_sample_position_first(total, target);
        assert forall|k: int| 0 <= k < r.len() implies #[trigger] r[k] < total by {
            assert(s.contains(r[k]));
            let j = choose|j: int| 0 <= j < s.len() && s[j] == r[k];
            assert(s[j] == sample_position(total, target, j as nat));
        }
    }
}

proof fn lemma_div_round_even_error(x: nat, y: nat)
    requires
        y > 0,
    ensures
        2 * div_round_even(x, y) * y + y >= 2 * x,
        2 * div_round_even(x, y) * y <= 2 * x + y,
{
    let q = x / y;
    let r = x % y;
    assert(x == q * y + r && 0 <= r < y) by (nonlinear_arith)
        requires
            y > 0,
            q == x / y,
            r == x % y,
    ;
    let m = div_round_even(x, y);
    if m == q + 1 {
        assert(2 * r >= y);
        assert(2 * m * y + y >= 2 * x && 2 * m * y <= 2 * x + y) by (nonlinear_arith)
            requires
                m == q + 1,
                x == q * y + r,
                0 <= r < y,
                2 * r >= y,
        ;
    } else {
        assert(2 * r <= y);
        assert(2 * m * y + y >= 2 * x && 2 * m * y <= 2 * x + y) by (nonlinear_arith)
            requires
                m == q,
                x == q * y + r,
                0 <= r < y,
                2 * r <= y,
        ;
    }
}

/// A whole number and its nearest double differ by at most half a unit in
/// the last of 53 bits.
proof fn lemma_rne_value_error(p: nat)
    requires
        p >= pow2(53),
    ensures
        2 * rne_value(p) + pow2((ilog2(p) - 52) as nat) >= 2 * p,
{
    lemma_double_of_nat_bounds(p);
    let j = (ilog2(p) - 52) as nat;
    lemma_pow2_pos(j);
    lemma_div_round_even_error(p, pow2(j));
    let m = double_of_nat(p).0;
    assert(2 * (m * pow2(j)) + pow2(j) >= 2 * p) by (nonlinear_arith)
        requires
            2 * m * pow2(j) + pow2(j) >= 2 * p,
    ;
}

/// For up to 2^51 labels the step is a mantissa `ms` times 2^-t, with
/// 2^t at least twice `target - 1`, and `(target - 1) * ms` within half of
/// `target - 1` of `(total - 1) * 2^t`.
proof fn lemma_step_shape(total: nat, target: nat) -> (t: nat)
    requires
        3 <= target < total <= pow2(51) + 1,
    ensures
        t >= 2,
        sample_step(total, target).1 == -t,
        pow2(t) >= 2 * (target - 1),
        2 * ((target - 1) * sample_step(total, target).0) + (target - 1)
            >= 2 * ((total - 1) * pow2(t)),
        2 * ((target - 1) * sample_step(total, target).0)
            <= 2 * ((total - 1) * pow2(t)) + (target - 1),
{
    let n = (total - 1) as nat;
    let d = (target - 1) as nat;
    lemma_pow2_128();
    lemma_pow2_strictly_increases(51, 53);
    lemma_pow2_adds(1, 51);
    assert(pow2(1) == 2) by {
        vstd::arithmetic::power2::lemma2_to64();
    }
    lemma_rne_value_bounds(n);
    lemma_rne_value_bounds(d);
    assert(double_of_nat(n) == (n, 0int));
    assert(double_of_nat(d) == (d, 0int));
    lemma_ratio_bounds(n, d);
    let sh = ratio_shift(n, d);
    let x = n * pow2(sh);
    let big_n = x / d;
    let k = ilog2(big_n);
    let j = (k - 52) as nat;
    let den = d * pow2(j);
    let ms = div_round_even(x, den);
    let step = sample_step(total, target);
    assert(step == (ms, k - 52 - sh));
    // k <= 50 + sh: big_n <= x / 2 <= 2^(50 + sh)
    lemma_pow2_adds(51, sh);
    lemma_pow2_adds(1, 50 + sh);
    assert(x <= pow2(51 + sh)) by (nonlinear_arith)
        requires
            n <= pow2(51),
            x == n * pow2(sh),
            pow2(51 + sh) == pow2(51) * pow2(sh),
    ;
    assert(big_n <= pow2(50 + sh)) by (nonlinear_arith)
        requires
            big_n == x / d,
            d >= 2,
            x <= pow2(51 + sh),
            pow2(51 + sh) == 2 * pow2(50 + sh),
    ;
    lemma_ilog2_bounds(big_n);
    if k > 50 + sh {
        lemma_pow2_mono(51 + sh, k);
    }
    let t = (sh + 52 - k) as nat;
    assert(t >= 2);
    assert(sh == t + j);
    // n * 2^t >= d * 2^52
    lemma_pow2_adds(t, j);
    lemma_pow2_adds(52, j);
    lemma_pow2_pos(j);
    lemma_pow2_pos(t);
    assert(x >= big_n * d) by (nonlinear_arith)
        requires
            big_n == x / d,
            d > 0,
    ;
    assert(x >= pow2(k) * d) by (nonlinear_arith)
        requires
            x >= big_n * d,
            big_n >= pow2(k),
    ;
    assert(k == 52 + j);
    assert(n * pow2(t) * pow2(j) >= d * pow2(52) * pow2(j)) by (nonlinear_arith)
        requires
            x == n * pow2(sh),
            pow2(sh) == pow2(t) * pow2(j),
            x >= pow2(k) * d,
            pow2(k) == pow2(52) * pow2(j),
    ;
    assert(n * pow2(t) >= d * pow2(52)) by (nonlinear_arith)
        requires
            n * pow2(t) * pow2(j) >= d * pow2(52) * pow2(j),
            pow2(j) > 0,
    ;
    // 2^t >= 2 * d, so d <= 2^(t - 1)
    lemma_pow2_adds(1, 51);
    assert(pow2(t) >= 2 * d) by (nonlinear_arith)
        requires
            n * pow2(t) >= d * pow2(52),
            n <= pow2(51),
            pow2(52) == 2 * pow2(51),
            pow2(51) > 0,
    ;
    lemma_pow2_unfold(t);
    let h = pow2((t - 1) as nat);
    assert(d <= h);
    // the product of d and the step mantissa
    assert(den > 0) by (nonlinear_arith)
        requires
            d > 0,
            pow2(j) > 0,
            den == d * pow2(j),
    ;
    lemma_div_round_even_error(x, den);
    let p = d * ms;
    assert(2 * p * pow2(j) + d * pow2(j) >= 2 * n * pow2(t) * pow2(j)
        && 2 * p * pow2(j) <= 2 * n * pow2(t) * pow2(j) + d * pow2(j)) by (nonlinear_arith)
        requires
            2 * ms * den + den >= 2 * x,
            2 * ms * den <= 2 * x + den,
            den == d * pow2(j),
            x == n * pow2(sh),
            pow2(sh) == pow2(t) * pow2(j),
            p == d * ms,
    ;
    assert(2 * p + d >= 2 * n * pow2(t) && 2 * p <= 2 * n * pow2(t) + d) by (nonlinear_arith)
        requires
            2 * p * pow2(j) + d * pow2(j) >= 2 * n * pow2(t) * pow2(j),
            2 * p * pow2(j) <= 2 * n * pow2(t) * pow2(j) + d * pow2(j),
            pow2(j) > 0,
    ;
    assert(2 * p + d >= 2 * (n * pow2(t)) && 2 * p <= 2 * (n * pow2(t)) + d) by (nonlinear_arith)
        requires
            2 * p + d >= 2 * n * pow2(t),
            2 * p <= 2 * n * pow2(t) + d,
    ;
    t
}

/// For up to 2^51 labels, the last sample falls on the last label.
proof fn lemma_last_sample(total: nat, target: nat)
    requires
        3 <= target < total <= pow2(51) + 1,
    ensures
        sample_position(total, target, (target - 1) as nat) == total - 1,
{
    let n = (total - 1) as nat;
    let d = (target - 1) as nat;
    let t = lemma_step_shape(total, target);
    let step = sample_step(total, target);
    let ms = step.0;
    let p = d * ms;
    lemma_pow2_128();
    lemma_pow2_adds(1, 51);
    assert(pow2(1) == 2) by {
        vstd::arithmetic::power2::lemma2_to64();
    }
    lemma_pow2_unfold(t);
    lemma_pow2_pos(t);
    let h = pow2((t - 1) as nat);
    assert(d <= h);
    assert(2 * p + d >= 2 * n * pow2(t) && 2 * p <= 2 * n * pow2(t) + d) by (nonlinear_arith)
        requires
            2 * p + d >= 2 * (n * pow2(t)),
            2 * p <= 2 * (n * pow2(t)) + d,
    ;
    lemma_rne_value_bounds(d);
    lemma_pow2_strictly_increases(51, 53);
    // G, the product rounded to a double, is at least n * 2^t - 2^(t - 1)
    let g = rne_value(p);
    lemma_rne_value_bounds(p);
    let a = n * pow2(t);
    assert(2 * n * pow2(t) == 2 * a) by (nonlinear_arith)
        requires
            a == n * pow2(t),
    ;
    if p >= pow2(53) {
        lemma_rne_value_error(p);
        lemma_double_of_nat_bounds(p);
        let jp = (ilog2(p) - 52) as nat;
        // p < 2^(52 + t), so jp <= t - 1
        lemma_pow2_adds(52, t);
        assert(a <= pow2(51) * pow2(t)) by (nonlinear_arith)
            requires
                a == n * pow2(t),
                n <= pow2(51),
        ;
        assert(pow2(52 + t) == 2 * (pow2(51) * pow2(t))) by (nonlinear_arith)
            requires
                pow2(52 + t) == pow2(52) * pow2(t),
                pow2(52) == 2 * pow2(51),
        ;
        lemma_pow2_mono(t, 52 + t);
        assert(2 * p < 2 * pow2(52 + t));
        lemma_ilog2_below(p, 52 + t);
        lemma_pow2_mono(jp, (t - 1) as nat);
        assert(2 * g >= 2 * a - 2 * h);
    } else {
        assert(g == p);
    }
    assert(g + h >= a);
    // rounding g * 2^-t gives at least n
    lemma_sample_rounding(d, step);
    assert(rne_value(d) == d);
    assert(round_half_up((g, -t)) == (g + h) / pow2(t));
    lemma_div_at_least(g + h, pow2(t), n);
}

/// Rounding with spacing `g` to the nearest multiple, ties to the even
/// multiple, reaches a threshold `b * gy` from a point `q` past one that
/// reached `a * gx`, when the spacing `gy` there is no finer, the threshold
/// lies `q` past the first, and `q` is an even multiple of `gx`.
proof fn lemma_round_reaches(x: nat, y: nat, gx: nat, gy: nat, q: nat, a: int, b: int, m: nat)
    requires
        0 < gx <= gy,
        q == 2 * m * gx,
        a * gx + q == b * gy,
        div_round_even(x, gx) * gx >= a * gx,
        y >= x + q,
    ensures
        div_round_even(y, gy) * gy >= b * gy,
{
    let dy = div_round_even(y, gy);
    let qy = y / gy;
    let ry = y % gy;
    assert(y == qy * gy + ry && 0 <= ry < gy) by (nonlinear_arith)
        requires
            gy > 0,
            qy == y / gy,
            ry == y % gy,
    ;
    lemma_div_round_even_bounds(y, gy);
    if b <= 0 {
        assert(dy * gy >= 0 && b * gy <= 0) by (nonlinear_arith)
            requires
                b <= 0,
                gy > 0,
        ;
    } else if y >= b * gy {
        assert(qy >= b) by (nonlinear_arith)
            requires
                y >= b * gy,
                y == qy * gy + ry,
                0 <= ry < gy,
        ;
        assert(dy * gy >= b * gy) by (nonlinear_arith)
            requires
                dy >= qy,
                qy >= b,
                gy > 0,
        ;
    } else {
        let dx = div_round_even(x, gx);
        let qx = x / gx;
        let rx = x % gx;
        assert(x == qx * gx + rx && 0 <= rx < gx) by (nonlinear_arith)
            requires
                gx > 0,
                qx == x / gx,
                rx == x % gx,
        ;
        lemma_div_round_even_bounds(x, gx);
        assert(dx >= a) by (nonlinear_arith)
            requires
                dx * gx >= a * gx,
                gx > 0,
        ;
        assert(x < a * gx) by (nonlinear_arith)
            requires
                y < b * gy,
                y >= x + q,
                a * gx + q == b * gy,
        ;
        assert(qx < a) by (nonlinear_arith)
            requires
                x < a * gx,
                x == qx * gx + rx,
                0 <= rx,
                gx > 0,
        ;
        assert(dx == qx + 1 && qx == a - 1);
        assert(2 * rx > gx || (2 * rx == gx && qx % 2 == 1));
        assert(2 * y >= 2 * (b * gy) - gx) by (nonlinear_arith)
            requires
                x == qx * gx + rx,
                qx == a - 1,
                2 * rx >= gx,
                y >= x + q,
                a * gx + q == b * gy,
        ;
        assert(qy == b - 1) by (nonlinear_arith)
            requires
                y < b * gy,
                2 * y >= 2 * (b * gy) - gx,
                gx <= gy,
                y == qy * gy + ry,
                0 <= ry < gy,
        ;
        assert(2 * ry >= gy) by (nonlinear_arith)
            requires
                2 * y >= 2 * (b * gy) - gx,
                gx <= gy,
                y == qy * gy + ry,
                qy == b - 1,
        ;
        if 2 * ry == gy {
            assert(gx == gy) by (nonlinear_arith)
                requires
                    2 * ry == gy,
                    y == qy * gy + ry,
                    qy == b - 1,
                    2 * y >= 2 * (b * gy) - gx,
                    gx <= gy,
            ;
            assert(2 * y == 2 * (b * gx) - gx) by (nonlinear_arith)
                requires
                    gx == gy,
                    2 * ry == gy,
                    y == qy * gy + ry,
                    qy == b - 1,
            ;
            assert(2 * x <= 2 * (a * gx) - gx) by (nonlinear_arith)
                requires
                    2 * y == 2 * (b * gx) - gx,
                    gx == gy,
                    y >= x + q,
                    a * gx + q == b * gy,
            ;
            assert(2 * rx <= gx) by (nonlinear_arith)
                requires
                    2 * x <= 2 * (a * gx) - gx,
                    x == qx * gx + rx,
                    qx == a - 1,
            ;
            assert(b == a + 2 * m) by (nonlinear_arith)
                requires
                    gx == gy,
                    gx > 0,
                    q == 2 * m * gx,
                    a * gx + q == b * gy,
            ;
            assert(qy == qx + 2 * m);
            assert(qy % 2 == 1);
        }
        assert(dy == b);
        assert(dy * gy >= b * gy);
    }
}

/// The exponent of the spacing between the doubles around the whole number `z`.
spec fn spacing_exp(z: nat) -> nat {
    if z < pow2(53) {
        0
    } else {
        (ilog2(z) - 52) as nat
    }
}

/// A whole number rounds to the nearest multiple of its spacing.
proof fn lemma_rne_spacing(z: nat)
    ensures
        rne_value(z) == div_round_even(z, pow2(spacing_exp(z))) * pow2(spacing_exp(z)),
{
    lemma_pow2_pos(0);
    assert(pow2(0) == 1) by {
        vstd::arithmetic::power2::lemma2_to64();
    }
    if z < pow2(53) {
        assert(double_of_nat(z) == (z, 0int));
        assert(z / 1 == z && z % 1 == 0) by (nonlinear_arith);
        assert(div_round_even(z, 1) == z);
    }
}

/// The spacing grows with the number and stays below 2^(t - 1) under 2^(52 + t).
proof fn lemma_spacing_exp_bounds(x: nat, y: nat, t: nat)
    requires
        x <= y < pow2(52 + t),
        t >= 1,
    ensures
        spacing_exp(x) <= spacing_exp(y),
        spacing_exp(y) + 1 <= t,
{
    lemma_pow2_pos(53);
    lemma_double_of_nat_bounds(x);
    lemma_double_of_nat_bounds(y);
    if y >= pow2(53) {
        lemma_ilog2_below(y, 52 + t);
        if x >= pow2(53) {
            lemma_ilog2_bounds(x);
            lemma_ilog2_bounds(y);
            if ilog2(x) > ilog2(y) {
                lemma_pow2_mono(ilog2(y) + 1, ilog2(x));
            }
        }
    }
}

/// The unrounded position of the `i`-th sample: `i * step` rounded half up.
spec fn raw_sample(total: nat, target: nat, i: nat) -> nat {
    round_half_up(double_mul(double_of_nat(i), sample_step(total, target)))
}

/// For up to 2^51 labels, the `i`-th raw sample is `i * ms` rounded to a
/// double and then to a whole number of 2^t.
proof fn lemma_raw_sample(total: nat, target: nat, i: nat, t: nat)
    requires
        3 <= target < total <= pow2(51) + 1,
        i < target,
        t >= 1,
        sample_step(total, target).1 == -t,
    ensures
        raw_sample(total, target, i) == (rne_value(i * sample_step(total, target).0)
            + pow2((t - 1) as nat)) / pow2(t),
{
    let step = sample_step(total, target);
    lemma_sample_rounding(i, step);
    lemma_pow2_128();
    lemma_pow2_strictly_increases(51, 53);
    lemma_rne_value_bounds(i);
    assert(rne_value(i) == i);
}

/// Products up to `d * ms` stay below 2^(52 + t), where the spacing of
/// doubles is at most 2^(t - 1).
proof fn lemma_below_spacing_limit(n: nat, d: nat, ms: nat, qq: nat, t: nat, z: nat)
    requires
        z <= d * ms,
        2 * (d * ms) <= 2 * (n * qq) + d,
        n <= pow2(51),
        qq == pow2(t),
        qq >= 2 * d,
        d >= 2,
    ensures
        z < pow2(52 + t),
{
    lemma_pow2_128();
    lemma_pow2_adds(52, t);
    lemma_pow2_adds(1, 51);
    assert(pow2(1) == 2) by {
        vstd::arithmetic::power2::lemma2_to64();
    }
    let big = pow2(51) * qq;
    assert(n * qq <= big) by (nonlinear_arith)
        requires
            n <= pow2(51),
            big == pow2(51) * qq,
    ;
    assert(qq <= big) by (nonlinear_arith)
        requires
            pow2(51) >= 1,
            big == pow2(51) * qq,
    ;
    assert(pow2(52 + t) == 2 * big) by (nonlinear_arith)
        requires
            pow2(52 + t) == pow2(52) * pow2(t),
            pow2(52) == 2 * pow2(51),
            qq == pow2(t),
            big == pow2(51) * qq,
    ;
}

/// Between consecutive samples the raw position advances by at least one.
proof fn lemma_raw_sample_step(total: nat, target: nat, i: nat)
    requires
        3 <= target < total <= pow2(51) + 1,
        i + 1 < target,
    ensures
        raw_sample(total, target, i) + 1 <= raw_sample(total, target, i + 1),
{
    let n = (total - 1) as nat;
    let d = (target - 1) as nat;
    let t = lemma_step_shape(total, target);
    let ms = sample_step(total, target).0;
    let qq = pow2(t);
    let h = pow2((t - 1) as nat);
    lemma_pow2_unfold(t);
    lemma_pow2_pos((t - 1) as nat);
    assert(qq == 2 * h);
    lemma_raw_sample(total, target, i, t);
    lemma_raw_sample(total, target, i + 1, t);
    // the step mantissa exceeds 2^t
    assert(ms > qq) by (nonlinear_arith)
        requires
            2 * (d * ms) + d >= 2 * (n * qq),
            n >= d + 1,
            qq >= 2 * d,
            d >= 2,
    ;
    let x = i * ms;
    let y = (i + 1) * ms;
    assert(y == x + ms) by (nonlinear_arith)
        requires
            x == i * ms,
            y == (i + 1) * ms,
    ;
    // y stays below 2^(52 + t)
    lemma_pow2_128();
    lemma_pow2_adds(52, t);
    lemma_pow2_adds(1, 51);
    assert(pow2(1) == 2) by {
        vstd::arithmetic::power2::lemma2_to64();
    }
    assert(y <= d * ms) by (nonlinear_arith)
        requires
            y == (i + 1) * ms,
            i + 1 <= d,
    ;
    lemma_below_spacing_limit(n, d, ms, qq, t, y);
    lemma_spacing_exp_bounds(x, y, t);
    let ex = spacing_exp(x);
    let ey = spacing_exp(y);
    let gx = pow2(ex);
    let gy = pow2(ey);
    lemma_pow2_mono(ex, ey);
    lemma_pow2_pos(ex);
    lemma_rne_spacing(x);
    lemma_rne_spacing(y);
    // h and 2^t as multiples of the spacings
    let ux = pow2((t - 1 - ex) as nat);
    let uy = pow2((t - 1 - ey) as nat);
    lemma_pow2_adds(ex, (t - 1 - ex) as nat);
    lemma_pow2_adds(ey, (t - 1 - ey) as nat);
    assert(h == gx * ux);
    assert(h == gy * uy);
    let c = raw_sample(total, target, i);
    let gxv = rne_value(x);
    assert(c * qq <= gxv + h) by (nonlinear_arith)
        requires
            c == (gxv + h) / qq,
            qq > 0,
    ;
    let a: int = (2 * c - 1) * ux;
    let b: int = ((2 * c + 1) * uy) as int;
    assert(a * gx == c * qq - h && b * gy == c * qq + h) by (nonlinear_arith)
        requires
            a == (2 * c - 1) * ux,
            b == (2 * c + 1) * uy,
            h == gx * ux,
            h == gy * uy,
            qq == 2 * h,
    ;
    assert(qq == 2 * ux * gx) by (nonlinear_arith)
        requires
            qq == 2 * h,
            h == gx * ux,
    ;
    lemma_round_reaches(x, y, gx, gy, qq, a, b, ux);
    let gyv = rne_value(y);
    assert(gyv + h >= (c + 1) * qq) by (nonlinear_arith)
        requires
            gyv >= c * qq + h,
            qq == 2 * h,
    ;
    lemma_div_at_least(gyv + h, qq, c + 1);
}

/// The raw position of the next-to-last sample comes before the last label.
proof fn lemma_raw_sample_before_last(total: nat, target: nat)
    requires
        3 <= target < total <= pow2(51) + 1,
    ensures
        raw_sample(total, target, (target - 2) as nat) < total - 1,
{
    let n = (total - 1) as nat;
    let d = (target - 1) as nat;
    let t = lemma_step_shape(total, target);
    let ms = sample_step(total, target).0;
    let qq = pow2(t);
    let h = pow2((t - 1) as nat);
    lemma_pow2_unfold(t);
    lemma_pow2_pos((t - 1) as nat);
    assert(qq == 2 * h);
    lemma_raw_sample(total, target, (d - 1) as nat, t);
    assert(ms > qq) by (nonlinear_arith)
        requires
            2 * (d * ms) + d >= 2 * (n * qq),
            n >= d + 1,
            qq >= 2 * d,
            d >= 2,
    ;
    let x = (d - 1) as nat * ms;
    assert(x + ms == d * ms) by (nonlinear_arith)
        requires
            x == (d - 1) * ms,
            d >= 1,
    ;
    lemma_pow2_128();
    lemma_pow2_adds(52, t);
    lemma_pow2_adds(1, 51);
    assert(pow2(1) == 2) by {
        vstd::arithmetic::power2::lemma2_to64();
    }
    lemma_below_spacing_limit(n, d, ms, qq, t, x);
    lemma_spacing_exp_bounds(x, x, t);
    let ex = spacing_exp(x);
    let gx = pow2(ex);
    lemma_pow2_pos(ex);
    lemma_pow2_mono(ex, (t - 1) as nat);
    lemma_rne_spacing(x);
    lemma_div_round_even_error(x, gx);
    let g = rne_value(x);
    assert(2 * g <= 2 * x + gx) by (nonlinear_arith)
        requires
            2 * div_round_even(x, gx) * gx <= 2 * x + gx,
            g == div_round_even(x, gx) * gx,
    ;
    assert(g + h < n * qq) by (nonlinear_arith)
        requires
            2 * g <= 2 * x + gx,
            gx <= h,
            x + ms == d * ms,
            2 * (d * ms) <= 2 * (n * qq) + d,
            ms > qq,
            qq == 2 * h,
            2 * d <= qq,
    ;
    assert(n * qq == qq * n) by (nonlinear_arith);
    lemma_div_below(g + h, qq, n);
    assert((d - 1) as nat == (target - 2) as nat);
}

/// The raw positions never decrease.
proof fn lemma_raw_sample_monotone(total: nat, target: nat, i1: nat, i2: nat)
    requires
        i1 <= i2,
    ensures
        raw_sample(total, target, i1) <= raw_sample(total, target, i2),
{
    let step = sample_step(total, target);
    lemma_sample_rounding(i1, step);
    lemma_sample_rounding(i2, step);
    lemma_rne_value_monotone(i1, i2);
    assert(rne_value(i1) * step.0 <= rne_value(i2) * step.0) by (nonlinear_arith)
        requires
            rne_value(i1) <= rne_value(i2),
    ;
    lemma_rne_value_monotone(rne_value(i1) * step.0, rne_value(i2) * step.0);
    lemma_round_half_up_monotone(rne_value(rne_value(i1) * step.0), rne_value(rne_value(i2) * step.0), step.1);
}

/// Dropping repeats keeps a strictly increasing sequence whole.
proof fn lemma_dedup_increasing(s: Seq<nat>)
    requires
        forall|k: int| 0 <= k < s.len() - 1 ==> #[trigger] s[k] < s[k + 1],
    ensures
        dedup(s).len() == s.len(),
    decreases s.len(),
{
    if s.len() > 0 {
        let t = s.drop_last();
        assert forall|k: int| 0 <= k < t.len() - 1 implies #[trigger] t[k] < t[k + 1] by {
            assert(s[k] < s[k + 1]);
        }
        lemma_dedup_increasing(t);
        lemma_dedup(t);
        if t.len() > 0 {
            assert(s[t.len() - 1] < s[t.len() as int]);
        }
    }
}

/// For up to 2^51 + 1 labels, the spread samples are all distinct.
proof fn lemma_samples_distinct(total: nat, target: nat)
    requires
        3 <= target < total <= pow2(51) + 1,
    ensures
        spec_strategic_indices(total, target).len() == target,
{
    let n = (total - 1) as nat;
    let f = |i: int| sample_position(total, target, i as nat);
    let s = Seq::new(target, f);
    lemma_raw_sample_before_last(total, target);
    lemma_last_sample(total, target);
    assert forall|k: int| 0 <= k < s.len() - 1 implies #[trigger] s[k] < s[k + 1] by {
        lemma_raw_sample_step(total, target, k as nat);
        lemma_raw_sample_monotone(total, target, k as nat, (target - 2) as nat);
        if k + 1 < target - 1 {
            lemma_raw_sample_monotone(total, target, (k + 1) as nat, (target - 2) as nat);
        }
        assert(s[k] == sample_position(total, target, k as nat));
        assert(s[k + 1] == sample_position(total, target, (k + 1) as nat));
    }
    lemma_dedup_increasing(s);
}

/// For up to 2^51 + 1 labels, as many labels are shown as fit (at least
/// two), but never more than there are.
pub proof fn lemma_strategic_indices_count(total: nat, target: nat)
    requires
        total <= pow2(51) + 1,
    ensures
        spec_strategic_indices(total, target).len() == if target >= 2 {
            if total < target { total } else { target }
        } else {
            if total < 2 { total } else { 2 }
        },
{
    if total > 0 && target < total && target > 2 {
        lemma_samples_distinct(total, target);
    }
}

/// The sampled labels end with the last label when there are at most
/// 2^51 + 1 of them.
pub proof fn lemma_strategic_indices_last(total: nat, target: nat)
    requires
        1 <= total <= pow2(51) + 1,
    ensures
        spec_strategic_indices(total, target).len() > 0,
        spec_strategic_indices(total, target).last() == total - 1,
{
    lemma_strategic_indices_shape(total, target);
    if target < total && target > 2 {
        let f = |i: int| sample_position(total, target, i as nat);
        let s = Seq::new(target, f);
        lemma_dedup(s);
        lemma_last_sample(total, target);
        assert(s.last() == sample_position(total, target, (target - 1) as nat));
    }
}

} // verus!
