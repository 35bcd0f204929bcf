//! Experience and leveling mathematics.
//!
//! The experience a character must gather to advance from `level` to
//! `level + 1` is the integer part of `200 * 1.07^level`, computed exactly
//! as `200 * 107^level / 100^level` over the integers.

use vstd::prelude::*;

verus! {

use vstd::arithmetic::power::pow;
use vstd::arithmetic::power::lemma_pow_positive;
use vstd::arithmetic::div_mod::lemma_fundamental_div_mod;
use vstd::arithmetic::div_mod::lemma_div_is_ordered;
use vstd::arithmetic::div_mod::lemma_div_multiples_vanish;
use vstd::arithmetic::div_mod::lemma_fundamental_div_mod_converse_div;

/// Highest level at which [`exp_needed_for_level`] can be evaluated; the
/// requirement for this level still fits in a `u64`.
pub const LEVEL_LIMIT: u32 = 560;

/// Highest level a character may hold; chosen so that one more deposit of
/// experience still keeps every intermediate level below [`LEVEL_LIMIT`].
pub const MAX_LEVEL: u32 = 550;

/// Experience required to advance from `level` to the next level:
/// the integer part of `200 * 1.07^level`.
pub open spec fn spec_exp_required(level: nat) -> int {
    200 * pow(107, level) / pow(100, level)
}

/// Resolving a deposit: while the accumulated experience covers the
/// requirement of the current level, consume it and advance one level.
/// Returns the final `(level, leftover)`.
pub open spec fn spec_apply_exp(level: nat, total: nat) -> (nat, nat)
    decreases total,
{
    let req = spec_exp_required(level);
    if req <= 0 || total < req {
        (level, total)
    } else {
        spec_apply_exp(level + 1, (total - req) as nat)
    }
}

pub open spec fn spec_final_level(level: nat, total: nat) -> nat {
    spec_apply_exp(level, total).0
}

pub open spec fn spec_final_leftover(level: nat, total: nat) -> nat {
    spec_apply_exp(level, total).1
}

/// The two smallest requirements, 200 and 214, written out.
pub proof fn lemma_exp_required_base()
    ensures
        spec_exp_required(0) == 200,
        spec_exp_required(1) == 214,
{
    vstd::arithmetic::power::lemma_pow0(107);
    vstd::arithmetic::power::lemma_pow0(100);
    vstd::arithmetic::power::lemma_pow1(107);
    vstd::arithmetic::power::lemma_pow1(100);
    lemma_fundamental_div_mod_converse_div(200, 1, 200, 0);
    lemma_fundamental_div_mod_converse_div(21400, 100, 214, 0);
}

/// The requirement for the next level is always at least 14 points above the
/// requirement for the current one, and the base requirement is 200.
pub proof fn lemma_exp_required_step(n: nat)
    ensures
        spec_exp_required(n) >= 200,
        spec_exp_required(n + 1) >= spec_exp_required(n) + 14,
    decreases n,
{
    if n == 0 {
        lemma_exp_required_base();
    } else {
        lemma_exp_required_step((n - 1) as nat);
    }
    lemma_exp_required_unfold(n);
}

/// One step of the geometric growth: from `q = 200*107^n / 100^n >= 200`
/// conclude `200*107^(n+1) / 100^(n+1) >= q + 14`.
proof fn lemma_exp_required_unfold(n: nat)
    requires
        spec_exp_required(n) >= 200,
    ensures
        spec_exp_required(n + 1) >= spec_exp_required(n) + 14,
{
    let np = pow(107, n);
    let dp = pow(100, n);
    lemma_pow_positive(107, n);
    lemma_pow_positive(100, n);
    let q = spec_exp_required(n);
    let x = 200 * np;
    lemma_fundamental_div_mod(x, dp);
    let r = x % dp;
    assert(x == dp * q + r);
    assert(0 <= r < dp);
    vstd::arithmetic::power::lemma_pow_adds(107, n, 1);
    vstd::arithmetic::power::lemma_pow_adds(100, n, 1);
    vstd::arithmetic::power::lemma_pow1(107);
    vstd::arithmetic::power::lemma_pow1(100);
    assert(pow(107, n + 1) == np * 107);
    assert(pow(100, n + 1) == dp * 100);
    assert(spec_exp_required(n + 1) == (200 * (np * 107)) / (dp * 100));
    assert(200 * (np * 107) == 107 * x) by (nonlinear_arith)
        requires
            x == 200 * np,
    ;
    assert(dp * 100 == 100 * dp);
    assert(107 * x == 107 * (dp * q + r));
    assert(107 * (dp * q + r) >= (100 * dp) * (q + 14)) by (nonlinear_arith)
        requires
            q >= 200,
            r >= 0,
            dp > 0,
            x == dp * q + r,
    ;
    lemma_div_is_ordered((100 * dp) * (q + 14), 107 * x, 100 * dp);
    lemma_div_multiples_vanish(q + 14, 100 * dp);
    assert(((100 * dp) * (q + 14)) / (100 * dp) == q + 14);
}

/// The experience requirement is strictly increasing in the level.
/// (It is deterministic by construction: `spec_exp_required` is a function
/// of the level alone.)
pub proof fn lemma_exp_required_strictly_increasing(l1: nat, l2: nat)
    requires
        l1 < l2,
    ensures
        spec_exp_required(l1) < spec_exp_required(l2),
    decreases l2 - l1,
{
    lemma_exp_required_step(l1);
    if l1 + 1 < l2 {
        lemma_exp_required_strictly_increasing(l1 + 1, l2);
    }
}

/// Weak monotonicity, convenient at equal levels.
pub proof fn lemma_exp_required_increasing(l1: nat, l2: nat)
    requires
        l1 <= l2,
    ensures
        spec_exp_required(l1) <= spec_exp_required(l2),
{
    if l1 < l2 {
        lemma_exp_required_strictly_increasing(l1, l2);
    }
}

/// Small powers of 107 and 100, written out.
proof fn lemma_pow_literals()
    ensures
        pow(107, 10) == 196715135728956532249,
        pow(107, 11) == 21048519522998348950643,
        pow(100, 10) == 100000000000000000000,
        pow(100, 11) == 10000000000000000000000,
{
    reveal_with_fuel(pow, 12);
    assert(pow(107, 1) == 107);
    assert(pow(107, 2) == 11449);
    assert(pow(107, 3) == 1225043);
    assert(pow(107, 4) == 131079601);
    assert(pow(107, 5) == 14025517307);
    assert(pow(107, 6) == 1500730351849);
    assert(pow(107, 7) == 160578147647843);
    assert(pow(107, 8) == 17181861798319201);
    assert(pow(107, 9) == 1838459212420154507);
    assert(pow(107, 10) == 196715135728956532249);
    assert(pow(107, 11) == 21048519522998348950643);
    assert(pow(100, 1) == 100);
    assert(pow(100, 2) == 10000);
    assert(pow(100, 3) == 1000000);
    assert(pow(100, 4) == 100000000);
    assert(pow(100, 5) == 10000000000);
    assert(pow(100, 6) == 1000000000000);
    assert(pow(100, 7) == 100000000000000);
    assert(pow(100, 8) == 10000000000000000);
    assert(pow(100, 9) == 1000000000000000000);
    assert(pow(100, 10) == 100000000000000000000);
    assert(pow(100, 11) == 10000000000000000000000);
}

/// `pow` is monotone in a nonnegative base.
proof fn lemma_pow_base_increases(a: int, b: int, e: nat)
    requires
        0 <= a <= b,
    ensures
        pow(a, e) <= pow(b, e),
    decreases e,
{
    if e > 0 {
        let em = (e - 1) as nat;
        lemma_pow_base_increases(a, b, em);
        vstd::arithmetic::power::lemma_pow_adds(a, em, 1);
        vstd::arithmetic::power::lemma_pow_adds(b, em, 1);
        vstd::arithmetic::power::lemma_pow1(a);
        vstd::arithmetic::power::lemma_pow1(b);
        assert(pow(a, e) == pow(a, em) * a);
        assert(pow(b, e) == pow(b, em) * b);
        if a == 0 {
            vstd::arithmetic::power::lemma0_pow(e);
            if b > 0 {
                lemma_pow_positive(b, e);
            } else {
                vstd::arithmetic::power::lemma0_pow(e);
            }
        } else {
            lemma_pow_positive(a, em);
            lemma_pow_positive(b, em);
            assert(pow(a, em) * a <= pow(b, em) * b) by (nonlinear_arith)
                requires
                    0 < a <= b,
                    0 < pow(a, em) <= pow(b, em),
            ;
        }
    } else {
        vstd::arithmetic::power::lemma_pow0(a);
        vstd::arithmetic::power::lemma_pow0(b);
    }
}

/// Growth in chunks of ten levels: `107^(10k) <= 2^k * 100^(10k)`.
proof fn lemma_pow107_upper(k: nat)
    ensures
        pow(107, 10 * k) <= pow(2, k) * pow(100, 10 * k),
    decreases k,
{
    vstd::arithmetic::power::lemma_pow0(107);
    vstd::arithmetic::power::lemma_pow0(2);
    vstd::arithmetic::power::lemma_pow0(100);
    if k > 0 {
        let km = (k - 1) as nat;
        lemma_pow107_upper(km);
        lemma_pow_literals();
        vstd::arithmetic::power::lemma_pow_adds(107, 10 * km, 10);
        vstd::arithmetic::power::lemma_pow_adds(100, 10 * km, 10);
        vstd::arithmetic::power::lemma_pow_adds(2, km, 1);
        vstd::arithmetic::power::lemma_pow1(2);
        lemma_pow_positive(107, 10 * km);
        lemma_pow_positive(100, 10 * km);
        lemma_pow_positive(2, km);
        assert(10 * k == 10 * km + 10);
        assert(pow(107, 10 * km) * pow(107, 10) <= (pow(2, km) * pow(100, 10 * km)) * (2
            * pow(100, 10))) by (nonlinear_arith)
            requires
                0 < pow(107, 10 * km) <= pow(2, km) * pow(100, 10 * km),
                0 < pow(107, 10) <= 2 * pow(100, 10),
                0 < pow(2, km),
                0 < pow(100, 10 * km),
                0 < pow(100, 10),
        ;
        assert((pow(2, km) * pow(100, 10 * km)) * (2 * pow(100, 10)) == (pow(2, km) * 2) * (pow(
            100,
            10 * km,
        ) * pow(100, 10))) by (nonlinear_arith);
    }
}

/// Growth in chunks of eleven levels: `107^(11k) >= 2^k * 100^(11k)`.
proof fn lemma_pow107_lower(k: nat)
    ensures
        pow(107, 11 * k) >= pow(2, k) * pow(100, 11 * k),
    decreases k,
{
    vstd::arithmetic::power::lemma_pow0(107);
    vstd::arithmetic::power::lemma_pow0(2);
    vstd::arithmetic::power::lemma_pow0(100);
    if k > 0 {
        let km = (k - 1) as nat;
        lemma_pow107_lower(km);
        lemma_pow_literals();
        vstd::arithmetic::power::lemma_pow_adds(107, 11 * km, 11);
        vstd::arithmetic::power::lemma_pow_adds(100, 11 * km, 11);
        vstd::arithmetic::power::lemma_pow_adds(2, km, 1);
        vstd::arithmetic::power::lemma_pow1(2);
        lemma_pow_positive(107, 11 * km);
        lemma_pow_positive(100, 11 * km);
        lemma_pow_positive(2, km);
        assert(11 * k == 11 * km + 11);
        assert(pow(107, 11 * km) * pow(107, 11) >= (pow(2, km) * pow(100, 11 * km)) * (2
            * pow(100, 11))) by (nonlinear_arith)
            requires
                pow(107, 11 * km) >= pow(2, km) * pow(100, 11 * km),
                pow(107, 11) >= 2 * pow(100, 11),
                0 < pow(2, km),
                0 < pow(100, 11 * km),
                0 < pow(100, 11),
                0 < pow(107, 11 * km),
        ;
        assert((pow(2, km) * pow(100, 11 * km)) * (2 * pow(100, 11)) == (pow(2, km) * 2) * (pow(
            100,
            11 * km,
        ) * pow(100, 11))) by (nonlinear_arith);
    }
}

/// Up to [`LEVEL_LIMIT`] the requirement fits in a `u64`.
pub proof fn lemma_exp_required_fits(n: nat)
    requires
        n <= 560,
    ensures
        spec_exp_required(n) <= 0xc800000000000000,
        spec_exp_required(n) < 0x10000000000000000,
{
    lemma_exp_required_increasing(n, 560);
    lemma_pow107_upper(56);
    vstd::arithmetic::power2::lemma_pow2(56);
    vstd::arithmetic::power2::lemma2_to64_rest();
    let p7 = pow(107, 560);
    let p0 = pow(100, 560);
    lemma_pow_positive(100, 560);
    assert(pow(2, 56) == 0x100000000000000);
    assert(p7 <= 0x100000000000000 * p0);
    assert(200 * p7 <= 200 * (0x100000000000000 * p0)) by (nonlinear_arith)
        requires
            p7 <= 0x100000000000000 * p0,
    ;
    assert(200 * (0x100000000000000 * p0) == p0 * 0xc800000000000000) by (nonlinear_arith);
    lemma_div_is_ordered(200 * p7, p0 * 0xc800000000000000, p0);
    lemma_div_multiples_vanish(0xc800000000000000, p0);
    assert(spec_exp_required(560) <= 0xc800000000000000);
}

/// From level 308 on, the requirement is at least `200 * 2^28`, which is
/// beyond any sum of a `u64` leftover below the requirement and a `u32` gain.
pub proof fn lemma_exp_required_big(n: nat)
    requires
        n >= 308,
    ensures
        spec_exp_required(n) >= 0xC80000000,
{
    lemma_exp_required_increasing(308, n);
    lemma_pow107_lower(28);
    vstd::arithmetic::power2::lemma_pow2(28);
    vstd::arithmetic::power2::lemma2_to64();
    lemma_exp_required_base();
    let p7 = pow(107, 308);
    let p0 = pow(100, 308);
    lemma_pow_positive(100, 308);
    assert(pow(2, 28) == 0x10000000);
    assert(p7 >= 0x10000000 * p0);
    assert(200 * p7 >= p0 * 0xC80000000) by (nonlinear_arith)
        requires
            p7 >= 0x10000000 * p0,
            p0 > 0,
    ;
    lemma_div_is_ordered(p0 * 0xC80000000, 200 * p7, p0);
    lemma_div_multiples_vanish(0xC80000000, p0);
}

/// A nonnegative integer written in base 100, least significant digit first.
pub open spec fn digits_wf(s: Seq<u32>) -> bool {
    forall|i: int| 0 <= i < s.len() ==> s[i] < 100
}

/// The integer a base-100 digit sequence denotes.
pub open spec fn digits_val(s: Seq<u32>) -> int
    decreases s.len(),
{
    if s.len() == 0 {
        0
    } else {
        s[0] + 100 * digits_val(s.subrange(1, s.len() as int))
    }
}

proof fn lemma_digits_val_push(s: Seq<u32>, d: u32)
    ensures
        digits_val(s.push(d)) == digits_val(s) + d * pow(100, s.len()),
    decreases s.len(),
{
    let t = s.push(d);
    if s.len() == 0 {
        assert(t.subrange(1, 1) =~= Seq::<u32>::empty());
        vstd::arithmetic::power::lemma_pow0(100);
        assert(digits_val(t) == d + 100 * digits_val(t.subrange(1, 1)));
    } else {
        let ssub = s.subrange(1, s.len() as int);
        assert(t.subrange(1, t.len() as int) =~= ssub.push(d));
        lemma_digits_val_push(ssub, d);
        vstd::arithmetic::power::lemma_pow_adds(100, (s.len() - 1) as nat, 1);
        vstd::arithmetic::power::lemma_pow1(100);
        let pm = pow(100, (s.len() - 1) as nat);
        assert(pow(100, s.len()) == pm * 100);
        assert(t[0] == s[0]);
        assert(digits_val(t) == s[0] + 100 * digits_val(ssub.push(d)));
        assert(digits_val(ssub.push(d)) == digits_val(ssub) + d * pm);
        assert(digits_val(s) == s[0] + 100 * digits_val(ssub));
        assert(s[0] + 100 * (digits_val(ssub) + d * pm) == (s[0] + 100 * digits_val(ssub)) + d * (
        pm * 100)) by (nonlinear_arith);
    }
}

proof fn lemma_digits_val_nonneg(s: Seq<u32>)
    ensures
        digits_val(s) >= 0,
    decreases s.len(),
{
    if s.len() > 0 {
        lemma_digits_val_nonneg(s.subrange(1, s.len() as int));
    }
}

proof fn lemma_digits_val_bound(s: Seq<u32>)
    requires
        digits_wf(s),
    ensures
        0 <= digits_val(s) < pow(100, s.len()),
    decreases s.len(),
{
    if s.len() == 0 {
        vstd::arithmetic::power::lemma_pow0(100);
    } else {
        let rest = s.subrange(1, s.len() as int);
        lemma_digits_val_bound(rest);
        vstd::arithmetic::power::lemma_pow_adds(100, (s.len() - 1) as nat, 1);
        vstd::arithmetic::power::lemma_pow1(100);
        let pm = pow(100, (s.len() - 1) as nat);
        assert(s[0] + 100 * digits_val(rest) < pm * 100) by (nonlinear_arith)
            requires
                0 <= s[0] < 100,
                0 <= digits_val(rest) < pm,
        ;
    }
}

/// Splitting a digit string at position `n` splits its value.
proof fn lemma_digits_val_split(s: Seq<u32>, n: int)
    requires
        0 <= n <= s.len(),
    ensures
        digits_val(s) == digits_val(s.subrange(0, n)) + pow(100, n as nat) * digits_val(
            s.subrange(n, s.len() as int),
        ),
    decreases n,
{
    if n == 0 {
        assert(s.subrange(0, 0) =~= Seq::<u32>::empty());
        assert(s.subrange(0, s.len() as int) =~= s);
        vstd::arithmetic::power::lemma_pow0(100);
        lemma_digits_val_nonneg(s);
    } else {
        lemma_digits_val_split(s, n - 1);
        let low = s.subrange(0, n - 1);
        let lown = s.subrange(0, n);
        let high = s.subrange(n - 1, s.len() as int);
        let highn = s.subrange(n, s.len() as int);
        assert(lown =~= low.push(s[n - 1]));
        lemma_digits_val_push(low, s[n - 1]);
        assert(high.subrange(1, high.len() as int) =~= highn);
        assert(digits_val(high) == s[n - 1] + 100 * digits_val(highn));
        vstd::arithmetic::power::lemma_pow_adds(100, (n - 1) as nat, 1);
        vstd::arithmetic::power::lemma_pow1(100);
        let pm = pow(100, (n - 1) as nat);
        assert(pm * (s[n - 1] + 100 * digits_val(highn)) == s[n - 1] * pm + (pm * 100)
            * digits_val(highn)) by (nonlinear_arith);
    }
}

/// Dropping the `n` lowest digits divides the value by `100^n`.
proof fn lemma_digits_val_quotient(s: Seq<u32>, n: int)
    requires
        digits_wf(s),
        0 <= n <= s.len(),
    ensures
        digits_val(s) / pow(100, n as nat) == digits_val(s.subrange(n, s.len() as int)),
{
    lemma_digits_val_split(s, n);
    let low = s.subrange(0, n);
    let high = s.subrange(n, s.len() as int);
    assert(digits_wf(low));
    lemma_digits_val_bound(low);
    lemma_pow_positive(100, n as nat);
    lemma_fundamental_div_mod_converse_div(
        digits_val(s),
        pow(100, n as nat),
        digits_val(high),
        digits_val(low),
    );
}

/// Multiply a base-100 digit string by 107, carrying as needed.
fn mul_digits_107(a: &Vec<u32>) -> (r: Vec<u32>)
    requires
        digits_wf(a@),
    ensures
        digits_wf(r@),
        digits_val(r@) == 107 * digits_val(a@),
{
    let mut out: Vec<u32> = Vec::new();
    let mut carry: u32 = 0;
    let mut i: usize = 0;
    proof {
        assert(a@.subrange(0, 0) =~= Seq::<u32>::empty());
        vstd::arithmetic::power::lemma_pow0(100);
    }
    while i < a.len()
        invariant
            digits_wf(a@),
            i <= a@.len(),
            out@.len() == i,
            digits_wf(out@),
            carry <= 106,
            digits_val(out@) + carry * pow(100, i as nat) == 107 * digits_val(
                a@.subrange(0, i as int),
            ),
        decreases a@.len() - i,
    {
        let ghost prev_out = out@;
        let ghost prev_carry = carry;
        let t: u32 = 107 * a[i] + carry;
        out.push(t % 100);
        carry = t / 100;
        proof {
            let p = pow(100, i as nat);
            lemma_pow_positive(100, i as nat);
            lemma_digits_val_push(prev_out, t % 100);
            assert(a@.subrange(0, i + 1) =~= a@.subrange(0, i as int).push(a@[i as int]));
            lemma_digits_val_push(a@.subrange(0, i as int), a@[i as int]);
            vstd::arithmetic::power::lemma_pow_adds(100, i as nat, 1);
            vstd::arithmetic::power::lemma_pow1(100);
            assert(t == (t % 100) + 100 * (t / 100));
            assert(digits_val(prev_out) + (t as int) * p == 107 * digits_val(
                a@.subrange(0, i as int),
            ) + (107 * a@[i as int]) * p) by (nonlinear_arith)
                requires
                    digits_val(prev_out) + prev_carry * p == 107 * digits_val(
                        a@.subrange(0, i as int),
                    ),
                    t == 107 * a@[i as int] + prev_carry,
            ;
            assert(digits_val(prev_out.push((t % 100) as u32)) + (t / 100) * (p * 100)
                == digits_val(prev_out) + (t as int) * p) by (nonlinear_arith)
                requires
                    digits_val(prev_out.push((t % 100) as u32)) == digits_val(prev_out) + (t % 100)
                        * p,
                    t == (t % 100) + 100 * (t / 100),
            ;
            assert(107 * digits_val(a@.subrange(0, i + 1)) == 107 * digits_val(
                a@.subrange(0, i as int),
            ) + (107 * a@[i as int]) * p) by (nonlinear_arith)
                requires
                    digits_val(a@.subrange(0, i + 1)) == digits_val(a@.subrange(0, i as int))
                        + a@[i as int] * p,
            ;
        }
        i += 1;
    }
    proof {
        assert(a@.subrange(0, a@.len() as int) =~= a@);
    }
    let ghost flush_out = out@;
    let ghost flush_len = out@.len();
    if carry > 0 {
        let hi = carry / 100;
        let lo = carry % 100;
        out.push(lo);
        proof {
            lemma_digits_val_push(flush_out, lo);
        }
        if hi > 0 {
            out.push(hi);
            proof {
                lemma_digits_val_push(flush_out.push(lo), hi);
            }
        }
        proof {
            let p = pow(100, flush_len);
            vstd::arithmetic::power::lemma_pow_adds(100, flush_len, 1);
            vstd::arithmetic::power::lemma_pow1(100);
            assert(carry == lo + 100 * hi);
            assert((lo as int) * p + (hi as int) * (p * 100) == (carry as int) * p)
                by (nonlinear_arith)
                requires
                    carry == lo + 100 * hi,
            ;
            assert((0 as int) * (p * 100) == 0) by (nonlinear_arith);
        }
    }
    out
}

/// Read the value of the digits from position `n` upward into a `u64`.
fn digits_quotient(s: &Vec<u32>, n: usize) -> (q: u64)
    requires
        digits_wf(s@),
        n <= s@.len(),
        digits_val(s@.subrange(n as int, s@.len() as int)) < 0x10000000000000000,
    ensures
        q as int == digits_val(s@.subrange(n as int, s@.len() as int)),
{
    let ghost bound = digits_val(s@.subrange(n as int, s@.len() as int));
    proof {
        lemma_digits_val_nonneg(s@.subrange(n as int, s@.len() as int));
    }
    let mut q: u64 = 0;
    let mut i: usize = s.len();
    proof {
        assert(s@.subrange(s@.len() as int, s@.len() as int) =~= Seq::<u32>::empty());
    }
    while i > n
        invariant
            digits_wf(s@),
            n <= i <= s@.len(),
            q as int == digits_val(s@.subrange(i as int, s@.len() as int)),
            digits_val(s@.subrange(n as int, s@.len() as int)) == bound,
            bound < 0x10000000000000000,
        decreases i,
    {
        i = i - 1;
        proof {
            let cur = s@.subrange(i as int, s@.len() as int);
            let next = s@.subrange(i + 1, s@.len() as int);
            assert(cur.subrange(1, cur.len() as int) =~= next);
            assert(digits_val(cur) == s@[i as int] + 100 * digits_val(next));
            let outer = s@.subrange(n as int, s@.len() as int);
            assert(outer.subrange(i - n, outer.len() as int) =~= cur);
            assert(digits_wf(outer));
            lemma_digits_val_split(outer, i - n);
            lemma_digits_val_bound(outer.subrange(0, i - n));
            lemma_digits_val_nonneg(cur);
            lemma_pow_positive(100, (i - n) as nat);
            assert(digits_val(cur) <= pow(100, (i - n) as nat) * digits_val(cur))
                by (nonlinear_arith)
                requires
                    digits_val(cur) >= 0,
                    pow(100, (i - n) as nat) >= 1,
            ;
            assert(digits_val(cur) <= bound);
        }
        q = q * 100 + (s[i] as u64);
    }
    proof {
        assert(s@.subrange(n as int, s@.len() as int) =~= s@.subrange(i as int, s@.len() as int));
    }
    q
}

/// Experience required to advance from `level` to the next level, exactly
/// `spec_exp_required(level)`. The cap keeps the result inside a `u64`.
pub fn exp_needed_for_level(level: u32) -> (r: u64)
    requires
        level <= LEVEL_LIMIT,
    ensures
        r as int == spec_exp_required(level as nat),
{
    let mut digits: Vec<u32> = Vec::new();
    digits.push(0);
    digits.push(2);
    proof {
        lemma_digits_val_push(Seq::<u32>::empty(), 0);
        lemma_digits_val_push(seq![0u32], 2);
        vstd::arithmetic::power::lemma_pow0(100);
        vstd::arithmetic::power::lemma_pow1(100);
        vstd::arithmetic::power::lemma_pow0(107);
        assert(seq![0u32].push(2u32) =~= digits@);
        assert(seq![0u32] =~= Seq::<u32>::empty().push(0u32));
        assert(digits_val(digits@) == 200);
    }
    let mut k: u32 = 0;
    while k < level
        invariant
            k <= level,
            digits_wf(digits@),
            digits_val(digits@) == 200 * pow(107, k as nat),
        decreases level - k,
    {
        digits = mul_digits_107(&digits);
        proof {
            vstd::arithmetic::power::lemma_pow_adds(107, k as nat, 1);
            vstd::arithmetic::power::lemma_pow1(107);
            let pk = pow(107, k as nat);
            assert(107 * (200 * pk) == 200 * (pk * 107)) by (nonlinear_arith);
        }
        k = k + 1;
    }
    proof {
        let lv = level as nat;
        let dv = digits_val(digits@);
        lemma_pow_base_increases(100, 107, lv);
        lemma_pow_positive(100, lv);
        assert(dv >= pow(100, lv)) by (nonlinear_arith)
            requires
                dv == 200 * pow(107, lv),
                pow(107, lv) >= pow(100, lv),
                pow(100, lv) > 0,
        ;
        lemma_digits_val_bound(digits@);
        if digits@.len() < lv {
            vstd::arithmetic::power::lemma_pow_increases(100, digits@.len(), lv);
            assert(false);
        }
        lemma_digits_val_quotient(digits@, level as int);
        lemma_exp_required_fits(lv);
        assert(digits_val(digits@.subrange(level as int, digits@.len() as int))
            == spec_exp_required(lv));
    }
    digits_quotient(&digits, level as usize)
}

/// Resolving a deposit never lowers the level, leaves a leftover below the
/// requirement of the final level, and never grows the leftover.
pub proof fn lemma_apply_exp_invariant(level: nat, total: nat)
    ensures
        spec_apply_exp(level, total).0 >= level,
        spec_apply_exp(level, total).1 < spec_exp_required(spec_apply_exp(level, total).0),
        spec_apply_exp(level, total).1 <= total,
    decreases total,
{
    lemma_exp_required_step(level);
    let req = spec_exp_required(level);
    if total >= req {
        lemma_apply_exp_invariant(level + 1, (total - req) as nat);
    }
}

/// A deposit of zero experience leaves a well-formed state unchanged.
pub proof fn lemma_apply_exp_zero_gain(level: nat, leftover: nat)
    requires
        leftover < spec_exp_required(level),
    ensures
        spec_apply_exp(level, leftover) == (level, leftover),
{
}

/// The experience bookkeeping laws: the new level never drops, the new
/// leftover sits below the requirement of the new level, and pending stat
/// points grow by exactly the number of levels gained.
pub proof fn lemma_apply_experience_properties(level: nat, leftover: nat, pending: nat, gained: nat)
    requires
        leftover < spec_exp_required(level),
    ensures
        spec_final_level(level, leftover + gained) >= level,
        spec_final_leftover(level, leftover + gained) < spec_exp_required(
            spec_final_level(level, leftover + gained),
        ),
        (pending + (spec_final_level(level, leftover + gained) - level)) - pending
            == spec_final_level(level, leftover + gained) - level,
{
    lemma_apply_exp_invariant(level, leftover + gained);
}

/// Levels gained in one deposit stay bounded: the final level is below
/// `level + 1` or below 320, because from the second level-up on the
/// remaining experience is less than the `u32` gain, and from level 308 the
/// requirement exceeds any such remainder.
pub proof fn lemma_apply_exp_level_bound(level: nat, total: nat)
    requires
        total < spec_exp_required(level) + 0x100000000,
    ensures
        spec_apply_exp(level, total).0 <= level + 1 || spec_apply_exp(level, total).0 <= 320,
        spec_apply_exp(level, total).0 <= vstd::math::max(level as int + 1, 320int),
    decreases total,
{
    lemma_exp_required_step(level);
    let req = spec_exp_required(level);
    if total >= req {
        let rest = (total - req) as nat;
        assert(rest < 0x100000000);
        lemma_apply_exp_small_total_bound(level + 1, rest);
        lemma_exp_required_step(level + 1);
    }
}

/// With less than `2^32` experience on hand, no level at or above 320 can be
/// passed.
proof fn lemma_apply_exp_small_total_bound(level: nat, total: nat)
    requires
        total < 0x100000000,
    ensures
        spec_apply_exp(level, total).0 <= level || spec_apply_exp(level, total).0 <= 320,
    decreases total,
{
    lemma_exp_required_step(level);
    let req = spec_exp_required(level);
    if total >= req {
        if level >= 308 {
            lemma_exp_required_big(level);
        }
        assert(level < 320);
        let rest = (total - req) as nat;
        lemma_apply_exp_small_total_bound(level + 1, rest);
    }
}

/// Deposit `gained` experience on a character at `level` with `leftover`
/// experience and `pending` unallocated stat points: consume the requirement
/// of each level reached in turn, and grant one pending stat point per level
/// gained. Returns `(new_level, new_leftover, new_pending)`.
///
/// The caps are machine limits: they keep every internally computed
/// requirement inside a `u64`.
pub fn apply_experience(level: u32, leftover: u64, pending: u64, gained: u32) -> (r: (u32, u64, u64))
    requires
        level <= MAX_LEVEL,
        leftover < spec_exp_required(level as nat),
        pending + 320 <= u64::MAX,
    ensures
        (r.0 as nat, r.1 as nat) == spec_apply_exp(level as nat, (leftover + gained) as nat),
        r.2 == pending + (r.0 - level),
        level <= r.0 <= vstd::math::max(level as int + 1, 320int),
        r.1 < spec_exp_required(r.0 as nat),
{
    let mut lvl: u32 = level;
    proof {
        lemma_exp_required_fits(level as nat);
    }
    let mut total: u64 = leftover + (gained as u64);
    loop
        invariant
            level <= lvl,
            lvl as int <= vstd::math::max(level as int + 1, 320int),
            level <= MAX_LEVEL,
            leftover < spec_exp_required(level as nat),
            total <= leftover + gained,
            spec_apply_exp(lvl as nat, total as nat) == spec_apply_exp(
                level as nat,
                (leftover + gained) as nat,
            ),
        ensures
            level <= lvl,
            lvl as int <= vstd::math::max(level as int + 1, 320int),
            (total as int) < spec_exp_required(lvl as nat),
            spec_apply_exp(lvl as nat, total as nat) == spec_apply_exp(
                level as nat,
                (leftover + gained) as nat,
            ),
        decreases total,
    {
        proof {
            lemma_exp_required_step(lvl as nat);
            lemma_exp_required_fits(lvl as nat);
        }
        let req = exp_needed_for_level(lvl);
        if total < req {
            break ;
        }
        proof {
            lemma_exp_required_step(lvl as nat);
            lemma_apply_exp_level_bound(level as nat, (leftover + gained) as nat);
            lemma_apply_exp_invariant((lvl + 1) as nat, (total - req) as nat);
            assert(spec_apply_exp(lvl as nat, total as nat) == spec_apply_exp(
                (lvl + 1) as nat,
                (total - req) as nat,
            ));
        }
        total = total - req;
        lvl = lvl + 1;
    }
    proof {
        lemma_exp_required_step(lvl as nat);
        assert(spec_apply_exp(lvl as nat, total as nat) == (lvl as nat, total as nat));
    }
    let new_pending: u64 = pending + ((lvl - level) as u64);
    (lvl, total, new_pending)
}

} // verus!
