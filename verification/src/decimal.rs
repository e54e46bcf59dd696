//! Decimal numbers of any length: whether one is so small that it is zero as a
//! double-precision number.

use vstd::arithmetic::power2::{lemma2_to64, lemma_pow2_adds, pow2};
use vstd::prelude::*;

use crate::text::{digits_value, is_digits};

verus! {

/// Ten to the `n`.
pub open spec fn pow10(n: nat) -> nat
    decreases n,
{
    if n == 0 { 1 } else { 10 * pow10((n - 1) as nat) }
}

/// Whether `m` divided by ten to the `k` is zero as a double-precision number: it is
/// at most half of the smallest one, which is two to the -1074.
pub open spec fn vanishes(m: nat, k: int) -> bool {
    m == 0 || (k > 0 && m * pow2(1075) <= pow10(k as nat))
}

proof fn lemma_pow10_pos(n: nat)
    ensures
        pow10(n) > 0,
    decreases n,
{
    if n > 0 {
        lemma_pow10_pos((n - 1) as nat);
    }
}

proof fn lemma_pow10_adds(a: nat, b: nat)
    ensures
        pow10(a + b) == pow10(a) * pow10(b),
    decreases b,
{
    if b > 0 {
        lemma_pow10_adds(a, (b - 1) as nat);
        assert((a + b - 1) as nat == a + (b - 1) as nat);
        let x = pow10(a);
        let y = pow10((b - 1) as nat);
        assert(10 * (x * y) == x * (10 * y)) by (nonlinear_arith);
    } else {
        assert(pow10(a) * 1 == pow10(a));
    }
}

proof fn lemma_pow10_grows(a: nat, b: nat)
    requires
        a <= b,
    ensures
        pow10(a) <= pow10(b),
        a < b ==> 10 * pow10(a) <= pow10(b),
    decreases b,
{
    lemma_pow10_pos(a);
    if a < b {
        lemma_pow10_grows(a, (b - 1) as nat);
    }
}

/// Two to the three is below ten.
proof fn lemma_powers(n: nat)
    ensures
        pow2(3 * n) <= pow10(n),
    decreases n,
{
    lemma2_to64();
    if n > 0 {
        lemma_powers((n - 1) as nat);
        lemma_pow2_adds(3, 3 * (n - 1) as nat);
        assert(3 + 3 * (n - 1) as nat == 3 * n);
        assert(pow2(3) == 8);
    }
}

proof fn lemma_factor()
    ensures
        pow2(1075) <= pow10(359),
{
    lemma2_to64();
    lemma_powers(358);
    lemma_pow2_adds(1074, 1);
    assert(3 * 358 == 1074);
    assert(pow10(359) == 10 * pow10(358));
}

/// A number of `n` digits is below ten to the `n`.
proof fn lemma_digits_bound(s: Seq<char>)
    requires
        forall|i: int| 0 <= i < s.len() ==> '0' <= #[trigger] s[i] && s[i] <= '9',
    ensures
        digits_value(s) < pow10(s.len()),
    decreases s.len(),
{
    if s.len() > 0 {
        let t = s.drop_last();
        assert forall|i: int| 0 <= i < t.len() implies '0' <= #[trigger] t[i] && t[i] <= '9' by {
            assert(t[i] == s[i]);
        }
        lemma_digits_bound(t);
        assert('0' <= s[s.len() - 1] && s[s.len() - 1] <= '9');
    }
}

/// A number whose divisor has many more digits than it vanishes.
pub proof fn lemma_vanishes_far(s: Seq<char>, k: int)
    requires
        is_digits(s),
        k >= s.len() + 359,
    ensures
        vanishes(digits_value(s), k),
{
    let m = digits_value(s);
    let n = s.len();
    lemma_digits_bound(s);
    lemma_factor();
    lemma_pow10_adds(n, 359);
    lemma_pow10_grows(n + 359, k as nat);
    let p = pow2(1075);
    let q = pow10(359);
    let x = pow10(n);
    assert(m * p <= x * q) by (nonlinear_arith)
        requires
            0 <= m <= x,
            0 <= p <= q,
    ;
}

/// The number that digits make, the least significant first.
spec fn low_value(v: Seq<u8>) -> nat
    decreases v.len(),
{
    if v.len() == 0 { 0 } else { low_value(v.drop_last()) + v.last() as nat * pow10((v.len() - 1) as nat) }
}

/// Each entry is a digit.
spec fn all_digits(v: Seq<u8>) -> bool {
    forall|i: int| 0 <= i < v.len() ==> #[trigger] v[i] <= 9
}

proof fn lemma_low_push(v: Seq<u8>, d: u8)
    ensures
        low_value(v.push(d)) == low_value(v) + d as nat * pow10(v.len()),
{
    assert(v.push(d).drop_last() =~= v);
}

proof fn lemma_low_bound(v: Seq<u8>)
    requires
        all_digits(v),
    ensures
        low_value(v) < pow10(v.len()),
    decreases v.len(),
{
    if v.len() > 0 {
        let t = v.drop_last();
        assert forall|i: int| 0 <= i < t.len() implies #[trigger] t[i] <= 9 by {
            assert(t[i] == v[i]);
        }
        lemma_low_bound(t);
        let d = v.last() as nat;
        let p = pow10((v.len() - 1) as nat);
        assert(v[v.len() - 1] <= 9);
        assert(d * p <= 9 * p) by (nonlinear_arith)
            requires
                0 <= d <= 9,
                0 <= p,
        ;
    }
}

proof fn lemma_low_zero(v: Seq<u8>)
    ensures
        low_value(v) == 0 <==> forall|i: int| 0 <= i < v.len() ==> #[trigger] v[i] == 0,
    decreases v.len(),
{
    if v.len() > 0 {
        let t = v.drop_last();
        lemma_low_zero(t);
        let p = pow10((v.len() - 1) as nat);
        lemma_pow10_pos((v.len() - 1) as nat);
        let d = v.last() as nat;
        assert(d * p == 0 <==> d == 0) by (nonlinear_arith)
            requires
                p > 0,
        ;
        if low_value(v) == 0 {
            assert forall|i: int| 0 <= i < v.len() implies #[trigger] v[i] == 0 by {
                if i < t.len() {
                    assert(t[i] == v[i]);
                }
            }
        }
        if forall|i: int| 0 <= i < v.len() ==> #[trigger] v[i] == 0 {
            assert forall|i: int| 0 <= i < t.len() implies #[trigger] t[i] == 0 by {
                assert(t[i] == v[i]);
            }
            assert(v[v.len() - 1] == 0);
        }
    }
}

/// The digits of a text, the least significant first.
fn low_digits(s: &Vec<char>) -> (v: Vec<u8>)
    requires
        is_digits(s@),
    ensures
        all_digits(v@),
        low_value(v@) == digits_value(s@),
{
    let mut v: Vec<u8> = Vec::new();
    let mut i: usize = s.len();
    assert(s@.take(s.len() as int) =~= s@);
    proof {
        let m = digits_value(s@);
        assert(pow10(0) == 1);
        assert(m * 1 == m);
    }
    while i > 0
        invariant
            i <= s.len(),
            is_digits(s@),
            all_digits(v@),
            v.len() == s.len() - i,
            digits_value(s@) == digits_value(s@.take(i as int)) * pow10(v.len() as nat) + low_value(v@),
        decreases i,
    {
        let ghost before = v@;
        let ghost n = v.len() as nat;
        let c: char = s[i - 1];
        assert('0' <= s[i - 1] && s[i - 1] <= '9');
        let d: u8 = (c as u32 - '0' as u32) as u8;
        v.push(d);
        proof {
            lemma_low_push(before, d);
            let t = s@.take(i as int);
            assert(t.drop_last() =~= s@.take(i - 1));
            let a = digits_value(t.drop_last());
            let p = pow10(n);
            assert(digits_value(t) == 10 * a + d);
            assert((10 * a + d as nat) * p == a * (10 * p) + d as nat * p) by (nonlinear_arith);
            assert(pow10(n + 1) == 10 * p);
        }
        i = i - 1;
    }
    assert(s@.take(0) =~= Seq::<char>::empty());
    assert(0 * pow10(v.len() as nat) == 0);
    v
}

/// Twice a number.
fn double(v: &mut Vec<u8>)
    requires
        all_digits(old(v)@),
    ensures
        all_digits(final(v)@),
        low_value(final(v)@) == 2 * low_value(old(v)@),
{
    let ghost old_v = v@;
    let mut r: Vec<u8> = Vec::new();
    let mut carry: u8 = 0;
    let mut i: usize = 0;
    assert(old_v.take(0) =~= Seq::<u8>::empty());
    assert(0 * pow10(0) == 0);
    while i < v.len()
        invariant
            i <= v.len(),
            v@ == old_v,
            all_digits(old_v),
            all_digits(r@),
            r.len() == i,
            carry <= 1,
            low_value(r@) + carry as nat * pow10(i as nat) == 2 * low_value(old_v.take(i as int)),
        decreases v.len() - i,
    {
        let ghost before = r@;
        let ghost c0 = carry as nat;
        assert(old_v[i as int] <= 9);
        let n: u8 = 2 * v[i] + carry;
        let d: u8 = n % 10;
        carry = n / 10;
        r.push(d);
        proof {
            lemma_low_push(before, d);
            let t = old_v.take(i + 1);
            assert(t.drop_last() =~= old_v.take(i as int));
            let p = pow10(i as nat);
            let x = old_v[i as int] as nat;
            let d1 = d as nat;
            let c1 = carry as nat;
            assert(2 * x + c0 == d1 + 10 * c1);
            assert(d1 * p + c1 * (10 * p) == 2 * (x * p) + c0 * p) by (nonlinear_arith)
                requires
                    2 * x + c0 == d1 + 10 * c1,
            ;
            assert(pow10((i + 1) as nat) == 10 * p);
        }
        i = i + 1;
    }
    assert(old_v.take(i as int) =~= old_v);
    if carry > 0 {
        let ghost before = r@;
        r.push(carry);
        proof {
            lemma_low_push(before, carry);
        }
    } else {
        assert(0 * pow10(i as nat) == 0);
    }
    *v = r;
}

/// Whether a number is at most ten to the `k`.
fn at_most_pow10(v: &Vec<u8>, k: u128) -> (r: bool)
    requires
        all_digits(v@),
    ensures
        r == (low_value(v@) <= pow10(k as nat)),
{
    let mut n: usize = v.len();
    assert(v@.take(n as int) =~= v@);
    while n > 0 && v[n - 1] == 0
        invariant
            n <= v.len(),
            all_digits(v@),
            low_value(v@) == low_value(v@.take(n as int)),
        decreases n,
    {
        proof {
            let t = v@.take(n as int);
            assert(t.drop_last() =~= v@.take(n - 1));
            assert(0 * pow10((n - 1) as nat) == 0);
        }
        n = n - 1;
    }
    let ghost t = v@.take(n as int);
    assert(all_digits(t)) by {
        assert forall|i: int| 0 <= i < t.len() implies #[trigger] t[i] <= 9 by {
            assert(t[i] == v@[i]);
        }
    }
    if n as u128 <= k {
        proof {
            lemma_low_bound(t);
            lemma_pow10_grows(n as nat, k as nat);
        }
        return true;
    }
    let ghost rest = t.drop_last();
    let ghost p = pow10((n - 1) as nat);
    let ghost d = t.last() as nat;
    proof {
        lemma_pow10_pos((n - 1) as nat);
        assert(d >= 1);
        assert(d * p >= p) by (nonlinear_arith)
            requires
                d >= 1,
                p > 0,
        ;
    }
    if n as u128 > k + 1 {
        proof {
            lemma_pow10_pos(k as nat);
            lemma_pow10_grows(k as nat, (n - 1) as nat);
        }
        return false;
    }
    if v[n - 1] != 1 {
        proof {
            assert(d * p >= 2 * p) by (nonlinear_arith)
                requires
                    d >= 2,
                    p > 0,
            ;
        }
        return false;
    }
    let mut clean: bool = true;
    let mut i: usize = 0;
    while i + 1 < n
        invariant
            0 < n <= v.len(),
            i <= n - 1,
            rest == v@.take(n as int).drop_last(),
            clean == (forall|j: int| 0 <= j < i ==> #[trigger] rest[j] == 0),
        decreases n - i,
    {
        assert(rest[i as int] == v@[i as int]);
        if v[i] != 0 {
            clean = false;
        }
        i = i + 1;
    }
    proof {
        assert(1 * p == p);
        assert(rest.len() == n - 1);
        lemma_low_zero(rest);
    }
    clean
}

/// Whether digits divided by ten to the `k` are zero as a double-precision number.
pub fn check_vanishing(digits: &Vec<char>, k: i128) -> (r: bool)
    requires
        is_digits(digits@),
    ensures
        r == vanishes(digits_value(digits@), k as int),
{
    let mut v: Vec<u8> = low_digits(digits);
    let ghost m = digits_value(digits@);
    let mut zero: bool = true;
    let mut i: usize = 0;
    while i < v.len()
        invariant
            i <= v.len(),
            zero == (forall|j: int| 0 <= j < i ==> #[trigger] v[j] == 0),
        decreases v.len() - i,
    {
        if v[i] != 0 {
            assert(v[i as int] != 0);
            zero = false;
        }
        i = i + 1;
    }
    proof {
        lemma_low_zero(v@);
        assert(zero == (forall|j: int| 0 <= j < v@.len() ==> #[trigger] v@[j] == 0));
    }
    if zero {
        return true;
    }
    if k <= 0 {
        return false;
    }
    if k >= digits.len() as i128 + 359 {
        proof {
            lemma_vanishes_far(digits@, k as int);
        }
        return true;
    }
    let mut t: usize = 0;
    proof {
        lemma2_to64();
        assert(m * pow2(0) == m);
    }
    while t < 1075
        invariant
            t <= 1075,
            all_digits(v@),
            low_value(v@) == m * pow2(t as nat),
        decreases 1075 - t,
    {
        double(&mut v);
        proof {
            lemma2_to64();
            lemma_pow2_adds(t as nat, 1);
            let p = pow2(t as nat);
            assert(2 * (m * p) == m * (p * 2)) by (nonlinear_arith);
        }
        t = t + 1;
    }
    at_most_pow10(&v, k as u128)
}

} // verus!
