//! Quotients as double-precision numbers print them, worked out in whole numbers.
use vstd::prelude::*;
use vstd::string::*;
use vstd::utf8::is_ascii_chars;

use crate::numbers::{decimal, digit_char};
use crate::text::concat2;

verus! {

/// Two to the power of `k`.
pub open spec fn two_to(k: nat) -> nat
    decreases k,
{
    if k == 0 {
        1
    } else {
        2 * two_to((k - 1) as nat)
    }
}

/// Ten to the power of `k`.
pub open spec fn ten_to(k: nat) -> nat
    decreases k,
{
    if k == 0 {
        1
    } else {
        10 * ten_to((k - 1) as nat)
    }
}

/// The whole number nearest to `a / b`; of two that are equally near, the even one.
pub open spec fn nearest(a: nat, b: nat) -> nat {
    let q = a / b;
    let r = a % b;
    if 2 * r > b || (2 * r == b && q % 2 == 1) {
        q + 1
    } else {
        q
    }
}

/// How many binary digits `n` has beyond the 53 that a double-precision number holds.
pub open spec fn excess_bits(n: nat) -> nat
    decreases n,
{
    if n < 9007199254740992 {
        0
    } else {
        1 + excess_bits(n / 2)
    }
}

/// The double-precision number nearest to `n`.
pub open spec fn as_double(n: nat) -> nat {
    let unit = two_to(excess_bits(n));
    nearest(n, unit) * unit
}

/// The number of doublings of `b` that still lead to no more than `a`.
pub open spec fn doublings(a: nat, b: nat) -> nat
    decreases a - b,
{
    if b == 0 || a < 2 * b {
        0
    } else {
        1 + doublings(a, 2 * b)
    }
}

/// By which power of two the quotient of `a` and `b` is scaled to have 53 binary digits.
pub open spec fn scale_bits(a: nat, b: nat) -> nat {
    (52 - doublings(a, b)) as nat
}

/// The quotient of `n` and `d`, worked out in double precision and rounded to `places` decimal
/// places: its digits without the point.
pub open spec fn quotient_digits(n: nat, d: nat, places: nat) -> nat {
    let a = as_double(n);
    let unit = two_to(scale_bits(a, d));
    nearest(nearest(a * unit, d) * ten_to(places), unit)
}

/// A number of which the last decimal digit stands behind the point.
pub open spec fn with_one_place(digits: nat) -> Seq<char> {
    decimal(digits / 10) + "."@ + seq![digit_char(digits % 10)]
}

/// A number of which the last two decimal digits stand behind the point.
pub open spec fn with_two_places(digits: nat) -> Seq<char> {
    decimal(digits / 100) + "."@ + seq![digit_char((digits / 10) % 10), digit_char(digits % 10)]
}

pub proof fn lemma_two_to_grows(a: nat, b: nat)
    requires
        a <= b,
    ensures
        two_to(a) <= two_to(b),
        two_to(a) > 0,
    decreases b,
{
    if a < b {
        lemma_two_to_grows(a, (b - 1) as nat);
    } else if a > 0 {
        lemma_two_to_grows((a - 1) as nat, (a - 1) as nat);
    }
}

proof fn lemma_powers()
    ensures
        two_to(11) == 2048,
        two_to(12) == 4096,
        two_to(52) == 4503599627370496,
        two_to(53) == 9007199254740992,
        ten_to(1) == 10,
        ten_to(2) == 100,
{
    reveal_with_fuel(two_to, 54);
    reveal_with_fuel(ten_to, 3);
}

fn power_of_two(k: u32) -> (r: u128)
    requires
        k <= 52,
    ensures
        r == two_to(k as nat),
        0 < r <= 4503599627370496,
{
    let mut p: u128 = 1;
    let mut i: u32 = 0;
    proof {
        lemma_powers();
    }
    while i < k
        invariant
            i <= k <= 52,
            p == two_to(i as nat),
            two_to(52) == 4503599627370496,
        decreases k - i,
    {
        proof {
            lemma_two_to_grows((i + 1) as nat, 52);
        }
        p = p * 2;
        i += 1;
    }
    proof {
        lemma_two_to_grows(k as nat, 52);
    }
    p
}

fn nearest_quotient(a: u128, b: u128) -> (r: u128)
    requires
        0 < b <= 9007199254740992,
        a < u128::MAX,
    ensures
        r == nearest(a as nat, b as nat),
        r <= a / b + 1,
        r <= a + 1,
{
    let q: u128 = a / b;
    let m: u128 = a % b;
    assert(q <= a) by (nonlinear_arith)
        requires
            q == a / b,
            b > 0,
            a >= 0,
    ;
    if 2 * m > b || (2 * m == b && q % 2 == 1) {
        q + 1
    } else {
        q
    }
}

proof fn lemma_excess(n: nat)
    requires
        n <= u64::MAX,
    ensures
        excess_bits(n) <= 11,
{
    reveal_with_fuel(excess_bits, 13);
}

fn to_double(n: u64) -> (r: u128)
    ensures
        r == as_double(n as nat),
        r <= 18446744073709553664,
{
    let mut x: u64 = n;
    let mut s: u32 = 0;
    proof {
        lemma_excess(n as nat);
        lemma_powers();
    }
    while x >= 9007199254740992
        invariant
            excess_bits(n as nat) == s + excess_bits(x as nat),
            excess_bits(n as nat) <= 11,
        decreases x,
    {
        x = x / 2;
        s += 1;
    }
    let unit: u128 = power_of_two(s);
    proof {
        lemma_two_to_grows(s as nat, 11);
    }
    let q: u128 = nearest_quotient(n as u128, unit);
    assert(q * unit <= n + unit) by (nonlinear_arith)
        requires
            q <= (n as u128) / unit + 1,
            unit > 0,
    ;
    q * unit
}

fn count_doublings(a: u128, b: u128) -> (r: u32)
    requires
        0 < b <= 1_000_000,
        b <= a < b * 9007199254740992,
        a <= 18446744073709553664,
    ensures
        r == doublings(a as nat, b as nat),
        r <= 52,
{
    let mut x: u128 = b;
    let mut e: u32 = 0;
    proof {
        lemma_powers();
        assert(two_to(0) == 1);
        assert(b * 1 == b);
    }
    while a >= 2 * x
        invariant
            0 < b <= 1_000_000,
            b <= a < b * 9007199254740992,
            a <= 18446744073709553664,
            two_to(53) == 9007199254740992,
            0 < x <= a,
            x == b * two_to(e as nat),
            e <= 52,
            doublings(a as nat, b as nat) == e + doublings(a as nat, x as nat),
        decreases a - x,
    {
        let ghost t = two_to(e as nat);
        assert(two_to((e + 1) as nat) == 2 * t);
        assert(b * (2 * t) == 2 * (b * t)) by (nonlinear_arith);
        assert(e < 52) by {
            if e == 52 {
                assert(2 * x == b * two_to(53));
            }
        }
        x = 2 * x;
        e += 1;
    }
    e
}

/// A number is near its double-precision form, and is the same where it has few binary digits.
pub proof fn lemma_double_bounds(n: nat)
    requires
        n <= u64::MAX,
    ensures
        n < 9007199254740992 ==> as_double(n) == n,
        n <= as_double(n) + 2048,
        as_double(n) <= n + 2048,
{
    lemma_excess(n);
    lemma_powers();
    let s = excess_bits(n);
    lemma_two_to_grows(s, 11);
    let unit = two_to(s);
    let q = nearest(n, unit);
    assert(q * unit <= n + unit && n <= q * unit + unit) by (nonlinear_arith)
        requires
            n / unit <= q <= n / unit + 1,
            unit > 0,
    ;
    if n < 9007199254740992 {
        assert(unit == 1);
        assert(n / 1 == n && n % 1 == 0) by (nonlinear_arith);
        assert(q == n);
        assert(q * 1 == q);
    }
}

/// The quotient of `n` and `d`, worked out in double precision and rounded to `places` decimal
/// places: its digits without the point.
pub fn divide_rounded(n: u64, d: u64, places: u32) -> (r: u128)
    requires
        0 < d <= 1_000_000,
        d <= as_double(n as nat) < d * 9007199254740992,
        places == 1 || places == 2,
    ensures
        r == quotient_digits(n as nat, d as nat, places as nat),
        r <= 8307674973655725127985997812229734501,
{
    let a: u128 = to_double(n);
    let wide: u128 = d as u128;
    let e: u32 = count_doublings(a, wide);
    let unit: u128 = power_of_two(52 - e);
    assert(a * unit <= 18446744073709553664 * 4503599627370496) by (nonlinear_arith)
        requires
            a <= 18446744073709553664,
            unit <= 4503599627370496,
            a >= 0,
            unit >= 0,
    ;
    let m: u128 = nearest_quotient(a * unit, wide);
    proof {
        lemma_powers();
    }
    let tens: u128 = if places == 1 {
        10
    } else {
        100
    };
    assert(m * tens <= 83076749736557251279859978122297345 * 100) by (nonlinear_arith)
        requires
            m <= 83076749736557251279859978122297345,
            0 < tens <= 100,
            m >= 0,
    ;
    nearest_quotient(m * tens, unit)
}

/// The decimal digits of `n`.
pub fn print_u128(n: u128) -> (r: String)
    ensures
        r@ == decimal(n as nat),
    decreases n,
{
    let d: u8 = (n % 10) as u8;
    let c: char = (48u8 + d) as char;
    if n < 10 {
        let mut s = String::new();
        s.push(c);
        assert(s@ == seq![c]);
        s
    } else {
        let mut s = print_u128(n / 10);
        s.push(c);
        s
    }
}

/// The digits of a number are ASCII characters.
pub proof fn lemma_decimal_ascii(n: nat)
    ensures
        is_ascii_chars(decimal(n)),
    decreases n,
{
    if n >= 10 {
        lemma_decimal_ascii(n / 10);
    }
}

/// A number below ten to the power of `k` has at most `k` digits, all of them ASCII characters.
pub proof fn lemma_decimal_len(n: nat, k: nat)
    requires
        n < ten_to(k),
        k > 0,
    ensures
        0 < decimal(n).len() <= k,
        is_ascii_chars(decimal(n)),
    decreases k,
{
    if n >= 10 {
        assert(ten_to(k) == 10 * ten_to((k - 1) as nat));
        if k == 1 {
            assert(ten_to(0) == 1);
        }
        lemma_decimal_len(n / 10, (k - 1) as nat);
    }
}

/// A number with one decimal place.
pub fn print_one_place(digits: u128) -> (r: String)
    ensures
        r@ == with_one_place(digits as nat),
{
    let mut s = concat2(&print_u128(digits / 10), ".");
    let d: u8 = (digits % 10) as u8;
    s.push((48u8 + d) as char);
    assert(s@ =~= with_one_place(digits as nat));
    s
}

/// A number with two decimal places.
pub fn print_two_places(digits: u128) -> (r: String)
    ensures
        r@ == with_two_places(digits as nat),
{
    let mut s = concat2(&print_u128(digits / 100), ".");
    let t: u8 = ((digits / 10) % 10) as u8;
    let d: u8 = (digits % 10) as u8;
    s.push((48u8 + t) as char);
    s.push((48u8 + d) as char);
    assert(s@ =~= with_two_places(digits as nat));
    s
}

/// A quotient is rounded to the nearest whole number, and where two are as near to the even one.
pub proof fn law_nearest(a: nat, b: nat)
    requires
        b > 0,
    ensures
        ({
            let n = nearest(a, b);
            let away = a - n * b;
            &&& -(b as int) <= 2 * away <= b
            &&& 2 * away == b || 2 * away == -(b as int) ==> n % 2 == 0
        }),
{
    let q = a / b;
    let r = a % b;
    vstd::arithmetic::div_mod::lemma_fundamental_div_mod(a as int, b as int);
    vstd::arithmetic::mul::lemma_mul_is_commutative(b as int, q as int);
    assert(a == q * b + r);
    assert(0 <= r < b) by {
        vstd::arithmetic::div_mod::lemma_mod_bound(a as int, b as int);
    }
    vstd::arithmetic::mul::lemma_mul_is_distributive_add_other_way(b as int, q as int, 1);
    assert((q + 1) * b == q * b + b);
}

/// A whole number below two to the power of 53 is its own double.
pub proof fn law_small_numbers_are_exact(n: nat)
    requires
        n < 9007199254740992,
    ensures
        as_double(n) == n,
{
    assert(two_to(excess_bits(n)) == 1);
    assert(n / 1 == n && n % 1 == 0);
}

} // verus!
