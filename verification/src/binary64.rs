//! Seconds as the transcoder reads them: the binary64 quotient of a tick
//! count, in exact integer arithmetic.
//!
//! A tick is a hundred nanoseconds. A non-negative binary64 number below
//! `2^53` is held as `mantissa / 2^shift`.

use vstd::prelude::*;

use crate::text::{dec, dec_padded, dec_padded_text, push_dec};

verus! {

pub const TICKS_PER_SECOND: u64 = 10_000_000;

pub open spec fn two_to(n: nat) -> nat
    decreases n,
{
    if n == 0 {
        1
    } else {
        2 * two_to((n - 1) as nat)
    }
}

/// The whole number nearest to `num / den`, the even one of two equally near.
pub open spec fn half_even(num: nat, den: nat) -> nat {
    let q = num / den;
    let r = num % den;
    if 2 * r < den || (2 * r == den && q % 2 == 0) {
        q
    } else {
        q + 1
    }
}

/// How often `num` must be doubled for `num / den` to reach `2^52`.
pub open spec fn doublings(num: nat, den: nat) -> nat
    decreases
            if num >= 0x10_0000_0000_0000 * den {
                0
            } else {
                0x10_0000_0000_0000 * den - num
            },
{
    if num == 0 || num >= 0x10_0000_0000_0000 * den {
        0
    } else {
        1 + doublings(2 * num, den)
    }
}

/// How often `n` must be halved to fall below `2^53`.
pub open spec fn halvings(n: nat) -> nat
    decreases n,
{
    if n < 0x20_0000_0000_0000 {
        0
    } else {
        1 + halvings(n / 2)
    }
}

/// The binary64 number nearest to the whole number `n`.
pub open spec fn nearest_whole(n: nat) -> nat {
    half_even(n, two_to(halvings(n))) * two_to(halvings(n))
}

/// A non-negative number of the form `mantissa / 2^shift`.
pub struct Double {
    pub mantissa: u128,
    pub shift: u32,
}

/// The mantissa and the shift of the binary64 number nearest to
/// `num / 2^shift / den`.
pub open spec fn quotient(num: nat, shift: nat, den: nat) -> (nat, nat) {
    let e = doublings(num, den);
    (half_even(num * two_to(e), den), shift + e)
}

/// `ticks` ticks in seconds, as a binary64 number without its sign.
pub open spec fn seconds(ticks: int) -> (nat, nat) {
    let magnitude = if ticks < 0 {
        (-ticks) as nat
    } else {
        ticks as nat
    };
    quotient(nearest_whole(magnitude), 0, TICKS_PER_SECOND as nat)
}

/// `ticks` ticks in seconds, printed with six decimals.
pub open spec fn seconds_chars(ticks: int) -> Seq<char> {
    let (m, s) = seconds(ticks);
    let micros = half_even(m * 1_000_000, two_to(s));
    (if ticks < 0 {
        seq!['-']
    } else {
        seq![]
    }) + dec(micros / 1_000_000) + seq!['.'] + dec_padded(micros % 1_000_000, 6)
}

/// The number of the segment that holds the position `ticks`, where each
/// segment is `length` seconds long: the binary64 quotient rounded down and
/// held to the range of `u32`.
pub open spec fn segment_at(ticks: int, length: nat) -> nat {
    if ticks <= 0 {
        0
    } else if length == 0 {
        u32::MAX as nat
    } else {
        let (m, s) = seconds(ticks);
        let (m2, s2) = quotient(m, s, length);
        let whole = m2 / two_to(s2);
        if whole <= u32::MAX {
            whole
        } else {
            u32::MAX as nat
        }
    }
}

proof fn lemma_two_to_pos(n: nat)
    ensures
        two_to(n) > 0,
    decreases n,
{
    if n > 0 {
        lemma_two_to_pos((n - 1) as nat);
    }
}

proof fn lemma_two_to_grows(a: nat, b: nat)
    requires
        a <= b,
    ensures
        two_to(a) <= two_to(b),
    decreases b,
{
    lemma_two_to_pos(b);
    if a < b {
        lemma_two_to_pos((b - 1) as nat);
        lemma_two_to_grows(a, (b - 1) as nat);
    }
}

/// `2^n`.
fn pow2(n: u32) -> (r: u128)
    requires
        n < 128,
    ensures
        r == two_to(n as nat),
{
    let mut r: u128 = 1;
    let mut i: u32 = 0;
    proof {
        lemma_two_to_small();
    }
    while i < n
        invariant
            i <= n < 128,
            r == two_to(i as nat),
            two_to(127) == 0x8000_0000_0000_0000_0000_0000_0000_0000,
        decreases n - i,
    {
        proof {
            lemma_two_to_grows((i + 1) as nat, 127);
        }
        r = r * 2;
        i = i + 1;
    }
    r
}

proof fn lemma_two_to_sum(a: nat, b: nat)
    ensures
        two_to(a + b) == two_to(a) * two_to(b),
    decreases b,
{
    if b == 0 {
        assert(two_to(a) * 1 == two_to(a));
        assert(two_to(0) == 1);
    } else {
        lemma_two_to_sum(a, (b - 1) as nat);
        assert(two_to(b) == 2 * two_to((b - 1) as nat));
        assert(two_to((a + b) as nat) == 2 * two_to((a + b - 1) as nat));
        assert(two_to(a) * (2 * two_to((b - 1) as nat)) == 2 * (two_to(a) * two_to(
            (b - 1) as nat,
        ))) by (nonlinear_arith);
    }
}

pub(crate) proof fn lemma_two_to_small()
    ensures
        two_to(0) == 1,
        two_to(1) == 2,
        two_to(11) == 0x800,
        two_to(32) == 0x1_0000_0000,
        two_to(64) == 0x1_0000_0000_0000_0000,
        two_to(84) == 0x10_0000_0000_0000 * 0x1_0000_0000,
        two_to(127) == 0x8000_0000_0000_0000_0000_0000_0000_0000,
{
    reveal_with_fuel(two_to, 12);
    lemma_two_to_sum(10, 10);
    lemma_two_to_sum(20, 12);
    lemma_two_to_sum(32, 32);
    lemma_two_to_sum(32, 20);
    lemma_two_to_sum(52, 32);
    lemma_two_to_sum(84, 32);
    lemma_two_to_sum(116, 11);
    assert(two_to(12) == 2 * two_to(11));
}

fn round_half_even(num: u128, den: u128) -> (r: u128)
    requires
        0 < den <= 0x8000_0000_0000_0000_0000_0000_0000_0000,
        num < u128::MAX,
    ensures
        r == half_even(num as nat, den as nat),
{
    let q: u128 = num / den;
    let rem: u128 = num % den;
    assert(q <= num) by (nonlinear_arith)
        requires
            q == num / den,
            den > 0,
    ;
    if rem < den - rem || (rem == den - rem && q % 2 == 0) {
        q
    } else {
        q + 1
    }
}

proof fn lemma_half_even_bound(num: nat, den: nat, max: nat)
    requires
        den > 0,
        num <= max * den,
    ensures
        half_even(num, den) <= max,
{
    let q = num / den;
    let r = num % den;
    assert(num == q * den + r && r < den) by (nonlinear_arith)
        requires
            q == num / den,
            r == num % den,
            den > 0,
    ;
    assert(q < max || (q == max && r == 0)) by (nonlinear_arith)
        requires
            num == q * den + r,
            num <= max * den,
            den > 0,
            r >= 0,
    ;
}

/// The binary64 quotient of `num / 2^shift` by `den`.
fn divide(num: u128, shift: u32, den: u128) -> (r: Double)
    requires
        0 < num <= 0x20_0000_0000_0000 * den,
        0 < den <= 0x1_0000_0000,
        shift <= 90,
    ensures
        (r.mantissa as nat, r.shift as nat) == quotient(num as nat, shift as nat, den as nat),
        0 < r.mantissa <= 0x20_0000_0000_0000,
        r.mantissa >= 0x10_0000_0000_0000,
        num >= 0x10_0000_0000_0000 ==> r.shift <= shift + 32,
        r.shift <= shift + 84,
{
    let mut n: u128 = num;
    let mut e: u32 = 0;
    let limit: u128 = 0x10_0000_0000_0000 * den;
    proof {
        lemma_two_to_small();
    }
    while n < limit
        invariant
            limit == 0x10_0000_0000_0000 * den,
            0 < num,
            0 < den <= 0x1_0000_0000,
            n == num * two_to(e as nat),
            doublings(num as nat, den as nat) == e + doublings(n as nat, den as nat),
            0 < n <= 0x20_0000_0000_0000 * den,
            e <= 84,
            num >= 0x10_0000_0000_0000 ==> e <= 32,
        decreases
                if n >= limit {
                    0
                } else {
                    limit - n
                },
    {
        proof {
            let p = two_to(e as nat);
            lemma_two_to_small();
            assert(num * (2 * p) == 2 * (num * p)) by (nonlinear_arith);
            assert(two_to((e + 1) as nat) == 2 * p);
            assert(p <= n) by (nonlinear_arith)
                requires
                    n == num * p,
                    num >= 1,
            ;
            if e >= 84 {
                lemma_two_to_grows(84, e as nat);
            }
            if num >= 0x10_0000_0000_0000 && e >= 32 {
                lemma_two_to_grows(32, e as nat);
                assert(n >= 0x10_0000_0000_0000 * den) by (nonlinear_arith)
                    requires
                        n == num * p,
                        num >= 0x10_0000_0000_0000,
                        p >= den,
                ;
            }
        }
        n = n * 2;
        e = e + 1;
    }
    proof {
        lemma_half_even_bound(n as nat, den as nat, 0x20_0000_0000_0000);
        assert(n / den >= 0x10_0000_0000_0000) by (nonlinear_arith)
            requires
                n >= 0x10_0000_0000_0000 * den,
                den > 0,
        ;
    }
    let mantissa = round_half_even(n, den);
    Double { mantissa, shift: shift + e }
}

/// The binary64 number nearest to `n`.
fn round_whole(n: u64) -> (r: u128)
    ensures
        r == nearest_whole(n as nat),
        r <= 0x1_0000_0000_0000_0000 + 0x800,
        n > 0 ==> r > 0,
{
    let mut h: u64 = n;
    let mut k: u32 = 0;
    proof {
        lemma_two_to_small();
    }
    while h >= 0x20_0000_0000_0000
        invariant
            halvings(n as nat) == k + halvings(h as nat),
            k <= 11,
            h == n as nat / two_to(k as nat),
            two_to(k as nat) > 0,
            k > 0 ==> h >= 0x10_0000_0000_0000,
            n > 0 ==> h > 0,
        decreases h,
    {
        proof {
            let p = two_to(k as nat);
            assert(two_to((k + 1) as nat) == 2 * p);
            vstd::arithmetic::div_mod::lemma_div_denominator(n as int, p as int, 2);
            if k >= 11 {
                lemma_two_to_small();
                lemma_two_to_grows(11, k as nat);
                assert(n as nat / p < 0x20_0000_0000_0000) by (nonlinear_arith)
                    requires
                        p >= 2048,
                        n < 0x1_0000_0000_0000_0000,
                ;
            }
        }
        h = h / 2;
        k = k + 1;
    }
    let p = pow2(k);
    proof {
        lemma_two_to_small();
        lemma_two_to_grows(k as nat, 11);
    }
    let m = round_half_even(n as u128, p);
    proof {
        let d = p as nat;
        assert(m <= h + 1);
        assert(m * d <= n as nat + d) by (nonlinear_arith)
            requires
                h == n as nat / d,
                m <= h + 1,
                d > 0,
        ;
        assert(halvings(h as nat) == 0);
        if n > 0 {
            assert(m > 0);
            assert(m * d > 0) by (nonlinear_arith)
                requires
                    m > 0,
                    d > 0,
            ;
        }
    }
    m * p
}

/// `ticks` ticks in seconds, without the sign.
fn seconds_of(ticks: u64) -> (r: Double)
    requires
        0 < ticks <= 0x8000_0000_0000_0000,
    ensures
        (r.mantissa as nat, r.shift as nat) == seconds(ticks as int),
        0x10_0000_0000_0000 <= r.mantissa <= 0x20_0000_0000_0000,
        r.shift <= 84,
{
    let n = round_whole(ticks);
    divide(n, 0, TICKS_PER_SECOND as u128)
}

/// The position `ticks` in seconds with six decimals.
pub fn seconds_text(ticks: i64) -> (s: String)
    ensures
        s@ == seconds_chars(ticks as int),
{
    let mut s = String::new();
    let magnitude: u64 = if ticks < 0 {
        s.push('-');
        (-(ticks as i128)) as u64
    } else {
        ticks as u64
    };
    let ghost sign = s@;
    let micros: u128 = if magnitude == 0 {
        assert(doublings(0, TICKS_PER_SECOND as nat) == 0);
        assert(half_even(0, TICKS_PER_SECOND as nat) == 0);
        assert(half_even(0, 1) == 0);
        proof {
            lemma_two_to_small();
            lemma_exact_whole(0);
        }
        0
    } else {
        let x = seconds_of(magnitude);
        let den = pow2(x.shift);
        proof {
            lemma_two_to_small();
            lemma_two_to_grows(x.shift as nat, 127);
            lemma_two_to_pos(x.shift as nat);
            assert(half_even((x.mantissa * 1_000_000) as nat, den as nat) <= x.mantissa * 1_000_000)
                by {
                assert(x.mantissa * 1_000_000 <= (x.mantissa * 1_000_000) * den)
                    by (nonlinear_arith)
                    requires
                        den >= 1,
                        x.mantissa >= 0,
                ;
                lemma_half_even_bound(
                    (x.mantissa * 1_000_000) as nat,
                    den as nat,
                    (x.mantissa * 1_000_000) as nat,
                );
            }
        }
        round_half_even(x.mantissa * 1_000_000, den)
    };
    push_dec(&mut s, micros / 1_000_000);
    s.push('.');
    let fraction = dec_padded_text((micros % 1_000_000) as u64, 6);
    s.append(fraction.as_str());
    assert(s@ =~= seconds_chars(ticks as int));
    s
}

/// The number of the first segment after a seek to `ticks`.
pub fn segment_number(ticks: i64, length: u32) -> (n: u32)
    ensures
        n == segment_at(ticks as int, length as nat),
{
    if ticks <= 0 {
        return 0;
    }
    if length == 0 {
        return u32::MAX;
    }
    let x = seconds_of(ticks as u64);
    let y = divide(x.mantissa, x.shift, length as u128);
    let den = pow2(y.shift);
    proof {
        lemma_two_to_pos(y.shift as nat);
    }
    let whole: u128 = y.mantissa / den;
    if whole <= u32::MAX as u128 {
        whole as u32
    } else {
        u32::MAX
    }
}

proof fn lemma_half_even_exact(q: nat, den: nat)
    requires
        den > 0,
    ensures
        half_even(q * den, den) == q,
{
    vstd::arithmetic::div_mod::lemma_div_multiples_vanish(q as int, den as int);
    vstd::arithmetic::div_mod::lemma_mod_multiples_basic(q as int, den as int);
    assert(q * den == den * q) by (nonlinear_arith);
}

proof fn lemma_halvings(n: nat, b: nat)
    requires
        n < 0x20_0000_0000_0000 * two_to(b),
    ensures
        halvings(n) <= b,
    decreases b,
{
    if n >= 0x20_0000_0000_0000 {
        if b == 0 {
            assert(two_to(0) == 1);
        } else {
            assert(two_to(b) == 2 * two_to((b - 1) as nat));
            lemma_halvings(n / 2, (b - 1) as nat);
        }
    }
}

/// A multiple of `2^7` below `2^60` is a binary64 number.
proof fn lemma_exact_whole(n: nat)
    requires
        n % 128 == 0 && n < 0x1000_0000_0000_0000 || n < 0x20_0000_0000_0000,
    ensures
        nearest_whole(n) == n,
{
    let h = halvings(n);
    let p = two_to(h);
    if n < 0x20_0000_0000_0000 {
        lemma_two_to_small();
        assert(h == 0);
        assert(n * 1 == n);
        lemma_half_even_exact(n, 1);
    } else {
        assert(two_to(7) == 128) by {
            reveal_with_fuel(two_to, 8);
        }
        lemma_halvings(n, 7);
        lemma_two_to_sum(h, (7 - h) as nat);
        let rest = two_to((7 - h) as nat);
        let q = rest * (n / 128);
        assert(n == q * p) by (nonlinear_arith)
            requires
                n == 128 * (n / 128),
                128 == p * rest,
                q == rest * (n / 128),
        ;
        lemma_two_to_pos(h);
        lemma_half_even_exact(q, p);
    }
}

/// `secs` whole seconds, as a binary64 number.
proof fn lemma_whole_seconds(secs: nat)
    requires
        secs * TICKS_PER_SECOND < 0x1000_0000_0000_0000,
    ensures
        exists|e: nat|
            #![trigger two_to(e)]
            seconds((secs * TICKS_PER_SECOND) as int) == ((secs * two_to(e)) as nat, e),
{
    let t = (secs * TICKS_PER_SECOND) as nat;
    let den = TICKS_PER_SECOND as nat;
    assert(t == 128 * (secs * 78125));
    lemma_exact_whole(t);
    let e = doublings(t, den);
    assert(t * two_to(e) == (secs * two_to(e)) * den) by (nonlinear_arith)
        requires
            t == secs * den,
    ;
    lemma_half_even_exact(secs * two_to(e), den);
    assert(seconds(t as int) == ((secs * two_to(e)) as nat, e));
}

/// A whole number of seconds, up to about three and a half thousand years, is
/// printed as that number and six zeros.
pub proof fn law_whole_seconds(secs: nat)
    requires
        secs * TICKS_PER_SECOND < 0x1000_0000_0000_0000,
    ensures
        seconds_chars((secs * TICKS_PER_SECOND) as int) == dec(secs) + seq!['.'] + dec_padded(0, 6),
{
    lemma_whole_seconds(secs);
    let e = choose|e: nat|
        #![trigger two_to(e)]
        seconds((secs * TICKS_PER_SECOND) as int) == ((secs * two_to(e)) as nat, e);
    assert((secs * two_to(e)) * 1_000_000 == (secs * 1_000_000) * two_to(e)) by (nonlinear_arith);
    lemma_two_to_pos(e);
    lemma_half_even_exact((secs * 1_000_000) as nat, two_to(e));
    assert(seconds_chars((secs * TICKS_PER_SECOND) as int) =~= dec(secs) + seq!['.'] + dec_padded(
        0,
        6,
    ));
}

/// A seek to the start of segment `n` makes `n` the first segment's number.
pub proof fn law_segment_start(n: nat, length: nat)
    requires
        0 < length <= u32::MAX,
        n <= u32::MAX,
        n * length * TICKS_PER_SECOND < 0x1000_0000_0000_0000,
    ensures
        segment_at((n * length * TICKS_PER_SECOND) as int, length) == n,
{
    let secs = n * length;
    let t = (secs * TICKS_PER_SECOND) as int;
    if t > 0 {
        lemma_whole_seconds(secs);
        let e = choose|e: nat|
            #![trigger two_to(e)]
            seconds(t) == ((secs * two_to(e)) as nat, e);
        let m = secs * two_to(e);
        let e2 = doublings(m, length);
        let p = two_to(e + e2);
        lemma_two_to_sum(e, e2);
        assert(m * two_to(e2) == (n * p) * length) by (nonlinear_arith)
            requires
                m == (n * length) * two_to(e),
                p == two_to(e) * two_to(e2),
        ;
        lemma_half_even_exact(n * p, length);
        lemma_two_to_pos(e + e2);
        vstd::arithmetic::div_mod::lemma_div_multiples_vanish(n as int, p as int);
        assert(n * p == p * n) by (nonlinear_arith);
    } else {
        assert(n == 0) by (nonlinear_arith)
            requires
                n * length == 0,
                length > 0,
        ;
    }
}

proof fn lemma_doublings_reach(num: nat, den: nat)
    requires
        num > 0,
        den > 0,
    ensures
        num * two_to(doublings(num, den)) >= 0x10_0000_0000_0000 * den,
    decreases
            if num >= 0x10_0000_0000_0000 * den {
                0
            } else {
                0x10_0000_0000_0000 * den - num
            },
{
    if num >= 0x10_0000_0000_0000 * den {
        assert(two_to(0) == 1);
        assert(num * 1 == num);
    } else {
        lemma_doublings_reach(2 * num, den);
        let e = doublings(2 * num, den);
        assert(two_to((1 + e) as nat) == 2 * two_to(e));
        assert(num * (2 * two_to(e)) == (2 * num) * two_to(e)) by (nonlinear_arith);
    }
}

/// A rounded quotient is no further from the exact one than a half.
proof fn lemma_half_even_near(num: nat, den: nat)
    requires
        den > 0,
    ensures
        2 * (half_even(num, den) * den) <= 2 * num + den,
        2 * num <= 2 * (half_even(num, den) * den) + den,
{
    let q = num / den;
    vstd::arithmetic::div_mod::lemma_fundamental_div_mod(num as int, den as int);
    assert(den * q == q * den) by (nonlinear_arith);
    assert((q + 1) * den == q * den + den) by (nonlinear_arith);
}

/// A position in ticks is printed to the nearest microsecond, up to about thirty
/// years: the printed number of microseconds is no more than half a microsecond, five
/// ticks, away from it, and a whole number of microseconds is printed exactly.
pub proof fn law_positions_are_printed(ticks: nat) -> (micros: nat)
    requires
        ticks < 0x20_0000_0000_0000,
    ensures
        seconds_chars(ticks as int) == dec(micros / 1_000_000) + seq!['.'] + dec_padded(
            micros % 1_000_000,
            6,
        ),
        ticks as int - 5 <= 10 * micros <= ticks + 5,
        ticks % 10 == 0 ==> 10 * micros == ticks,
{
    let den = TICKS_PER_SECOND as nat;
    let n = ticks;
    lemma_exact_whole(n);
    let e = doublings(n, den);
    let p = two_to(e);
    let m = half_even(n * p, den);
    assert(seconds(n as int) == (m, e));
    let v = half_even(m * 1_000_000, p);
    lemma_two_to_pos(e);
    assert(seconds_chars(ticks as int) =~= dec(v / 1_000_000) + seq!['.'] + dec_padded(
        v % 1_000_000,
        6,
    ));
    if n == 0 {
        assert(n * p == 0) by (nonlinear_arith)
            requires
                n == 0,
        ;
        lemma_half_even_exact(0, den);
        assert(0 * den == 0);
        lemma_half_even_exact(0, p);
        assert(0 * p == 0);
    } else {
        lemma_doublings_reach(n, den);
        assert(p > 5_000_000) by (nonlinear_arith)
            requires
                n * p >= 0x10_0000_0000_0000 * 10_000_000,
                n < 0x20_0000_0000_0000,
                p >= 0,
        ;
        lemma_half_even_near(n * p, den);
        lemma_half_even_near(m * 1_000_000, p);
        let vp = v * p;
        let np = n * p;
        assert(2 * (m * den) <= 2 * np + den);
        assert(2 * np <= 2 * (m * den) + den);
        assert(2 * vp <= 2 * (m * 1_000_000) + p);
        assert(2 * (m * 1_000_000) <= 2 * vp + p);
        assert(10 * vp <= np + 5_000_000 + 5 * p);
        assert(np <= 10 * vp + 5_000_000 + 5 * p);
        assert(10 * v < n + 6) by (nonlinear_arith)
            requires
                10 * vp <= np + 5_000_000 + 5 * p,
                vp == v * p,
                np == n * p,
                p > 5_000_000,
        ;
        assert(n < 10 * v + 6) by (nonlinear_arith)
            requires
                np <= 10 * vp + 5_000_000 + 5 * p,
                vp == v * p,
                np == n * p,
                p > 5_000_000,
        ;
    }
    v
}

/// A position before the start is printed as the one after it, with a minus sign.
pub proof fn law_negative_positions_are_printed(ticks: nat)
    requires
        ticks > 0,
    ensures
        seconds_chars(-(ticks as int)) == seq!['-'] + seconds_chars(ticks as int),
{
    assert(seconds_chars(-(ticks as int)) =~= seq!['-'] + seconds_chars(ticks as int));
}

/// The segment of a position holds it, up to about thirty years and to the tick: it
/// begins at the position at the latest and does not end before it.
pub proof fn law_segment_holds_the_position(ticks: nat, length: nat)
    requires
        0 < ticks < 0x20_0000_0000_0000,
        0 < length <= u32::MAX,
    ensures
        ({
            let n = segment_at(ticks as int, length);
            &&& n * (length * TICKS_PER_SECOND) <= ticks + 1
            &&& n < u32::MAX ==> ticks <= (n + 1) * (length * TICKS_PER_SECOND)
        }),
{
    let d = TICKS_PER_SECOND as nat;
    let n = ticks;
    lemma_exact_whole(n);
    let e = doublings(n, d);
    let p = two_to(e);
    let m = half_even(n * p, d);
    assert(seconds(n as int) == (m, e));
    lemma_two_to_pos(e);
    lemma_doublings_reach(n, d);
    lemma_half_even_near(n * p, d);
    let e2 = doublings(m, length);
    let q = two_to(e2);
    let m2 = half_even(m * q, length);
    lemma_two_to_pos(e2);
    lemma_two_to_sum(e, e2);
    let pq = two_to(e + e2);
    assert(pq == p * q);
    assert(p > 5_000_000) by (nonlinear_arith)
        requires
            n * p >= 0x10_0000_0000_0000 * 10_000_000,
            n < 0x20_0000_0000_0000,
            p >= 0,
    ;
    assert(m > 0) by {
        assert(2 * (n * p) <= 2 * (m * d) + d);
    }
    lemma_doublings_reach(m, length);
    lemma_half_even_near(m * q, length);
    let w = m2 / pq;
    assert(pq > 0) by (nonlinear_arith)
        requires
            pq == p * q,
            p > 0,
            q > 0,
    ;
    vstd::arithmetic::div_mod::lemma_fundamental_div_mod(m2 as int, pq as int);
    let full = length * d;
    assert(w * pq <= m2 && m2 + 1 <= (w + 1) * pq) by (nonlinear_arith)
        requires
            m2 == pq * w + m2 % pq,
            0 <= m2 % pq < pq,
    ;
    lemma_segment_upper(n, p, q, m, m2, w, length, d);
    lemma_segment_lower(n, p, q, m, m2, w, length, d);
    if w > u32::MAX {
        assert(u32::MAX * full <= w * full) by (nonlinear_arith)
            requires
                w > u32::MAX,
                full >= 0,
        ;
    }
}

proof fn lemma_segment_upper(
    n: nat,
    p: nat,
    q: nat,
    m: nat,
    m2: nat,
    w: nat,
    length: nat,
    d: nat,
)
    requires
        d == 10_000_000,
        n < 0x20_0000_0000_0000,
        p > 5_000_000,
        q > 0,
        length > 0,
        2 * (m * d) <= 2 * (n * p) + d,
        2 * (m2 * length) <= 2 * (m * q) + length,
        m * q >= 0x10_0000_0000_0000 * length,
        w * (p * q) <= m2,
    ensures
        w * (length * d) <= n + 1,
{
    let pq = p * q;
    let wp = w * pq;
    // Twice the start of the segment, in units of a `pq`th of a tick.
    let x = 2 * (wp * (length * d));
    assert(wp * length <= m2 * length) by (nonlinear_arith)
        requires
            wp <= m2,
    ;
    assert(2 * (wp * length) <= 2 * (m * q) + length);
    assert(wp * (length * d) == (wp * length) * d) by (nonlinear_arith);
    assert(x <= (2 * (m * q) + length) * d) by (nonlinear_arith)
        requires
            x == 2 * ((wp * length) * d),
            2 * (wp * length) <= 2 * (m * q) + length,
            d >= 0,
    ;
    assert((2 * (m * q) + length) * d == (2 * (m * d)) * q + length * d) by (nonlinear_arith);
    assert((2 * (m * d)) * q <= (2 * (n * p) + d) * q) by (nonlinear_arith)
        requires
            2 * (m * d) <= 2 * (n * p) + d,
            q >= 0,
    ;
    assert((2 * (n * p) + d) * q == 2 * (n * pq) + d * q) by (nonlinear_arith)
        requires
            pq == p * q,
    ;
    assert(x <= 2 * (n * pq) + d * q + length * d);
    // Each of the two roundings is worth less than a tick.
    assert(d * q < 2 * pq) by (nonlinear_arith)
        requires
            pq == p * q,
            q > 0,
            p > 5_000_000,
            d == 10_000_000,
    ;
    assert(length * d < 2 * pq) by {
        let ld = length * d;
        let mdq = (m * d) * q;
        assert(0x10_0000_0000_0000 * ld <= mdq) by (nonlinear_arith)
            requires
                m * q >= 0x10_0000_0000_0000 * length,
                d >= 0,
                ld == length * d,
                mdq == (m * d) * q,
        ;
        let right = (2 * (n * p) + d) * q;
        assert(2 * mdq <= right) by (nonlinear_arith)
            requires
                2 * (m * d) <= 2 * (n * p) + d,
                q >= 0,
                mdq == (m * d) * q,
                right == (2 * (n * p) + d) * q,
        ;
        assert(right == 2 * (n * pq) + d * q);
        assert(n * pq <= (0x20_0000_0000_0000 - 1) * pq) by (nonlinear_arith)
            requires
                n <= 0x20_0000_0000_0000 - 1,
                pq >= 0,
        ;
        assert(ld < 2 * pq);
    }
    assert(x < 2 * (n * pq) + 4 * pq);
    let full = length * d;
    assert(wp * full == (w * full) * pq) by (nonlinear_arith)
        requires
            wp == w * pq,
    ;
    assert(w * full < n + 2) by (nonlinear_arith)
        requires
            2 * ((w * full) * pq) < 2 * (n * pq) + 4 * pq,
            pq > 0,
    ;
}

proof fn lemma_segment_lower(
    n: nat,
    p: nat,
    q: nat,
    m: nat,
    m2: nat,
    w: nat,
    length: nat,
    d: nat,
)
    requires
        d == 10_000_000,
        p > 5_000_000,
        q > 0,
        length > 0,
        2 * (n * p) <= 2 * (m * d) + d,
        2 * (m * q) <= 2 * (m2 * length) + length,
        m2 + 1 <= (w + 1) * (p * q),
    ensures
        n <= (w + 1) * (length * d),
{
    let pq = p * q;
    let top = (w + 1) * pq;
    assert((m2 + 1) * length <= top * length) by (nonlinear_arith)
        requires
            m2 + 1 <= top,
    ;
    assert((m2 + 1) * length == m2 * length + length) by (nonlinear_arith);
    assert(2 * (m * q) <= 2 * (top * length) - length);
    assert((2 * (n * p)) * q <= (2 * (m * d) + d) * q) by (nonlinear_arith)
        requires
            2 * (n * p) <= 2 * (m * d) + d,
            q >= 0,
    ;
    assert((2 * (n * p)) * q == 2 * (n * pq)) by (nonlinear_arith)
        requires
            pq == p * q,
    ;
    assert((2 * (m * d) + d) * q == (2 * (m * q)) * d + d * q) by (nonlinear_arith);
    assert((2 * (m * q)) * d <= (2 * (top * length) - length) * d) by (nonlinear_arith)
        requires
            2 * (m * q) <= 2 * (top * length) - length,
            d >= 0,
    ;
    let full = length * d;
    assert((2 * (top * length) - length) * d == 2 * (((w + 1) * full) * pq) - full)
        by (nonlinear_arith)
        requires
            top == (w + 1) * pq,
            full == length * d,
    ;
    assert(d * q < 2 * pq) by (nonlinear_arith)
        requires
            pq == p * q,
            q > 0,
            p > 5_000_000,
            d == 10_000_000,
    ;
    assert(2 * (n * pq) < 2 * (((w + 1) * full) * pq) + 2 * pq);
    assert(n < (w + 1) * full + 1) by (nonlinear_arith)
        requires
            2 * (n * pq) < 2 * (((w + 1) * full) * pq) + 2 * pq,
            pq > 0,
    ;
}

} // verus!
