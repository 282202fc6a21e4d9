//! Short renderings of token counts ("950", "1.5K", "2M").
//!
//! A count of at least a thousand is shown as the nearest 64-bit float to
//! the count divided by a thousand (or a million), printed with one
//! fractional digit (ties to even) and with a trailing ".0" dropped. The
//! arithmetic here is exact on integers: it finds that float as a mantissa
//! over a power of two and rounds it the way the float printing does.
use vstd::prelude::*;

use crate::text::{decimal, digit, push_decimal, string_from};

verus! {

/// `n / d` rounded to the nearest integer, ties to the even one.
pub open spec fn round_even(n: nat, d: nat) -> nat {
    let q = n / d;
    let r = n % d;
    if 2 * r > d || (2 * r == d && q % 2 == 1) {
        q + 1
    } else {
        q
    }
}

/// 2^52, the least 53-bit mantissa.
pub open spec fn mantissa_floor() -> nat {
    0x10_0000_0000_0000
}

/// `x` and `scale` doubled together until `x` reaches `2^52 * den`.
pub open spec fn scaled(x: nat, scale: nat, den: nat) -> (nat, nat)
    decreases (if x >= 0x10_0000_0000_0000 * den {
        0
    } else {
        0x10_0000_0000_0000 * den - x
    }),
{
    if x == 0 || x >= 0x10_0000_0000_0000 * den {
        (x, scale)
    } else {
        scaled(2 * x, 2 * scale, den)
    }
}

/// The nearest 64-bit float to `num / den` (for `1 <= num / den < 2^52`),
/// printed with one fractional digit: the number of tenths.
pub open spec fn tenths(num: nat, den: nat) -> nat {
    let (x, scale) = scaled(num, 1, den);
    let m = round_even(x, den);
    round_even(10 * m, scale)
}

/// The power of two by which `v` is divided to leave at most 53 bits.
pub open spec fn ulp_of(v: nat, scale: nat) -> nat
    decreases v - scale,
{
    if scale == 0 || v < 0x20_0000_0000_0000 * scale {
        scale
    } else {
        proof {
            assert(0 <= v - 2 * scale < v - scale);
        }
        ulp_of(v, 2 * scale)
    }
}

/// The nearest 64-bit float to the integer `v`.
pub open spec fn as_float(v: nat) -> nat {
    let u = ulp_of(v, 1);
    round_even(v, u) * u
}

/// A number of tenths as text: the whole part, then "." and the tenth unless
/// it is zero.
pub open spec fn tenths_text(t: nat) -> Seq<char> {
    if t % 10 == 0 {
        decimal(t / 10)
    } else {
        decimal(t / 10) + seq!['.', digit(t % 10)]
    }
}

/// The short rendering of a token count.
pub open spec fn token_count_text(v: nat) -> Seq<char> {
    if v >= 1_000_000 {
        tenths_text(tenths(as_float(v), 1_000_000)) + seq!['M']
    } else if v >= 1000 {
        tenths_text(tenths(v, 1000)) + seq!['K']
    } else {
        decimal(v)
    }
}

fn round_even_exec(n: u128, d: u128) -> (r: u128)
    requires
        d > 0,
        n < u128::MAX,
    ensures
        r == round_even(n as nat, d as nat),
        n / d <= r <= n / d + 1,
        r * d <= n + d,
        r <= n,
{
    let q = n / d;
    let r = n % d;
    proof {
        assert(q * d + r == n) by (nonlinear_arith)
            requires
                q == n / d,
                r == n % d,
                d > 0,
        ;
        assert(q <= n) by (nonlinear_arith)
            requires
                q * d + r == n,
                d > 0,
                r >= 0,
        ;
        assert((q + 1) * d == q * d + d) by (nonlinear_arith);
    }
    if r > d - r || (r == d - r && q % 2 == 1) {
        proof {
            if q == n {
                assert(d == 1 ==> r == 0);
                assert(q * d == n * d);
                assert(n * d >= n) by (nonlinear_arith)
                    requires
                        d >= 1,
                ;
            }
        }
        q + 1
    } else {
        q
    }
}

/// The number of tenths of the nearest float to `num / den`.
fn tenths_exec(num: u128, den: u128) -> (t: u128)
    requires
        den == 1000 || den == 1_000_000,
        den <= num < 0x10_0000_0000_0000 * den,
    ensures
        t == tenths(num as nat, den as nat),
        t <= 100 * mantissa_floor(),
{
    let limit: u128 = 0x10_0000_0000_0000u128 * den;
    let mut x: u128 = num;
    let mut scale: u128 = 1;
    while x < limit
        invariant
            den == 1000 || den == 1_000_000,
            den <= num < limit,
            limit == 0x10_0000_0000_0000 * den,
            x == num * scale,
            1 <= x < 2 * limit,
            1 <= scale,
            scaled(x as nat, scale as nat, den as nat) == scaled(num as nat, 1, den as nat),
        decreases 2 * limit - x,
    {
        proof {
            assert(scale < mantissa_floor()) by (nonlinear_arith)
                requires
                    num * scale < 0x10_0000_0000_0000 * den,
                    num >= den,
                    den > 0,
            ;
        }
        x = 2 * x;
        scale = 2 * scale;
        proof {
            assert(x == num * scale) by (nonlinear_arith)
                requires
                    x == 2 * (num * (scale / 2)),
                    scale % 2 == 0,
            ;
        }
    }
    proof {
        assert(scaled(x as nat, scale as nat, den as nat) == (x as nat, scale as nat));
    }
    let m = round_even_exec(x, den);
    proof {
        assert(x / den < 2 * mantissa_floor()) by (nonlinear_arith)
            requires
                x < 2 * 0x10_0000_0000_0000 * den,
                den > 0,
        ;
    }
    let t = round_even_exec(10 * m, scale);
    proof {
        assert((10 * m) as int / (scale as int) <= 10 * m) by (nonlinear_arith)
            requires
                scale >= 1,
                m >= 0,
        ;
    }
    t
}

/// The nearest 64-bit float to `v`.
fn as_float_exec(v: u64) -> (w: u128)
    ensures
        w == as_float(v as nat),
        w < 0x2_0000_0000_0000_0000,
        v < 2 * mantissa_floor() ==> w == v,
        w + 0x1000 >= v,
{
    let vv: u128 = v as u128;
    let mut u: u128 = 1;
    while vv >= 0x20_0000_0000_0000u128 * u
        invariant
            vv == v as nat,
            1 <= u < 0x1000,
            ulp_of(vv as nat, u as nat) == ulp_of(vv as nat, 1),
        decreases vv - u,
    {
        u = 2 * u;
    }
    let q = round_even_exec(vv, u);
    proof {
        assert(ulp_of(vv as nat, u as nat) == u as nat);
        assert(q * u <= vv + u);
        assert(q * u + u >= vv) by (nonlinear_arith)
            requires
                q >= vv / u,
                u >= 1,
        ;
        if vv < 2 * mantissa_floor() {
            assert(u == 1);
            assert(vv as nat / 1 == vv as nat && vv as nat % 1 == 0);
            assert(round_even(vv as nat, 1) == vv);
            assert(q == vv);
            assert(q * u == vv) by (nonlinear_arith)
                requires
                    u == 1,
                    q == vv,
            ;
        }
    }
    q * u
}

/// Appends the text of a number of tenths.
fn push_tenths(out: &mut Vec<char>, t: u128)
    requires
        t / 10 <= u64::MAX,
    ensures
        final(out)@ == old(out)@ + tenths_text(t as nat),
{
    let whole: u64 = (t / 10) as u64;
    let frac: u64 = (t % 10) as u64;
    push_decimal(out, whole);
    if frac != 0 {
        out.push('.');
        out.push(crate::text::digit_char(frac));
        proof {
            assert(old(out)@ + decimal(whole as nat) + seq!['.', digit(frac as nat)] == old(
                out,
            )@ + tenths_text(t as nat));
        }
    }
}

/// The short rendering of a token count: the count itself below a thousand,
/// otherwise thousands ("K") or millions ("M") with at most one decimal.
pub fn format_token_count(value: u64) -> (r: String)
    ensures
        r@ == token_count_text(value as nat),
{
    let mut out: Vec<char> = Vec::new();
    if value >= 1_000_000 {
        let w = as_float_exec(value);
        proof {
            assert(w >= 1_000_000);
            assert(w < mantissa_floor() * 1_000_000);
        }
        let t = tenths_exec(w, 1_000_000);
        push_tenths(&mut out, t);
        out.push('M');
        proof {
            assert(out@ =~= tenths_text(t as nat) + seq!['M']);
        }
    } else if value >= 1000 {
        let t = tenths_exec(value as u128, 1000);
        push_tenths(&mut out, t);
        out.push('K');
        proof {
            assert(out@ =~= tenths_text(t as nat) + seq!['K']);
        }
    } else {
        push_decimal(&mut out, value);
        proof {
            assert(out@ =~= decimal(value as nat));
        }
    }
    string_from(&out)
}

} // verus!
