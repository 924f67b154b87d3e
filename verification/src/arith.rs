//! Integer arithmetic as the language defines it: 64-bit two's-complement
//! with wrap-around on overflow, truncating division, and iterated products
//! for factorial and exponentiation.

use vstd::prelude::*;

use vstd::arithmetic::div_mod::{
    lemma_fundamental_div_mod_converse, lemma_mod_multiples_vanish, lemma_mul_mod_noop_left,
};

verus! {

/// Two to the sixty-fourth, the modulus of 64-bit wrap-around.
pub open spec fn two64() -> int {
    0x1_0000_0000_0000_0000
}

/// 64-bit wrap-around of an unbounded integer.
pub open spec fn crop64(x: int) -> int {
    vstd::wrapping::i64_specs::signed_crop(x) as int
}

/// `crop64` keeps the residue class and lands in the `i64` range.
pub proof fn lemma_crop64_basics(x: int)
    ensures
        crop64(x) % two64() == x % two64(),
        i64::MIN <= crop64(x) <= i64::MAX,
        i64::MIN <= x <= i64::MAX ==> crop64(x) == x,
{
    let m = two64();
    let r = x % m;
    assert(0 <= r < m);
    if r > i64::MAX {
        assert(crop64(x) == r - m);
        lemma_mod_multiples_vanish(-1, r, m);
        assert((r - m) % m == r % m);
        assert(r % m == r);
    } else {
        assert(crop64(x) == r);
        assert(r % m == r);
    }
    if i64::MIN <= x <= i64::MAX {
        if x >= 0 {
            assert(x % m == x);
        } else {
            lemma_mod_multiples_vanish(1, x, m);
            assert((m + x) % m == x % m);
            assert(0 <= m + x < m);
            assert((m + x) % m == m + x);
            assert(x % m == m + x);
            assert(m + x > i64::MAX);
        }
    }
}

/// Integers with the same residue crop to the same value.
pub proof fn lemma_crop64_congruent(x: int, y: int)
    requires
        x % two64() == y % two64(),
    ensures
        crop64(x) == crop64(y),
{
}

/// Cropping a factor does not change a cropped product.
pub proof fn lemma_crop64_mul_left(x: int, y: int)
    ensures
        crop64(crop64(x) * y) == crop64(x * y),
{
    let m = two64();
    lemma_crop64_basics(x);
    lemma_mul_mod_noop_left(crop64(x), y, m);
    lemma_mul_mod_noop_left(x, y, m);
    lemma_crop64_congruent(crop64(x) * y, x * y);
}

/// `x` raised to the natural power `y`.
pub open spec fn pow_int(x: int, y: nat) -> int
    decreases y,
{
    if y == 0 {
        1
    } else {
        x * pow_int(x, (y - 1) as nat)
    }
}

/// Squaring the base halves the exponent.
proof fn lemma_pow_square(b: int, k: nat)
    ensures
        pow_int(b * b, k) == pow_int(b, 2 * k),
    decreases k,
{
    if k > 0 {
        lemma_pow_square(b, (k - 1) as nat);
        assert(pow_int(b * b, k) == (b * b) * pow_int(b * b, (k - 1) as nat));
        assert(pow_int(b, 2 * k) == b * pow_int(b, (2 * k - 1) as nat));
        assert(pow_int(b, (2 * k - 1) as nat) == b * pow_int(b, (2 * (k - 1)) as nat));
        assert((b * b) * pow_int(b, (2 * (k - 1)) as nat) == b * (b * pow_int(
            b,
            (2 * (k - 1)) as nat,
        ))) by (nonlinear_arith);
    }
}

/// A power of a cropped base keeps the residue of the power.
proof fn lemma_pow_crop(b: int, k: nat)
    ensures
        pow_int(crop64(b), k) % two64() == pow_int(b, k) % two64(),
    decreases k,
{
    let m = two64();
    if k > 0 {
        lemma_pow_crop(b, (k - 1) as nat);
        lemma_crop64_basics(b);
        // pow(crop(b), k) = crop(b) * pow(crop(b), k-1)
        lemma_mul_mod_noop(crop64(b), pow_int(crop64(b), (k - 1) as nat), m);
        lemma_mul_mod_noop(b, pow_int(b, (k - 1) as nat), m);
        lemma_mul_mod_noop(b % m, pow_int(b, (k - 1) as nat) % m, m);
        assert((crop64(b) % m) == (b % m));
        assert((pow_int(crop64(b), (k - 1) as nat) % m) == (pow_int(b, (k - 1) as nat) % m));
    }
}

/// Both factors of a cropped product may be replaced by congruent ones.
proof fn lemma_crop64_mul_congruent(x: int, y: int, x2: int, y2: int)
    requires
        x % two64() == x2 % two64(),
        y % two64() == y2 % two64(),
    ensures
        crop64(x * y) == crop64(x2 * y2),
{
    let m = two64();
    lemma_mul_mod_noop(x, y, m);
    lemma_mul_mod_noop(x2, y2, m);
    lemma_crop64_congruent(x * y, x2 * y2);
}

/// The product of residues is the residue of the product.
proof fn lemma_mul_mod_noop(x: int, y: int, m: int)
    requires
        m > 0,
    ensures
        ((x % m) * (y % m)) % m == (x * y) % m,
{
    vstd::arithmetic::div_mod::lemma_mul_mod_noop_general(x, y, m);
}

/// Truncating (round-toward-zero) division, the meaning of the language's
/// `/` on integers; the divisor must not be zero.
pub open spec fn tdiv(x: int, y: int) -> int
    recommends
        y != 0,
{
    if x == 0 {
        0
    } else if x > 0 && y > 0 {
        x / y
    } else if x < 0 && y < 0 {
        (-x) / (-y)
    } else if x < 0 {
        -((-x) / y)
    } else {
        -(x / (-y))
    }
}

/// The remainder matching `tdiv`: it has the sign of the dividend.
pub open spec fn trem(x: int, y: int) -> int
    recommends
        y != 0,
{
    x - tdiv(x, y) * y
}

/// The factorial the language computes: the product of 2 through `n`, each
/// multiplication wrapping at 64 bits; 1 when `n < 2`.
pub open spec fn fact_wrap(n: int) -> int
    decreases n,
{
    if n < 2 {
        1
    } else {
        crop64(fact_wrap(n - 1) * n)
    }
}

/// `x + y` with 64-bit wrap-around.
pub fn wrap_add(x: i64, y: i64) -> (r: i64)
    ensures
        r as int == crop64(x as int + y as int),
{
    proof {
        lemma_crop64_basics(x as int + y as int);
        lemma_fundamental_div_mod_converse(
            x as int + y as int,
            two64(),
            if x as int + y as int >= 0 {
                0
            } else {
                -1
            },
            if x as int + y as int >= 0 {
                x as int + y as int
            } else {
                x as int + y as int + two64()
            },
        );
    }
    x.wrapping_add(y)
}

/// `x - y` with 64-bit wrap-around.
pub fn wrap_sub(x: i64, y: i64) -> (r: i64)
    ensures
        r as int == crop64(x as int - y as int),
{
    proof {
        lemma_crop64_basics(x as int - y as int);
        lemma_fundamental_div_mod_converse(
            x as int - y as int,
            two64(),
            if x as int - y as int >= 0 {
                0
            } else {
                -1
            },
            if x as int - y as int >= 0 {
                x as int - y as int
            } else {
                x as int - y as int + two64()
            },
        );
    }
    x.wrapping_sub(y)
}

/// `x * y` with 64-bit wrap-around.
pub fn wrap_mul(x: i64, y: i64) -> (r: i64)
    ensures
        r as int == crop64(x as int * y as int),
{
    x.wrapping_mul(y)
}

/// The magnitude of a truncating quotient of 64-bit operands never exceeds
/// two to the sixty-third, and the quotient of `checked_div`'s formula is
/// exactly `tdiv`.
proof fn lemma_tdiv_bounds(x: i64, y: i64)
    requires
        y != 0,
    ensures
        -(two64() / 2) <= tdiv(x as int, y as int) <= two64() / 2,
{
    let xi = x as int;
    let yi = y as int;
    if xi > 0 && yi > 0 {
        vstd::arithmetic::div_mod::lemma_div_pos_is_pos(xi, yi);
        vstd::arithmetic::div_mod::lemma_div_nonincreasing(xi, yi);
    } else if xi < 0 && yi < 0 {
        vstd::arithmetic::div_mod::lemma_div_pos_is_pos(-xi, -yi);
        vstd::arithmetic::div_mod::lemma_div_nonincreasing(-xi, -yi);
    } else if xi < 0 {
        vstd::arithmetic::div_mod::lemma_div_pos_is_pos(-xi, yi);
        vstd::arithmetic::div_mod::lemma_div_nonincreasing(-xi, yi);
    } else if xi > 0 {
        vstd::arithmetic::div_mod::lemma_div_pos_is_pos(xi, -yi);
        vstd::arithmetic::div_mod::lemma_div_nonincreasing(xi, -yi);
    }
}

/// `x / y` truncated, wrapping on the one overflowing case; `y` must not
/// be zero.
pub fn wrap_div(x: i64, y: i64) -> (r: i64)
    requires
        y != 0,
    ensures
        r as int == crop64(tdiv(x as int, y as int)),
{
    proof {
        lemma_tdiv_bounds(x, y);
    }
    let q = x.checked_div(y);
    match q {
        Some(v) => {
            proof {
                lemma_crop64_basics(tdiv(x as int, y as int));
            }
            v
        }
        None => {
            // the overflowing quotient is two to the sixty-third exactly,
            // which wraps back to i64::MIN
            proof {
                assert(tdiv(x as int, y as int) == two64() / 2);
                assert(crop64(two64() / 2) == i64::MIN as int) by {
                    lemma_mod_multiples_vanish(-1, 0x8000_0000_0000_0000, two64());
                };
            }
            i64::MIN
        }
    }
}

/// The remainder of truncating division; `y` must not be zero.
pub fn wrap_rem(x: i64, y: i64) -> (r: i64)
    requires
        y != 0,
    ensures
        r as int == trem(x as int, y as int),
{
    let q = x.checked_rem(y);
    match q {
        Some(v) => {
            proof {
                lemma_trem_matches(x, y, v as int);
            }
            v
        }
        None => {
            proof {
                assert(x == i64::MIN && y == -1);
                assert(tdiv(x as int, y as int) == two64() / 2);
            }
            0
        }
    }
}

/// What `checked_rem` returns is `trem`.
proof fn lemma_trem_matches(x: i64, y: i64, v: int)
    requires
        y != 0,
        !(x == i64::MIN && y == -1),
        v == ({
            let xi = x as int;
            let yi = y as int;
            if xi == 0 {
                0int
            } else if xi > 0 && yi > 0 {
                xi % yi
            } else if xi < 0 && yi < 0 {
                ((xi * -1) % (yi * -1)) * -1
            } else if xi < 0 {
                ((xi * -1) % yi) * -1
            } else {
                xi % (yi * -1)
            }
        }),
    ensures
        v == trem(x as int, y as int),
{
    let xi = x as int;
    let yi = y as int;
    if xi == 0 {
        assert(trem(xi, yi) == xi - 0 * yi);
        assert(0 * yi == 0) by (nonlinear_arith);
    } else if xi > 0 && yi > 0 {
        vstd::arithmetic::div_mod::lemma_fundamental_div_mod(xi, yi);
        assert(xi == tdiv(xi, yi) * yi + v) by (nonlinear_arith)
            requires
                xi == yi * (xi / yi) + (xi % yi),
                tdiv(xi, yi) == xi / yi,
                v == xi % yi,
        ;
    } else if xi < 0 && yi < 0 {
        vstd::arithmetic::div_mod::lemma_fundamental_div_mod(-xi, -yi);
        assert(xi == tdiv(xi, yi) * yi + v) by (nonlinear_arith)
            requires
                -xi == (-yi) * ((-xi) / (-yi)) + ((-xi) % (-yi)),
                tdiv(xi, yi) == (-xi) / (-yi),
                v == ((xi * -1) % (yi * -1)) * -1,
        ;
    } else if xi < 0 {
        vstd::arithmetic::div_mod::lemma_fundamental_div_mod(-xi, yi);
        assert(xi == tdiv(xi, yi) * yi + v) by (nonlinear_arith)
            requires
                -xi == yi * ((-xi) / yi) + ((-xi) % yi),
                tdiv(xi, yi) == -((-xi) / yi),
                v == ((xi * -1) % yi) * -1,
        ;
    } else {
        vstd::arithmetic::div_mod::lemma_fundamental_div_mod(xi, -yi);
        assert(xi == tdiv(xi, yi) * yi + v) by (nonlinear_arith)
            requires
                xi == (-yi) * (xi / (-yi)) + (xi % (-yi)),
                tdiv(xi, yi) == -(xi / (-yi)),
                v == xi % (yi * -1),
        ;
    }
    assert(trem(xi, yi) == xi - tdiv(xi, yi) * yi);
}

/// `x` to the power `y`, each multiplication wrapping at 64 bits, by
/// square and multiply.
pub fn wrap_pow(x: i64, y: u64) -> (r: i64)
    ensures
        r as int == crop64(pow_int(x as int, y as nat)),
{
    let mut base: i64 = x;
    let mut e: u64 = y;
    let mut acc: i64 = 1;
    while e > 0
        invariant
            crop64(acc as int * pow_int(base as int, e as nat)) == crop64(
                pow_int(x as int, y as nat),
            ),
        decreases e,
    {
        let ghost acc0 = acc as int;
        let ghost b0 = base as int;
        let ghost e0 = e as nat;
        if e % 2 == 1 {
            acc = acc.wrapping_mul(base);
            proof {
                let k = ((e0 - 1) / 2) as nat;
                assert(e0 == 2 * k + 1);
                assert(pow_int(b0, e0) == b0 * pow_int(b0, 2 * k));
                lemma_pow_square(b0, k);
                // acc0 * (b0 * pow(b0*b0, k)) == (acc0 * b0) * pow(b0*b0, k)
                assert(acc0 * (b0 * pow_int(b0 * b0, k)) == (acc0 * b0) * pow_int(b0 * b0, k))
                    by (nonlinear_arith);
                lemma_crop64_basics(acc0 * b0);
                lemma_crop64_mul_congruent(
                    (acc0 * b0),
                    pow_int(b0 * b0, k),
                    (acc as int),
                    pow_int(b0 * b0, k),
                );
            }
        } else {
            proof {
                let k = (e0 / 2) as nat;
                assert(e0 == 2 * k);
                lemma_pow_square(b0, k);
            }
        }
        proof {
            let e1 = ((if e0 % 2 == 1 { e0 - 1 } else { e0 as int }) / 2) as nat;
            lemma_pow_crop(b0 * b0, e1);
            lemma_crop64_mul_congruent(
                acc as int,
                pow_int(b0 * b0, e1),
                acc as int,
                pow_int(crop64(b0 * b0), e1),
            );
        }
        base = base.wrapping_mul(base);
        e = e / 2;
    }
    proof {
        assert(pow_int(base as int, 0) == 1);
        lemma_crop64_basics(acc as int);
    }
    acc
}

/// The factorial with each multiplication wrapping at 64 bits.
pub fn wrap_factorial(n: i64) -> (r: i64)
    ensures
        r as int == fact_wrap(n as int),
{
    if n < 2 {
        return 1;
    }
    let mut acc: i64 = 1;
    let mut i: i64 = 1;
    while i < n
        invariant
            1 <= i <= n,
            acc as int == fact_wrap(i as int),
        decreases n - i,
    {
        let next = i + 1;
        acc = acc.wrapping_mul(next);
        i = next;
    }
    acc
}

} // verus!
