//! Z-order (Morton) codes: interleaving the bits of two coordinates into one
//! index, and splitting such an index back apart.

use vstd::prelude::*;
use vstd::arithmetic::power2::{pow2, lemma_pow2_adds, lemma2_to64, lemma2_to64_rest};
use vstd::arithmetic::div_mod::lemma_fundamental_div_mod_converse;

verus! {

/// The Morton code of `(x, y)`: bit `i` of `x` lands at bit `2i` of the
/// code, bit `i` of `y` at bit `2i + 1`.
pub open spec fn zord(x: nat, y: nat) -> nat
    decreases x + y,
{
    if x == 0 && y == 0 {
        0
    } else {
        (x % 2) + 2 * (y % 2) + 4 * zord(x / 2, y / 2)
    }
}

/// The x half of a Morton code: its even-position bits, packed together.
pub open spec fn unord_x(z: nat) -> nat
    decreases z,
{
    if z == 0 {
        0
    } else {
        (z % 2) + 2 * unord_x(z / 4)
    }
}

/// The y half of a Morton code: its odd-position bits, packed together.
pub open spec fn unord_y(z: nat) -> nat
    decreases z,
{
    if z == 0 {
        0
    } else {
        ((z / 2) % 2) + 2 * unord_y(z / 4)
    }
}

/// How a number decomposes around its two lowest bits: quotient and digits
/// of `b + 4 * q` for a base-4 digit `b`.
proof fn lemma_base4_digit(b: nat, q: nat)
    requires
        b < 4,
    ensures
        (b + 4 * q) % 4 == b,
        (b + 4 * q) / 4 == q,
        (b + 4 * q) % 2 == b % 2,
        ((b + 4 * q) / 2) % 2 == b / 2,
        ((b + 4 * q) / 2) / 2 == q,
{
    let z = b + 4 * q;
    lemma_fundamental_div_mod_converse(z as int, 4, q as int, b as int);
    lemma_fundamental_div_mod_converse(z as int, 2, (b / 2 + 2 * q) as int, (b % 2) as int);
    lemma_fundamental_div_mod_converse((z / 2) as int, 2, q as int, (b / 2) as int);
}

/// Morton codes of coordinates below `2^k` stay below `4^k`.
pub proof fn lemma_zord_bound(x: nat, y: nat, k: nat)
    requires
        x < pow2(k),
        y < pow2(k),
    ensures
        zord(x, y) < pow2(2 * k),
    decreases k,
{
    lemma2_to64();
    if x == 0 && y == 0 {
        vstd::arithmetic::power2::lemma_pow2_pos(2 * k);
    } else {
        lemma_pow2_adds(1, (k - 1) as nat);
        lemma_zord_bound(x / 2, y / 2, (k - 1) as nat);
        lemma_pow2_adds(2, (2 * k - 2) as nat);
    }
}

/// Splitting a Morton code below `4^k` gives coordinates below `2^k`.
pub proof fn lemma_unord_bound(z: nat, k: nat)
    requires
        z < pow2(2 * k),
    ensures
        unord_x(z) < pow2(k),
        unord_y(z) < pow2(k),
    decreases k,
{
    lemma2_to64();
    if z == 0 {
        vstd::arithmetic::power2::lemma_pow2_pos(k);
    } else {
        lemma_pow2_adds(2, (2 * k - 2) as nat);
        lemma_unord_bound(z / 4, (k - 1) as nat);
        lemma_pow2_adds(1, (k - 1) as nat);
    }
}

/// Splitting the Morton code of `(x, y)` gives back `x` and `y`.
pub proof fn lemma_unord_zord(x: nat, y: nat)
    ensures
        unord_x(zord(x, y)) == x,
        unord_y(zord(x, y)) == y,
    decreases x + y,
{
    if x == 0 && y == 0 {
    } else {
        let b = (x % 2) + 2 * (y % 2);
        let q = zord(x / 2, y / 2);
        lemma_base4_digit(b, q);
        lemma_unord_zord(x / 2, y / 2);
        assert(b % 2 == x % 2);
        assert(b / 2 == y % 2);
    }
}

/// Recombining the two halves of a Morton code gives back the code.
pub proof fn lemma_zord_unord(z: nat)
    ensures
        zord(unord_x(z), unord_y(z)) == z,
    decreases z,
{
    if z == 0 {
    } else {
        let b = (z % 2) + 2 * ((z / 2) % 2);
        lemma_base4_digit(b, z / 4);
        assert(z == b + 4 * (z / 4)) by {
            vstd::arithmetic::div_mod::lemma_fundamental_div_mod(z as int, 2);
            vstd::arithmetic::div_mod::lemma_fundamental_div_mod((z / 2) as int, 2);
        };
        let x = unord_x(z);
        let y = unord_y(z);
        lemma_zord_unord(z / 4);
        assert(x == (z % 2) + 2 * unord_x(z / 4));
        assert(y == ((z / 2) % 2) + 2 * unord_y(z / 4));
        if x == 0 && y == 0 {
            assert(z == 0);
        } else {
            assert(x % 2 == z % 2 && x / 2 == unord_x(z / 4)) by {
                lemma_fundamental_div_mod_converse(
                    x as int,
                    2,
                    unord_x(z / 4) as int,
                    (z % 2) as int,
                );
            };
            assert(y % 2 == (z / 2) % 2 && y / 2 == unord_y(z / 4)) by {
                lemma_fundamental_div_mod_converse(
                    y as int,
                    2,
                    unord_y(z / 4) as int,
                    ((z / 2) % 2) as int,
                );
            };
        }
    }
}

/// The Morton code of the south-east corner of a `2^k` grid is the last
/// index of the level, `4^k - 1`.
pub proof fn lemma_zord_corner(k: nat)
    ensures
        zord((pow2(k) - 1) as nat, (pow2(k) - 1) as nat) == pow2(2 * k) - 1,
    decreases k,
{
    lemma2_to64();
    if k == 0 {
    } else {
        let m = (pow2(k) - 1) as nat;
        lemma_pow2_adds(1, (k - 1) as nat);
        vstd::arithmetic::power2::lemma_pow2_pos((k - 1) as nat);
        assert(pow2(k) == 2 * pow2((k - 1) as nat));
        assert(m == (pow2((k - 1) as nat) - 1) * 2 + 1);
        assert(m % 2 == 1 && m / 2 == pow2((k - 1) as nat) - 1) by {
            lemma_fundamental_div_mod_converse(m as int, 2, pow2((k - 1) as nat) - 1, 1);
        };
        lemma_zord_corner((k - 1) as nat);
        lemma_pow2_adds(2, (2 * k - 2) as nat);
    }
}

/// Morton codes grow with each coordinate: moving east or south in the
/// grid moves forward in the enumeration of a level.
pub proof fn lemma_zord_monotonic(x1: nat, y1: nat, x2: nat, y2: nat)
    requires
        x1 <= x2,
        y1 <= y2,
    ensures
        zord(x1, y1) <= zord(x2, y2),
        x1 < x2 || y1 < y2 ==> zord(x1, y1) < zord(x2, y2),
    decreases x2 + y2,
{
    if x2 == 0 && y2 == 0 {
    } else if x1 == 0 && y1 == 0 {
        // A nonzero coordinate pair has a nonzero code, by the roundtrip.
        lemma_unord_zord(x2, y2);
        if zord(x2, y2) == 0 {
            lemma_unord_zord(x1, y1);
            assert(false);
        }
    } else {
        lemma_zord_monotonic(x1 / 2, y1 / 2, x2 / 2, y2 / 2);
        let q1 = zord(x1 / 2, y1 / 2);
        let q2 = zord(x2 / 2, y2 / 2);
        if q1 == q2 {
            // Equal codes of the halves mean equal halves, so the order of
            // the full coordinates is the order of their low bits.
            lemma_unord_zord(x1 / 2, y1 / 2);
            lemma_unord_zord(x2 / 2, y2 / 2);
            assert(x1 / 2 == x2 / 2 && y1 / 2 == y2 / 2);
        }
    }
}

/// Converts x and y to a Morton code by interleaving their bits, lowest
/// nibble first.
pub fn xy_to_zorder(x: u32, y: u32) -> (r: u64)
    ensures
        r as nat == zord(x as nat, y as nat),
    decreases x + y,
{
    if x == 0 && y == 0 {
        0
    } else {
        let rest = xy_to_zorder(x / 2, y / 2);
        proof {
            lemma2_to64();
            lemma2_to64_rest();
            lemma_zord_bound((x / 2) as nat, (y / 2) as nat, 31);
        }
        ((x % 2) as u64) + 2 * ((y % 2) as u64) + 4 * rest
    }
}

/// Splits a Morton code back into its x and y coordinates.
pub fn zorder_to_xy(zorder: u64) -> (r: (u32, u32))
    ensures
        r.0 as nat == unord_x(zorder as nat),
        r.1 as nat == unord_y(zorder as nat),
    decreases zorder,
{
    if zorder == 0 {
        (0, 0)
    } else {
        let rest = zorder_to_xy(zorder / 4);
        proof {
            lemma2_to64();
            lemma2_to64_rest();
            lemma_unord_bound((zorder / 4) as nat, 31);
        }
        (((zorder % 2) as u32) + 2 * rest.0, (((zorder / 2) % 2) as u32) + 2 * rest.1)
    }
}

} // verus!
