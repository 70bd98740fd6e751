//! Parsing tiles out of TMS-style addresses: a zoom/x/y fragment anchored
//! at the end of a string, with an optional leading slash and an optional
//! short extension, as in `/17/1/1234.png` or a full tile URL.

use vstd::prelude::*;
use vstd::arithmetic::power::pow;
use vstd::string::StrSliceExecFns;
use crate::tile::Tile;

verus! {

/// Whether `c` is an ASCII decimal digit.
pub open spec fn is_digit(c: char) -> bool {
    48 <= c as u32 <= 57
}

/// Whether `c` is an ASCII letter.
pub open spec fn is_letter(c: char) -> bool {
    (65 <= c as u32 <= 90) || (97 <= c as u32 <= 122)
}

/// The length of the run of digits in `s` that starts at `j`.
pub open spec fn digit_run(s: Seq<char>, j: int) -> int
    decreases s.len() - j,
{
    if j < 0 || j >= s.len() || !is_digit(s[j]) {
        0
    } else {
        1 + digit_run(s, j + 1)
    }
}

/// The number a digit sequence denotes.
pub open spec fn digits_val(s: Seq<char>) -> int
    decreases s.len(),
{
    if s.len() == 0 {
        0
    } else {
        digits_val(s.drop_last()) * 10 + (s.last() as u32 - 48)
    }
}

/// Whether `e` is an acceptable tail after the y digits: nothing, or a dot
/// followed by three or four ASCII letters.
pub open spec fn ext_ok(e: Seq<char>) -> bool {
    ||| e.len() == 0
    ||| (4 <= e.len() <= 5 && e[0] == '.' && (forall|i: int|
        1 <= i < e.len() ==> is_letter(#[trigger] e[i])))
}

/// Where the address grammar matches at position `i` of `s`: an optional
/// slash, one or two digits of zoom, a slash, one to ten digits of x, a
/// slash, one to ten digits of y, and an acceptable tail reaching the end
/// of the string.  Digit groups cannot stop short of their run, so the
/// decomposition at a position is unique.  Yields the zoom, x and y
/// values.
pub open spec fn parse_at(s: Seq<char>, i: int) -> Option<(int, int, int)> {
    let j = if 0 <= i < s.len() && s[i] == '/' {
        i + 1
    } else {
        i
    };
    let zl = digit_run(s, j);
    if !(1 <= zl <= 2 && j + zl < s.len() && s[j + zl] == '/') {
        None
    } else {
        let jx = j + zl + 1;
        let xl = digit_run(s, jx);
        if !(1 <= xl <= 10 && jx + xl < s.len() && s[jx + xl] == '/') {
            None
        } else {
            let jy = jx + xl + 1;
            let yl = digit_run(s, jy);
            if !(1 <= yl <= 10 && ext_ok(s.subrange(jy + yl, s.len() as int))) {
                None
            } else {
                Some(
                    (
                        digits_val(s.subrange(j, j + zl)),
                        digits_val(s.subrange(jx, jx + xl)),
                        digits_val(s.subrange(jy, jy + yl)),
                    ),
                )
            }
        }
    }
}

/// The first position at or after `i` where the grammar matches.
pub open spec fn first_match_from(s: Seq<char>, i: int) -> Option<int>
    decreases s.len() + 1 - i,
{
    if i > s.len() {
        None
    } else if parse_at(s, i) is Some {
        Some(i)
    } else {
        first_match_from(s, i + 1)
    }
}

/// What `Tile::from_tms` owes: the tile named by the leftmost grammar
/// match, where its x and y fit the coordinate width and the tile passes
/// validation; `None` otherwise.
pub open spec fn spec_from_tms(s: Seq<char>) -> Option<Tile> {
    match first_match_from(s, 0) {
        None => None,
        Some(i) => match parse_at(s, i) {
            None => None,
            Some(v) => if v.1 <= u32::MAX && v.2 <= u32::MAX {
                Tile::spec_new(v.0 as u8, v.1 as u32, v.2 as u32)
            } else {
                None
            },
        },
    }
}

/// Every position of a digit run holds a digit.
proof fn lemma_digit_run_digits(s: Seq<char>, j: int)
    requires
        0 <= j <= s.len(),
    ensures
        j + digit_run(s, j) <= s.len(),
        forall|t: int| j <= t < j + digit_run(s, j) ==> is_digit(#[trigger] s[t]),
    decreases s.len() - j,
{
    if j < s.len() && is_digit(s[j]) {
        lemma_digit_run_digits(s, j + 1);
    }
}

/// A sequence of `n` digits denotes a number below `10^n`.
proof fn lemma_digits_val_bound(s: Seq<char>)
    requires
        forall|t: int| 0 <= t < s.len() ==> is_digit(#[trigger] s[t]),
    ensures
        0 <= digits_val(s) < pow(10, s.len() as nat),
    decreases s.len(),
{
    reveal_with_fuel(pow, 2);
    if s.len() > 0 {
        lemma_digits_val_bound(s.drop_last());
        assert(pow(10, s.len() as nat) == 10 * pow(10, (s.len() - 1) as nat));
    }
}

/// Counts the digits of `s` from position `j` on.
fn digit_run_len(s: &str, j: usize) -> (r: usize)
    requires
        j <= s@.len(),
    ensures
        r as int == digit_run(s@, j as int),
        j + r <= s@.len(),
{
    let len = s.unicode_len();
    let mut k = j;
    let mut stop = false;
    while !stop && k < len
        invariant
            j <= k <= len,
            len == s@.len(),
            digit_run(s@, j as int) == (k - j) + digit_run(s@, k as int),
            stop ==> digit_run(s@, k as int) == 0,
        decreases len - k, (if stop {
            0int
        } else {
            1int
        }),
    {
        let c = s.get_char(k);
        let u = c as u32;
        if u < 48 || u > 57 {
            stop = true;
        } else {
            k = k + 1;
        }
    }
    k - j
}

/// Reads the number denoted by the `l` digits of `s` at position `j`.
fn parse_digits(s: &str, j: usize, l: usize) -> (r: u64)
    requires
        j + l <= s@.len(),
        j + l <= usize::MAX,
        l <= 10,
        forall|t: int| j <= t < j + l ==> is_digit(#[trigger] s@[t]),
    ensures
        r as int == digits_val(s@.subrange(j as int, (j + l) as int)),
{
    proof {
        reveal_with_fuel(pow, 11);
    }
    let mut v: u64 = 0;
    let mut k = j;
    while k < j + l
        invariant
            j <= k <= j + l,
            j + l <= s@.len(),
            j + l <= usize::MAX,
            l <= 10,
            forall|t: int| j <= t < j + l ==> is_digit(#[trigger] s@[t]),
            v as int == digits_val(s@.subrange(j as int, k as int)),
            (v as int) < pow(10, (k - j) as nat),
            pow(10, 10) == 10000000000,
            forall|m: nat| m < 10 ==> 10 * #[trigger] pow(10, m) == pow(10, m + 1),
        decreases j + l - k,
    {
        let c = s.get_char(k);
        let d = (c as u32) - 48;
        proof {
            let prefix = s@.subrange(j as int, k as int);
            lemma_digits_val_bound(prefix);
            assert(s@.subrange(j as int, k as int + 1).drop_last() =~= prefix);
        }
        v = v * 10 + (d as u64);
        k = k + 1;
    }
    v
}

/// Decides whether the tail of `s` from position `p` on is acceptable
/// after the y digits.
fn ext_check(s: &str, p: usize) -> (r: bool)
    requires
        p <= s@.len(),
    ensures
        r == ext_ok(s@.subrange(p as int, s@.len() as int)),
{
    let len = s.unicode_len();
    let ghost e = s@.subrange(p as int, s@.len() as int);
    if p == len {
        return true;
    }
    let rem = len - p;
    if rem < 4 || rem > 5 {
        return false;
    }
    let c0 = s.get_char(p);
    if c0 != '.' {
        return false;
    }
    let mut k = p + 1;
    while k < len
        invariant
            p + 1 <= k <= len,
            len == s@.len(),
            e == s@.subrange(p as int, s@.len() as int),
            forall|t: int| p + 1 <= t < k ==> is_letter(#[trigger] s@[t]),
        decreases len - k,
    {
        let c = s.get_char(k);
        let u = c as u32;
        if !((65 <= u && u <= 90) || (97 <= u && u <= 122)) {
            proof {
                assert(e[k - p as int] == s@[k as int]);
            }
            return false;
        }
        k = k + 1;
    }
    proof {
        assert(forall|t: int| 1 <= t < e.len() ==> is_letter(#[trigger] e[t])) by {
            assert(forall|t: int|
                1 <= t < e.len() ==> #[trigger] e[t] == s@[p + t] && is_letter(s@[p + t]));
        };
    }
    true
}

/// Tries the address grammar at position `i`, yielding the zoom, x and y
/// values of the match.
fn try_parse_at(s: &str, i: usize) -> (r: Option<(u8, u64, u64)>)
    requires
        i < s@.len(),
    ensures
        r is Some <==> parse_at(s@, i as int) is Some,
        r matches Some(v) ==> parse_at(s@, i as int) == Some(
            (v.0 as int, v.1 as int, v.2 as int),
        ),
{
    proof {
        reveal_with_fuel(pow, 11);
    }
    let len = s.unicode_len();
    let j = if s.get_char(i) == '/' {
        i + 1
    } else {
        i
    };
    let zl = digit_run_len(s, j);
    if zl < 1 || zl > 2 {
        return None;
    }
    if j + zl >= len {
        return None;
    }
    if s.get_char(j + zl) != '/' {
        return None;
    }
    let jx = j + zl + 1;
    let xl = digit_run_len(s, jx);
    if xl < 1 || xl > 10 {
        return None;
    }
    if jx + xl >= len {
        return None;
    }
    if s.get_char(jx + xl) != '/' {
        return None;
    }
    let jy = jx + xl + 1;
    let yl = digit_run_len(s, jy);
    if yl < 1 || yl > 10 {
        return None;
    }
    if !ext_check(s, jy + yl) {
        return None;
    }
    proof {
        lemma_digit_run_digits(s@, j as int);
        lemma_digit_run_digits(s@, jx as int);
        lemma_digit_run_digits(s@, jy as int);
        lemma_digits_val_bound(s@.subrange(j as int, (j + zl) as int));
        assert(forall|t: int|
            j <= t < j + zl ==> #[trigger] s@.subrange(j as int, (j + zl) as int)[t - j]
                == s@[t]);
    }
    let z = parse_digits(s, j, zl);
    let x = parse_digits(s, jx, xl);
    let y = parse_digits(s, jy, yl);
    proof {
        lemma_digits_val_bound(s@.subrange(j as int, (j + zl) as int));
        assert(pow(10, 2) == 100);
    }
    Some((z as u8, x, y))
}

impl Tile {
    /// Constructs a tile from a TMS-style address: the rightmost part of
    /// the string must read zoom/x/y, with an optional leading slash and
    /// an optional three- or four-letter extension; anything may come
    /// before it.  Returns `None` when no such part exists, or when the
    /// numbers fail tile validation.
    pub fn from_tms(tms: &str) -> (r: Option<Tile>)
        ensures
            r == spec_from_tms(tms@),
    {
        let len = tms.unicode_len();
        let mut i: usize = 0;
        while i < len
            invariant
                len == tms@.len(),
                i <= len,
                first_match_from(tms@, 0) == first_match_from(tms@, i as int),
            decreases len - i,
        {
            match try_parse_at(tms, i) {
                Some(v) => {
                    proof {
                        assert(first_match_from(tms@, i as int) == Some(i as int));
                    }
                    if v.1 > 0xFFFF_FFFFu64 || v.2 > 0xFFFF_FFFFu64 {
                        return None;
                    }
                    return Tile::new(v.0, v.1 as u32, v.2 as u32);
                },
                None => {
                },
            }
            i = i + 1;
        }
        proof {
            assert(digit_run(tms@, len as int) == 0);
            assert(digit_run(tms@, len as int + 1) == 0);
            assert(parse_at(tms@, len as int) is None);
            assert(first_match_from(tms@, len as int + 1) is None);
        }
        None
    }
}

} // verus!
