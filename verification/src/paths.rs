//! On-disk path encodings for tiles: fixed-width decimal directory
//! fragments and the nibble-interleaved layout, all built from a verified
//! decimal formatter.

use vstd::prelude::*;
use vstd::arithmetic::power2::{pow2, lemma2_to64};
use vstd::arithmetic::power::pow;
use vstd::string::StringExecFns;
use crate::tile::Tile;

verus! {

/// The decimal digit characters in order.
pub open spec fn digit_char(d: nat) -> char {
    if d == 0 {
        '0'
    } else if d == 1 {
        '1'
    } else if d == 2 {
        '2'
    } else if d == 3 {
        '3'
    } else if d == 4 {
        '4'
    } else if d == 5 {
        '5'
    } else if d == 6 {
        '6'
    } else if d == 7 {
        '7'
    } else if d == 8 {
        '8'
    } else {
        '9'
    }
}

/// The decimal digits of `n`, most significant first.
pub open spec fn dec_chars(n: nat) -> Seq<char>
    decreases n,
{
    if n < 10 {
        seq![digit_char(n)]
    } else {
        dec_chars(n / 10) + seq![digit_char(n % 10)]
    }
}

/// How many decimal digits `n` has.
pub open spec fn dec_len(n: nat) -> nat
    decreases n,
{
    if n < 10 {
        1
    } else {
        1 + dec_len(n / 10)
    }
}

/// A run of `k` zero characters.
pub open spec fn zeroes(k: nat) -> Seq<char> {
    Seq::new(k, |i: int| '0')
}

/// The decimal digits of `n`, left-padded with zeros to `width` characters.
pub open spec fn pad_chars(n: nat, width: nat) -> Seq<char> {
    if dec_len(n) >= width {
        dec_chars(n)
    } else {
        zeroes((width - dec_len(n)) as nat) + dec_chars(n)
    }
}

/// A path separator, as a character sequence.
pub open spec fn slash() -> Seq<char> {
    seq!['/']
}

/// The dot before a file extension, as a character sequence.
pub open spec fn dot() -> Seq<char> {
    seq!['.']
}

/// Numbers below `10^k` have at most `k` decimal digits.
proof fn lemma_dec_len_bound(n: nat, k: nat)
    requires
        k >= 1,
        n < pow(10, k),
    ensures
        dec_len(n) <= k,
    decreases k,
{
    reveal_with_fuel(pow, 2);
    if n >= 10 {
        assert(pow(10, k) == 10 * pow(10, (k - 1) as nat));
        lemma_dec_len_bound(n / 10, (k - 1) as nat);
    }
}

/// Every `u32` has at most ten decimal digits.
proof fn lemma_dec_len_u32(n: nat)
    requires
        n <= u32::MAX,
    ensures
        dec_len(n) <= 10,
{
    reveal_with_fuel(pow, 11);
    lemma_dec_len_bound(n, 10);
}

/// `dec_chars` produces exactly `dec_len` characters.
pub proof fn lemma_dec_chars_len(n: nat)
    ensures
        dec_chars(n).len() == dec_len(n),
    decreases n,
{
    if n >= 10 {
        lemma_dec_chars_len(n / 10);
    }
}

/// Appends one decimal digit character to `out`.
fn push_digit(out: &mut String, d: u32)
    requires
        d < 10,
    ensures
        final(out)@ == old(out)@ + seq![digit_char(d as nat)],
{
    if d == 0 {
        proof {
            reveal_strlit("0");
        }
        out.append("0");
    } else if d == 1 {
        proof {
            reveal_strlit("1");
        }
        out.append("1");
    } else if d == 2 {
        proof {
            reveal_strlit("2");
        }
        out.append("2");
    } else if d == 3 {
        proof {
            reveal_strlit("3");
        }
        out.append("3");
    } else if d == 4 {
        proof {
            reveal_strlit("4");
        }
        out.append("4");
    } else if d == 5 {
        proof {
            reveal_strlit("5");
        }
        out.append("5");
    } else if d == 6 {
        proof {
            reveal_strlit("6");
        }
        out.append("6");
    } else if d == 7 {
        proof {
            reveal_strlit("7");
        }
        out.append("7");
    } else if d == 8 {
        proof {
            reveal_strlit("8");
        }
        out.append("8");
    } else {
        proof {
            reveal_strlit("9");
        }
        out.append("9");
    }
    proof {
        assert(out@ =~= old(out)@ + seq![digit_char(d as nat)]);
    }
}

/// Appends a path separator to `out`.
fn push_slash(out: &mut String)
    ensures
        final(out)@ == old(out)@ + slash(),
{
    proof {
        reveal_strlit("/");
    }
    out.append("/");
    proof {
        assert(out@ =~= old(out)@ + slash());
    }
}

/// Appends the dot before a file extension to `out`.
fn push_dot(out: &mut String)
    ensures
        final(out)@ == old(out)@ + dot(),
{
    proof {
        reveal_strlit(".");
    }
    out.append(".");
    proof {
        assert(out@ =~= old(out)@ + dot());
    }
}

/// Appends the decimal digits of `n` to `out`.
fn push_decimal(out: &mut String, n: u32)
    ensures
        final(out)@ == old(out)@ + dec_chars(n as nat),
    decreases n,
{
    if n >= 10 {
        push_decimal(out, n / 10);
    }
    push_digit(out, n % 10);
    proof {
        assert(out@ =~= old(out)@ + dec_chars(n as nat));
    }
}

/// Appends the decimal digits of `n`, left-padded with zeros to `width`
/// characters, to `out`.
fn push_decimal_pad(out: &mut String, n: u32, width: u32)
    ensures
        final(out)@ == old(out)@ + pad_chars(n as nat, width as nat),
{
    proof {
        lemma_dec_len_u32(n as nat);
    }
    let mut len: u32 = 1;
    let mut m: u32 = n;
    while m >= 10
        invariant
            1 <= len <= dec_len(n as nat),
            dec_len(n as nat) <= 10,
            dec_len(n as nat) == len + dec_len(m as nat) - 1,
        decreases m,
    {
        m = m / 10;
        len = len + 1;
        proof {
            assert(dec_len(m as nat) >= 1);
        }
    }
    proof {
        lemma_dec_len_u32(n as nat);
    }
    let mut k: u32 = len;
    while k < width
        invariant
            len <= k,
            k <= len || k <= width,
            out@ == old(out)@ + zeroes((k - len) as nat),
        decreases width - k,
    {
        push_digit(out, 0);
        proof {
            assert(out@ =~= old(out)@ + zeroes((k + 1 - len) as nat));
        }
        k = k + 1;
    }
    push_decimal(out, n);
    proof {
        lemma_dec_chars_len(n as nat);
        assert(out@ =~= old(out)@ + pad_chars(n as nat, width as nat));
    }
}

/// Converts x and y to the TileCache directory parts: each coordinate split
/// into its millions, thousands and units, three zero-padded digits each.
pub fn xy_to_tc(x: u32, y: u32) -> (r: [String; 6])
    ensures
        r[0]@ == pad_chars((x / 1000000) as nat, 3),
        r[1]@ == pad_chars(((x / 1000) % 1000) as nat, 3),
        r[2]@ == pad_chars((x % 1000) as nat, 3),
        r[3]@ == pad_chars((y / 1000000) as nat, 3),
        r[4]@ == pad_chars(((y / 1000) % 1000) as nat, 3),
        r[5]@ == pad_chars((y % 1000) as nat, 3),
{
    let mut s0 = String::new();
    push_decimal_pad(&mut s0, x / 1000000, 3);
    let mut s1 = String::new();
    push_decimal_pad(&mut s1, (x / 1000) % 1000, 3);
    let mut s2 = String::new();
    push_decimal_pad(&mut s2, x % 1000, 3);
    let mut s3 = String::new();
    push_decimal_pad(&mut s3, y / 1000000, 3);
    let mut s4 = String::new();
    push_decimal_pad(&mut s4, (y / 1000) % 1000, 3);
    let mut s5 = String::new();
    push_decimal_pad(&mut s5, y % 1000, 3);
    [s0, s1, s2, s3, s4, s5]
}

/// Converts x and y to the MapProxy directory parts: each coordinate split
/// into two groups of four zero-padded digits.
pub fn xy_to_mp(x: u32, y: u32) -> (r: [String; 4])
    ensures
        r[0]@ == pad_chars((x / 10000) as nat, 4),
        r[1]@ == pad_chars((x % 10000) as nat, 4),
        r[2]@ == pad_chars((y / 10000) as nat, 4),
        r[3]@ == pad_chars((y % 10000) as nat, 4),
{
    let mut s0 = String::new();
    push_decimal_pad(&mut s0, x / 10000, 4);
    let mut s1 = String::new();
    push_decimal_pad(&mut s1, x % 10000, 4);
    let mut s2 = String::new();
    push_decimal_pad(&mut s2, y / 10000, 4);
    let mut s3 = String::new();
    push_decimal_pad(&mut s3, y % 10000, 4);
    [s0, s1, s2, s3]
}

/// Converts x and y to the TileStash safe directory parts: each coordinate
/// split into two groups of three zero-padded digits.
pub fn xy_to_ts(x: u32, y: u32) -> (r: [String; 4])
    ensures
        r[0]@ == pad_chars((x / 1000) as nat, 3),
        r[1]@ == pad_chars((x % 1000) as nat, 3),
        r[2]@ == pad_chars((y / 1000) as nat, 3),
        r[3]@ == pad_chars((y % 1000) as nat, 3),
{
    let mut s0 = String::new();
    push_decimal_pad(&mut s0, x / 1000, 3);
    let mut s1 = String::new();
    push_decimal_pad(&mut s1, x % 1000, 3);
    let mut s2 = String::new();
    push_decimal_pad(&mut s2, y / 1000, 3);
    let mut s3 = String::new();
    push_decimal_pad(&mut s3, y % 1000, 3);
    [s0, s1, s2, s3]
}

/// The byte the nibble-interleaved layout stores for nibble position `k`:
/// the `k`-th low nibble of `x` in the high half, the `k`-th low nibble of
/// `y` in the low half.
pub open spec fn mt_byte(x: nat, y: nat, k: nat) -> nat {
    ((x / pow2(4 * k)) % 16) * 16 + ((y / pow2(4 * k)) % 16)
}

/// Converts x and y to the nibble-interleaved metatile directory parts:
/// five plain decimal bytes, most significant nibble group first.
pub fn xy_to_mt(x: u32, y: u32) -> (r: [String; 5])
    ensures
        r[0]@ == dec_chars(mt_byte(x as nat, y as nat, 4)),
        r[1]@ == dec_chars(mt_byte(x as nat, y as nat, 3)),
        r[2]@ == dec_chars(mt_byte(x as nat, y as nat, 2)),
        r[3]@ == dec_chars(mt_byte(x as nat, y as nat, 1)),
        r[4]@ == dec_chars(mt_byte(x as nat, y as nat, 0)),
{
    proof {
        lemma2_to64();
        assert(x as nat / 1 == x as nat);
        assert(y as nat / 1 == y as nat);
    }
    let a = ((x / 65536) % 16) * 16 + ((y / 65536) % 16);
    let b = ((x / 4096) % 16) * 16 + ((y / 4096) % 16);
    let c = ((x / 256) % 16) * 16 + ((y / 256) % 16);
    let d = ((x / 16) % 16) * 16 + ((y / 16) % 16);
    let e = (x % 16) * 16 + (y % 16);
    let mut s0 = String::new();
    push_decimal(&mut s0, a);
    let mut s1 = String::new();
    push_decimal(&mut s1, b);
    let mut s2 = String::new();
    push_decimal(&mut s2, c);
    let mut s3 = String::new();
    push_decimal(&mut s3, d);
    let mut s4 = String::new();
    push_decimal(&mut s4, e);
    [s0, s1, s2, s3, s4]
}

/// The TileCache path: zoom, the six TileCache parts, and the extension.
pub open spec fn spec_tc_path(zoom: nat, x: nat, y: nat, ext: Seq<char>) -> Seq<char> {
    dec_chars(zoom) + slash() + pad_chars(x / 1000000, 3) + slash() + pad_chars(
        (x / 1000) % 1000,
        3,
    ) + slash() + pad_chars(x % 1000, 3) + slash() + pad_chars(y / 1000000, 3) + slash()
        + pad_chars((y / 1000) % 1000, 3) + slash() + pad_chars(y % 1000, 3) + dot() + ext
}

/// The MapProxy path: zoom, the four MapProxy parts, and the extension.
pub open spec fn spec_mp_path(zoom: nat, x: nat, y: nat, ext: Seq<char>) -> Seq<char> {
    dec_chars(zoom) + slash() + pad_chars(x / 10000, 4) + slash() + pad_chars(x % 10000, 4)
        + slash() + pad_chars(y / 10000, 4) + slash() + pad_chars(y % 10000, 4) + dot() + ext
}

/// The TileStash safe path: zoom, the four TileStash parts, and the
/// extension.
pub open spec fn spec_ts_path(zoom: nat, x: nat, y: nat, ext: Seq<char>) -> Seq<char> {
    dec_chars(zoom) + slash() + pad_chars(x / 1000, 3) + slash() + pad_chars(x % 1000, 3)
        + slash() + pad_chars(y / 1000, 3) + slash() + pad_chars(y % 1000, 3) + dot() + ext
}

/// The plain zoom/x/y fragment.
pub open spec fn spec_zxy(zoom: nat, x: nat, y: nat) -> Seq<char> {
    dec_chars(zoom) + slash() + dec_chars(x) + slash() + dec_chars(y)
}

/// The nibble-interleaved metatile path: zoom, the five interleaved bytes,
/// and the extension.
pub open spec fn spec_mt_path(zoom: nat, x: nat, y: nat, ext: Seq<char>) -> Seq<char> {
    dec_chars(zoom) + slash() + dec_chars(mt_byte(x, y, 4)) + slash() + dec_chars(
        mt_byte(x, y, 3),
    ) + slash() + dec_chars(mt_byte(x, y, 2)) + slash() + dec_chars(mt_byte(x, y, 1)) + slash()
        + dec_chars(mt_byte(x, y, 0)) + dot() + ext
}

impl Tile {
    /// Returns the TileCache path for storing this tile.
    pub fn tc_path(&self, ext: &str) -> (r: String)
        ensures
            r@ == spec_tc_path(self.zoom as nat, self.x as nat, self.y as nat, ext@),
    {
        let tc = xy_to_tc(self.x, self.y);
        let mut out = String::new();
        push_decimal(&mut out, self.zoom as u32);
        push_slash(&mut out);
        out.append(tc[0].as_str());
        push_slash(&mut out);
        out.append(tc[1].as_str());
        push_slash(&mut out);
        out.append(tc[2].as_str());
        push_slash(&mut out);
        out.append(tc[3].as_str());
        push_slash(&mut out);
        out.append(tc[4].as_str());
        push_slash(&mut out);
        out.append(tc[5].as_str());
        push_dot(&mut out);
        out.append(ext);
        proof {
            assert(out@ =~= spec_tc_path(self.zoom as nat, self.x as nat, self.y as nat, ext@));
        }
        out
    }

    /// Returns the MapProxy path for storing this tile.
    pub fn mp_path(&self, ext: &str) -> (r: String)
        ensures
            r@ == spec_mp_path(self.zoom as nat, self.x as nat, self.y as nat, ext@),
    {
        let mp = xy_to_mp(self.x, self.y);
        let mut out = String::new();
        push_decimal(&mut out, self.zoom as u32);
        push_slash(&mut out);
        out.append(mp[0].as_str());
        push_slash(&mut out);
        out.append(mp[1].as_str());
        push_slash(&mut out);
        out.append(mp[2].as_str());
        push_slash(&mut out);
        out.append(mp[3].as_str());
        push_dot(&mut out);
        out.append(ext);
        proof {
            assert(out@ =~= spec_mp_path(self.zoom as nat, self.x as nat, self.y as nat, ext@));
        }
        out
    }

    /// Returns the TileStash safe path for storing this tile.
    pub fn ts_path(&self, ext: &str) -> (r: String)
        ensures
            r@ == spec_ts_path(self.zoom as nat, self.x as nat, self.y as nat, ext@),
    {
        let ts = xy_to_ts(self.x, self.y);
        let mut out = String::new();
        push_decimal(&mut out, self.zoom as u32);
        push_slash(&mut out);
        out.append(ts[0].as_str());
        push_slash(&mut out);
        out.append(ts[1].as_str());
        push_slash(&mut out);
        out.append(ts[2].as_str());
        push_slash(&mut out);
        out.append(ts[3].as_str());
        push_dot(&mut out);
        out.append(ext);
        proof {
            assert(out@ =~= spec_ts_path(self.zoom as nat, self.x as nat, self.y as nat, ext@));
        }
        out
    }

    /// Returns the zoom/x/y representation of this tile.
    pub fn zxy(&self) -> (r: String)
        ensures
            r@ == spec_zxy(self.zoom as nat, self.x as nat, self.y as nat),
    {
        let mut out = String::new();
        push_decimal(&mut out, self.zoom as u32);
        push_slash(&mut out);
        push_decimal(&mut out, self.x);
        push_slash(&mut out);
        push_decimal(&mut out, self.y);
        proof {
            assert(out@ =~= spec_zxy(self.zoom as nat, self.x as nat, self.y as nat));
        }
        out
    }

    /// Returns the zoom/x/y path for storing this tile.
    pub fn zxy_path(&self, ext: &str) -> (r: String)
        ensures
            r@ == spec_zxy(self.zoom as nat, self.x as nat, self.y as nat) + dot() + ext@,
    {
        let mut out = String::new();
        push_decimal(&mut out, self.zoom as u32);
        push_slash(&mut out);
        push_decimal(&mut out, self.x);
        push_slash(&mut out);
        push_decimal(&mut out, self.y);
        push_dot(&mut out);
        out.append(ext);
        proof {
            assert(out@ =~= spec_zxy(self.zoom as nat, self.x as nat, self.y as nat) + dot()
                + ext@);
        }
        out
    }

    /// Returns the nibble-interleaved metatile path for storing this tile.
    pub fn mt_path(&self, ext: &str) -> (r: String)
        ensures
            r@ == spec_mt_path(self.zoom as nat, self.x as nat, self.y as nat, ext@),
    {
        let mt = xy_to_mt(self.x, self.y);
        let mut out = String::new();
        push_decimal(&mut out, self.zoom as u32);
        push_slash(&mut out);
        out.append(mt[0].as_str());
        push_slash(&mut out);
        out.append(mt[1].as_str());
        push_slash(&mut out);
        out.append(mt[2].as_str());
        push_slash(&mut out);
        out.append(mt[3].as_str());
        push_slash(&mut out);
        out.append(mt[4].as_str());
        push_dot(&mut out);
        out.append(ext);
        proof {
            assert(out@ =~= spec_mt_path(self.zoom as nat, self.x as nat, self.y as nat, ext@));
        }
        out
    }
}

} // verus!
