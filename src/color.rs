//! 8-bit RGB colors: reading them from hex codes, drawing them at random, and
//! writing them as hex codes.

use vstd::prelude::*;
use crate::text::{digits, push_digits, string_of};

verus! {

/// A color as displayed: three 8-bit channels.
#[derive(Clone, Copy, Debug, PartialEq, Eq, Structural)]
pub struct Rgb8 {
    pub r: u8,
    pub g: u8,
    pub b: u8,
}

/// Channel `k` of `c` (0 red, 1 green, 2 blue).
pub open spec fn channel(c: Rgb8, k: int) -> int {
    if k == 0 { c.r as int } else if k == 1 { c.g as int } else { c.b as int }
}

pub open spec fn is_hex_digit(c: char) -> bool {
    ('0' as u32 <= c as u32 <= '9' as u32) || ('a' as u32 <= c as u32 <= 'f' as u32)
        || ('A' as u32 <= c as u32 <= 'F' as u32)
}

/// The value of a hex digit.
pub open spec fn hex_value(c: char) -> int {
    if c as u32 <= '9' as u32 {
        c as u32 - '0' as u32
    } else if c as u32 <= 'F' as u32 {
        c as u32 - 'A' as u32 + 10
    } else {
        c as u32 - 'a' as u32 + 10
    }
}

/// A hex code without its one optional leading `#`.
pub open spec fn hex_body(s: Seq<char>) -> Seq<char> {
    if s.len() > 0 && s[0] == '#' { s.drop_first() } else { s }
}

/// An optional `#`, then three or six hex digits.
pub open spec fn is_hex_color(s: Seq<char>) -> bool {
    let h = hex_body(s);
    &&& (h.len() == 3 || h.len() == 6)
    &&& forall|i: int| 0 <= i < h.len() ==> is_hex_digit(#[trigger] h[i])
}

/// The color a hex code spells: two digits per channel, or one digit repeated.
pub open spec fn hex_color_value(s: Seq<char>) -> Rgb8 {
    let h = hex_body(s);
    if h.len() == 3 {
        Rgb8 {
            r: (hex_value(h[0]) * 17) as u8,
            g: (hex_value(h[1]) * 17) as u8,
            b: (hex_value(h[2]) * 17) as u8,
        }
    } else {
        Rgb8 {
            r: (hex_value(h[0]) * 16 + hex_value(h[1])) as u8,
            g: (hex_value(h[2]) * 16 + hex_value(h[3])) as u8,
            b: (hex_value(h[4]) * 16 + hex_value(h[5])) as u8,
        }
    }
}

/// Relies on palette's `FromStr` for `Rgb<S, u8>`: after one optional `#`, three
/// hex digits give each channel its digit times 17, six give two digits per channel.
#[verifier::external_body]
fn palette_from_hex(s: &str) -> (r: Option<Rgb8>)
    requires
        is_hex_color(s@),
    ensures
        r == Some(hex_color_value(s@)),
{
    match <palette::LinSrgb<u8> as std::str::FromStr>::from_str(s) {
        Ok(c) => Some(Rgb8 { r: c.red, g: c.green, b: c.blue }),
        Err(_) => None,
    }
}

fn is_hex_digit_char(c: char) -> (r: bool)
    ensures
        r == is_hex_digit(c),
{
    ('0' <= c && c <= '9') || ('a' <= c && c <= 'f') || ('A' <= c && c <= 'F')
}

/// Reads a hex color code such as `#ff0000` or `#f00`; `None` when `s` is not one.
pub fn parse_hex_color(s: &str) -> (r: Option<Rgb8>)
    ensures
        r == (if is_hex_color(s@) { Some(hex_color_value(s@)) } else { None::<Rgb8> }),
{
    let n = s.unicode_len();
    let start: usize = if n > 0 && s.get_char(0) == '#' { 1 } else { 0 };
    let ghost h = hex_body(s@);
    assert(h.len() == n - start);
    assert(forall|k: int| 0 <= k < h.len() ==> h[k] == s@[k + start]);
    if n - start != 3 && n - start != 6 {
        return None;
    }
    let mut i: usize = start;
    while i < n
        invariant
            start <= i <= n,
            n == s@.len(),
            h == hex_body(s@),
            h.len() == n - start,
            forall|k: int| 0 <= k < h.len() ==> h[k] == s@[k + start],
            forall|k: int| 0 <= k < i - start ==> is_hex_digit(#[trigger] h[k]),
        decreases n - i,
    {
        if !is_hex_digit_char(s.get_char(i)) {
            assert(!is_hex_digit(h[i - start]));
            assert(!is_hex_color(s@));
            return None;
        }
        i += 1;
    }
    palette_from_hex(s)
}

/// Relies on rand's `thread_rng` and `Rng::gen_range`: a draw from `0..255` lies in it.
#[verifier::external_body]
fn draw_channel() -> (r: u8)
    ensures
        r < 255,
{
    rand::Rng::gen_range(&mut rand::thread_rng(), 0..255u8)
}

/// A random color, each channel drawn uniformly from `0..255`.
pub fn random_color() -> (c: Rgb8)
    ensures
        c.r < 255,
        c.g < 255,
        c.b < 255,
{
    let r = draw_channel();
    let g = draw_channel();
    let b = draw_channel();
    Rgb8 { r, g, b }
}

/// `#` and each channel in lowercase hex, with no leading zeros.
pub open spec fn hex_code_text(c: Rgb8) -> Seq<char> {
    seq!['#'] + digits(c.r as nat, 16) + digits(c.g as nat, 16) + digits(c.b as nat, 16)
}

/// Writes `c` as `#` and each channel in lowercase hex, with no leading zeros.
pub fn hex_code(c: Rgb8) -> (s: String)
    ensures
        s@ == hex_code_text(c),
{
    let mut out: Vec<char> = Vec::new();
    out.push('#');
    push_digits(c.r as u64, 16, &mut out);
    push_digits(c.g as u64, 16, &mut out);
    push_digits(c.b as u64, 16, &mut out);
    assert(out@ =~= hex_code_text(c));
    string_of(&out)
}

pub open spec fn is_lower_hex_digit(c: char) -> bool {
    ('0' as u32 <= c as u32 <= '9' as u32) || ('a' as u32 <= c as u32 <= 'f' as u32)
}

proof fn byte_hex_digits(x: nat)
    requires
        x < 256,
    ensures
        1 <= digits(x, 16).len() <= 2,
        forall|i: int| 0 <= i < digits(x, 16).len() ==> is_lower_hex_digit(#[trigger] digits(x, 16)[i]),
{
    if x >= 16 {
        assert(x / 16 < 16);
        assert(digits(x / 16, 16) == seq![crate::text::digit_char(x / 16)]);
    }
}

/// A hex code is `#` followed, for each channel, by one or two lowercase hex
/// digits: the channel's value with no leading zero.
pub proof fn hex_code_shape(c: Rgb8)
    ensures
        hex_code_text(c) == seq!['#'] + digits(c.r as nat, 16) + digits(c.g as nat, 16) + digits(c.b as nat, 16),
        1 <= digits(c.r as nat, 16).len() <= 2,
        1 <= digits(c.g as nat, 16).len() <= 2,
        1 <= digits(c.b as nat, 16).len() <= 2,
        forall|i: int| 1 <= i < hex_code_text(c).len() ==> is_lower_hex_digit(#[trigger] hex_code_text(c)[i]),
{
    byte_hex_digits(c.r as nat);
    byte_hex_digits(c.g as nat);
    byte_hex_digits(c.b as nat);
    let dr = digits(c.r as nat, 16);
    let dg = digits(c.g as nat, 16);
    let db = digits(c.b as nat, 16);
    let t = hex_code_text(c);
    assert forall|i: int| 1 <= i < t.len() implies is_lower_hex_digit(#[trigger] t[i]) by {
        if i < 1 + dr.len() {
            assert(t[i] == dr[i - 1]);
        } else if i < 1 + dr.len() + dg.len() {
            assert(t[i] == dg[i - 1 - dr.len()]);
        } else {
            assert(t[i] == db[i - 1 - dr.len() - dg.len()]);
        }
    }
}

} // verus!
