//! Digits in a base, and the conversion of characters into a `String`.

use vstd::prelude::*;

verus! {

/// The lowercase digit for `d`, for `d` below sixteen.
pub open spec fn digit_char(d: nat) -> char {
    if d == 0 { '0' } else if d == 1 { '1' } else if d == 2 { '2' } else if d == 3 { '3' }
    else if d == 4 { '4' } else if d == 5 { '5' } else if d == 6 { '6' } else if d == 7 { '7' }
    else if d == 8 { '8' } else if d == 9 { '9' } else if d == 10 { 'a' } else if d == 11 { 'b' }
    else if d == 12 { 'c' } else if d == 13 { 'd' } else if d == 14 { 'e' } else { 'f' }
}

/// `n` written in `base` with no leading zeros (`0` is written `"0"`).
pub open spec fn digits(n: nat, base: nat) -> Seq<char>
    decreases n via digits_decreases
{
    if base < 2 || n < base {
        seq![digit_char(n)]
    } else {
        digits(n / base, base) + seq![digit_char(n % base)]
    }
}

#[via_fn]
proof fn digits_decreases(n: nat, base: nat) {
    if !(base < 2 || n < base) {
        assert(n / base < n) by (nonlinear_arith)
            requires base >= 2, n >= base;
    }
}

/// `n` written in exactly `width` decimal digits, zeros in front (its low digits only).
pub open spec fn padded_decimal(n: nat, width: nat) -> Seq<char>
    decreases width,
{
    if width == 0 {
        seq![]
    } else {
        padded_decimal(n / 10, (width - 1) as nat) + seq![digit_char(n % 10)]
    }
}

pub fn digit_of(d: u64) -> (c: char)
    requires
        d < 16,
    ensures
        c == digit_char(d as nat),
{
    if d < 8 {
        if d < 4 {
            if d == 0 { '0' } else if d == 1 { '1' } else if d == 2 { '2' } else { '3' }
        } else {
            if d == 4 { '4' } else if d == 5 { '5' } else if d == 6 { '6' } else { '7' }
        }
    } else if d < 12 {
        if d == 8 { '8' } else if d == 9 { '9' } else if d == 10 { 'a' } else { 'b' }
    } else {
        if d == 12 { 'c' } else if d == 13 { 'd' } else if d == 14 { 'e' } else { 'f' }
    }
}

/// Appends `n` written in `base` to `out`.
pub fn push_digits(n: u64, base: u64, out: &mut Vec<char>)
    requires
        2 <= base <= 16,
    ensures
        final(out)@ == old(out)@ + digits(n as nat, base as nat),
    decreases n,
{
    if n < base {
        out.push(digit_of(n));
    } else {
        let ghost before = out@;
        assert(n / base < n) by (nonlinear_arith)
            requires base >= 2, n >= base;
        push_digits(n / base, base, out);
        out.push(digit_of(n % base));
        assert(out@ =~= before + digits(n as nat, base as nat));
    }
}

/// Appends the low `width` decimal digits of `n`, zeros in front.
pub fn push_padded_decimal(n: u64, width: u64, out: &mut Vec<char>)
    ensures
        final(out)@ == old(out)@ + padded_decimal(n as nat, width as nat),
    decreases width,
{
    if width > 0 {
        let ghost before = out@;
        push_padded_decimal(n / 10, width - 1, out);
        out.push(digit_of(n % 10));
        assert(out@ =~= before + padded_decimal(n as nat, width as nat));
    } else {
        assert(out@ =~= old(out)@ + padded_decimal(n as nat, width as nat));
    }
}

/// `s` without its trailing zeros, keeping at least one character.
pub open spec fn trim_zeros(s: Seq<char>) -> Seq<char>
    decreases s.len(),
{
    if s.len() > 1 && s.last() == '0' {
        trim_zeros(s.drop_last())
    } else {
        s
    }
}

/// The number of position units in one unit of the gradient's domain: positions
/// are given in millionths.
pub const POSITION_SCALE: u64 = 1_000_000;

/// A position in millionths as a decimal number: sign, whole part, point, and the
/// fraction without trailing zeros but with at least one digit (`0.5`, `-2.0`).
pub open spec fn position_text(p: int) -> Seq<char> {
    let a = if p < 0 { -p } else { p };
    (if p < 0 { seq!['-'] } else { Seq::<char>::empty() }) + digits((a / POSITION_SCALE as int) as nat, 10) + seq!['.']
        + trim_zeros(padded_decimal((a % POSITION_SCALE as int) as nat, 6))
}

/// The texts of `ps` separated by `, `.
pub open spec fn positions_joined(ps: Seq<i32>) -> Seq<char>
    decreases ps.len(),
{
    if ps.len() == 0 {
        Seq::empty()
    } else if ps.len() == 1 {
        position_text(ps[0] as int)
    } else {
        positions_joined(ps.drop_last()) + seq![',', ' '] + position_text(ps.last() as int)
    }
}

/// A list of positions in brackets, as `[0.0, 0.5, 1.0]`.
pub open spec fn positions_text(ps: Seq<i32>) -> Seq<char> {
    seq!['['] + positions_joined(ps) + seq![']']
}

proof fn lemma_padded_len(n: nat, width: nat)
    ensures
        padded_decimal(n, width).len() == width,
    decreases width,
{
    if width > 0 {
        lemma_padded_len(n / 10, (width - 1) as nat);
    }
}

/// Appends `position_text(p)`.
pub fn push_position(p: i32, out: &mut Vec<char>)
    ensures
        final(out)@ == old(out)@ + position_text(p as int),
{
    let ghost before = out@;
    let a: u64 = if p < 0 { (-(p as i64)) as u64 } else { p as u64 };
    if p < 0 {
        out.push('-');
    }
    push_digits(a / POSITION_SCALE, 10, out);
    out.push('.');
    let mut f: u64 = a % POSITION_SCALE;
    let mut w: u64 = 6;
    let ghost whole = padded_decimal((a % POSITION_SCALE) as nat, 6);
    while w > 1 && f % 10 == 0
        invariant
            1 <= w <= 6,
            trim_zeros(whole) == trim_zeros(padded_decimal(f as nat, w as nat)),
        decreases w,
    {
        proof {
            lemma_padded_len(f as nat, w as nat);
            let s = padded_decimal(f as nat, w as nat);
            assert(s.drop_last() =~= padded_decimal((f / 10) as nat, (w - 1) as nat));
        }
        f = f / 10;
        w = w - 1;
    }
    proof {
        lemma_padded_len(f as nat, w as nat);
        if w > 1 {
            assert(padded_decimal(f as nat, w as nat).last() == digit_char((f % 10) as nat));
        }
    }
    push_padded_decimal(f, w, out);
    assert(out@ =~= before + position_text(p as int));
}

/// Writes `positions_text(ps)`.
pub fn positions_string(ps: &Vec<i32>) -> (s: String)
    ensures
        s@ == positions_text(ps@),
{
    let mut out: Vec<char> = Vec::new();
    out.push('[');
    let mut i: usize = 0;
    while i < ps.len()
        invariant
            i <= ps@.len(),
            out@ == seq!['['] + positions_joined(ps@.subrange(0, i as int)),
        decreases ps@.len() - i,
    {
        let ghost prev = out@;
        if i > 0 {
            out.push(',');
            out.push(' ');
        }
        push_position(ps[i], &mut out);
        proof {
            let next = ps@.subrange(0, i + 1);
            assert(next.drop_last() =~= ps@.subrange(0, i as int));
            if i == 0 {
                assert(positions_joined(ps@.subrange(0, 0)) =~= Seq::<char>::empty());
            }
        }
        assert(out@ =~= seq!['['] + positions_joined(ps@.subrange(0, i + 1)));
        i += 1;
    }
    out.push(']');
    assert(ps@.subrange(0, ps@.len() as int) =~= ps@);
    assert(out@ =~= positions_text(ps@));
    string_of(&out)
}

/// Writes `n` in decimal.
pub fn decimal_string(n: u64) -> (s: String)
    ensures
        s@ == digits(n as nat, 10),
{
    let mut out: Vec<char> = Vec::new();
    push_digits(n, 10, &mut out);
    assert(out@ =~= digits(n as nat, 10));
    string_of(&out)
}

/// The text that `{:?}` gives for a list of strings.
pub uninterp spec fn debug_list_text(items: Seq<Seq<char>>) -> Seq<char>;

/// Relies on std's `Debug` for `Vec<String>`: its text depends on the strings alone.
#[verifier::external_body]
pub(crate) fn debug_list(items: &Vec<String>) -> (s: String)
    ensures
        s@ == debug_list_text(items.deep_view()),
{
    format!("{:?}", items)
}

/// Relies on std's `FromIterator<char>` for `String`: the characters are kept, in order.
#[verifier::external_body]
pub(crate) fn string_of(chars: &Vec<char>) -> (s: String)
    ensures
        s@ == chars@,
{
    chars.iter().collect()
}

} // verus!
