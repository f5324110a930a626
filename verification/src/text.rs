//! The texts that numbers and quoted strings take in messages.

use vstd::prelude::*;
use vstd::string::*;

verus! {

/// `String::push` appends the given character.
pub assume_specification[ String::push ](s: &mut String, ch: char)
    ensures
        final(s)@ == old(s)@.push(ch),
;

/// What the `Debug` formatting of the standard library makes of a text: the
/// text in double quotes, with the characters that need it escaped.
pub uninterp spec fn debug_text(s: Seq<char>) -> Seq<char>;

/// Formats `s` with `{:?}`. The result is named by `debug_text`: which
/// characters are escaped, and how, is the standard library's to say.
#[verifier::external_body]
pub(crate) fn quoted(s: &str) -> (r: String)
    ensures
        r@ == debug_text(s@),
{
    format!("{:?}", s)
}

/// The decimal digit of `d`.
pub open spec fn digit(d: int) -> char
    recommends
        0 <= d < 10,
{
    ('0' as int + d) as char
}

/// `n` in decimal, without leading zeros.
pub open spec fn decimal(n: nat) -> Seq<char>
    decreases n,
{
    if n < 10 {
        seq![digit(n as int)]
    } else {
        decimal(n / 10).push(digit((n % 10) as int))
    }
}

/// The text of `tenths` / 10 with one digit after the point.
pub open spec fn tenths_decimal(tenths: int) -> Seq<char> {
    let size: nat = if tenths < 0 {
        (-tenths) as nat
    } else {
        tenths as nat
    };
    let sign = if tenths < 0 {
        seq!['-']
    } else {
        Seq::<char>::empty()
    };
    sign + decimal(size / 10) + seq!['.', digit((size % 10) as int)]
}

/// Appends the digit of `d`.
fn push_digit(out: &mut String, d: u8)
    requires
        d < 10,
    ensures
        final(out)@ == old(out)@.push(digit(d as int)),
{
    out.push((48u8 + d) as char);
}

/// Appends `n` in decimal.
fn push_decimal(out: &mut String, n: u32)
    ensures
        final(out)@ == old(out)@ + decimal(n as nat),
    decreases n,
{
    let ghost start = out@;
    if n >= 10 {
        push_decimal(out, n / 10);
    }
    push_digit(out, (n % 10) as u8);
    assert(out@ =~= start + decimal(n as nat));
}

/// Writes `tenths` / 10 with one digit after the point.
pub fn tenths_text(tenths: i32) -> (r: String)
    ensures
        r@ == tenths_decimal(tenths as int),
{
    let mut out = String::new();
    let size: u32 = if tenths < 0 {
        out.push('-');
        (-(tenths as i64)) as u32
    } else {
        tenths as u32
    };
    push_decimal(&mut out, size / 10);
    out.push('.');
    push_digit(&mut out, (size % 10) as u8);
    assert(out@ =~= tenths_decimal(tenths as int));
    out
}

} // verus!
