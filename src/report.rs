//! The completion report's accuracy figure, kept in hundredths of a percent and
//! written with exactly two decimals and a trailing percent sign.

use vstd::prelude::*;

verus! {

/// The character of a decimal digit.
pub open spec fn digit_char(d: nat) -> char {
    (48 + d) as char
}

/// The decimal text of `n`, without leading zeros (`0` is written `"0"`).
pub open spec fn decimal(n: nat) -> Seq<char>
    decreases n,
{
    if n < 10 {
        seq![digit_char(n)]
    } else {
        decimal(n / 10).push(digit_char(n % 10))
    }
}

/// `answered / total * 100`, in hundredths of a percent, rounded to the nearest
/// hundredth; an exact tie goes to the even hundredth. An empty catalog counts as
/// zero.
pub open spec fn accuracy_hundredths(answered: nat, total: nat) -> nat {
    if total == 0 {
        0
    } else {
        let q = (answered * 10000) / total;
        let r = (answered * 10000) % total;
        if 2 * r > total || (2 * r == total && q % 2 == 1) {
            q + 1
        } else {
            q
        }
    }
}

/// A figure in hundredths of a percent, written as `<whole>.<two digits>%`.
pub open spec fn percent_text(hundredths: nat) -> Seq<char> {
    decimal(hundredths / 100) + seq![
        '.',
        digit_char((hundredths % 100) / 10),
        digit_char(hundredths % 10),
        '%',
    ]
}

/// Relies on std's `String::push`: the character is appended at the end.
#[verifier::external_body]
fn push_char(s: &mut String, c: char)
    ensures
        final(s)@ == old(s)@.push(c),
{
    s.push(c)
}

fn digit(d: u128) -> (c: char)
    requires
        d < 10,
    ensures
        c == digit_char(d as nat),
{
    ((d as u8) + 48u8) as char
}

/// Appends the decimal text of `n` to `out`.
pub fn push_decimal(out: &mut String, n: u128)
    ensures
        final(out)@ == old(out)@ + decimal(n as nat),
    decreases n,
{
    if n >= 10 {
        push_decimal(out, n / 10);
    }
    push_char(out, digit(n % 10));
}

/// The accuracy of a completed session in hundredths of a percent: `answered`
/// distinct questions over a catalog of `total`, with no division when `total`
/// is zero.
pub fn accuracy_in_hundredths(answered: usize, total: usize) -> (r: u128)
    ensures
        r == accuracy_hundredths(answered as nat, total as nat),
{
    if total == 0 {
        return 0;
    }
    let scaled: u128 = (answered as u128) * 10000;
    let t: u128 = total as u128;
    let q: u128 = scaled / t;
    let rem: u128 = scaled % t;
    if 2 * rem > t || (2 * rem == t && q % 2 == 1) {
        q + 1
    } else {
        q
    }
}

/// Writes a figure in hundredths of a percent as text, such as `"66.67%"`.
pub fn format_percent(hundredths: u128) -> (r: String)
    ensures
        r@ == percent_text(hundredths as nat),
{
    let mut out = String::new();
    push_decimal(&mut out, hundredths / 100);
    push_char(&mut out, '.');
    push_char(&mut out, digit((hundredths % 100) / 10));
    push_char(&mut out, digit(hundredths % 10));
    push_char(&mut out, '%');
    out
}

/// The accuracy text of a completion report.
pub fn accuracy_text(answered: usize, total: usize) -> (r: String)
    ensures
        r@ == percent_text(accuracy_hundredths(answered as nat, total as nat)),
{
    format_percent(accuracy_in_hundredths(answered, total))
}

} // verus!
