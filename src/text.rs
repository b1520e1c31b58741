//! Numbers written out as text.
use vstd::prelude::*;

verus! {

/// The character for digit `d` (below sixteen), lower-case beyond nine.
pub open spec fn digit_char(d: nat) -> char {
    seq!['0', '1', '2', '3', '4', '5', '6', '7', '8', '9', 'a', 'b', 'c', 'd', 'e', 'f'][d as int]
}

/// `n` in base ten, most significant digit first, no padding.
pub open spec fn decimal_digits(n: nat) -> Seq<char>
    decreases n,
{
    if n < 10 {
        seq![digit_char(n)]
    } else {
        decimal_digits(n / 10).push(digit_char(n % 10))
    }
}

/// `n` in base sixteen, lower case, most significant digit first, no padding.
pub open spec fn hex_digits(n: nat) -> Seq<char>
    decreases n,
{
    if n < 16 {
        seq![digit_char(n)]
    } else {
        hex_digits(n / 16).push(digit_char(n % 16))
    }
}

/// Relies on the `Display` impl of `u64` (through `to_string`): base-ten digits,
/// with no sign and no padding.
#[verifier::external_body]
pub(crate) fn decimal_text(n: u64) -> (r: String)
    ensures
        r@ == decimal_digits(n as nat),
{
    n.to_string()
}

/// Relies on the `LowerHex` impl of `u128` (through `format!("{:x}")`):
/// base-sixteen digits in lower case, with no prefix and no padding.
#[verifier::external_body]
pub(crate) fn hex_text(n: u128) -> (r: String)
    ensures
        r@ == hex_digits(n as nat),
{
    format!("{:x}", n)
}

/// The fractional digits of `f` thousandths (`1 <= f < 1000`), trailing zeros dropped.
pub open spec fn thousandths_digits(f: nat) -> Seq<char> {
    if f % 100 == 0 {
        seq![digit_char(f / 100)]
    } else if f % 10 == 0 {
        seq![digit_char(f / 100), digit_char((f / 10) % 10)]
    } else {
        seq![digit_char(f / 100), digit_char((f / 10) % 10), digit_char(f % 10)]
    }
}

/// A span of `ms` milliseconds written as `Duration`'s debug form writes it:
/// `0ns` for zero, `<n>ms` below a second, otherwise seconds with the
/// fraction's trailing zeros dropped, then `s` (`1s`, `1.5s`, `1.001s`).
pub open spec fn millis_text(ms: u64) -> Seq<char> {
    if ms == 0 {
        "0ns"@
    } else if ms < 1000 {
        decimal_digits(ms as nat) + "ms"@
    } else if ms % 1000 == 0 {
        decimal_digits((ms / 1000) as nat) + "s"@
    } else {
        decimal_digits((ms / 1000) as nat) + "."@ + thousandths_digits((ms % 1000) as nat) + "s"@
    }
}

/// Writes a span of `ms` milliseconds as `Duration`'s debug form does.
pub fn duration_text(ms: u64) -> (r: String)
    ensures
        r@ == millis_text(ms),
{
    if ms == 0 {
        return String::from_str("0ns");
    }
    if ms < 1000 {
        let mut out = decimal_text(ms);
        out.append("ms");
        return out;
    }
    let mut out = decimal_text(ms / 1000);
    let f = ms % 1000;
    if f != 0 {
        out.append(".");
        out.append(decimal_text(f / 100).as_str());
        if f % 100 != 0 {
            out.append(decimal_text((f / 10) % 10).as_str());
            if f % 10 != 0 {
                out.append(decimal_text(f % 10).as_str());
            }
        }
    }
    out.append("s");
    out
}

} // verus!
