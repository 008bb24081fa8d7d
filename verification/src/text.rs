//! Decimal text for the readouts: whole numbers, fixed-width fractions,
//! and times in seconds.

use vstd::prelude::*;
use vstd::string::StringExecFns;

verus! {

/// The character for a single decimal digit.
pub open spec fn digit(d: int) -> char {
    if d == 0 {
        '0'
    } else if d == 1 {
        '1'
    } else if d == 2 {
        '2'
    } else if d == 3 {
        '3'
    } else if d == 4 {
        '4'
    } else if d == 5 {
        '5'
    } else if d == 6 {
        '6'
    } else if d == 7 {
        '7'
    } else if d == 8 {
        '8'
    } else {
        '9'
    }
}

/// `n` in decimal, without leading zeros.
pub open spec fn decimal(n: nat) -> Seq<char>
    decreases n,
{
    if n < 10 {
        seq![digit(n as int)]
    } else {
        decimal(n / 10).push(digit((n % 10) as int))
    }
}

/// The last `places` decimal digits of `n`, leading zeros included.
pub open spec fn fixed(n: nat, places: nat) -> Seq<char>
    decreases places,
{
    if places == 0 {
        Seq::empty()
    } else {
        fixed(n / 10, (places - 1) as nat).push(digit((n % 10) as int))
    }
}

/// The last `places` decimal digits of `n` without their trailing zeros,
/// but never fewer than one digit.
pub open spec fn trimmed(n: nat, places: nat) -> Seq<char>
    decreases places,
{
    if places <= 1 {
        seq![digit((n % 10) as int)]
    } else if n % 10 == 0 {
        trimmed(n / 10, (places - 1) as nat)
    } else {
        fixed(n, places)
    }
}

/// The size of `ticks` without its sign.
pub open spec fn magnitude(ticks: int) -> nat {
    if ticks < 0 {
        (-ticks) as nat
    } else {
        ticks as nat
    }
}

/// `ticks` in thousandths of a second, rounded to the nearest; a tie goes
/// to the even thousandth.
pub open spec fn rounded_millis(ticks: int) -> nat {
    let whole = magnitude(ticks) / 1000;
    let rest = magnitude(ticks) % 1000;
    if rest > 500 || (rest == 500 && whole % 2 == 1) {
        whole + 1
    } else {
        whole
    }
}

/// The sign that a readout of `ticks` starts with.
pub open spec fn sign(ticks: int) -> Seq<char> {
    if ticks < 0 {
        seq!['-']
    } else {
        Seq::empty()
    }
}

/// `ticks` as seconds with three decimals, such as `12.340` or `-0.002`.
pub open spec fn seconds_to_millis(ticks: int) -> Seq<char> {
    let millis = rounded_millis(ticks);
    sign(ticks) + decimal(millis / 1000) + seq!['.'] + fixed(millis % 1000, 3)
}

/// `ticks` as seconds with as many decimals as it takes and at least one,
/// such as `0.01`, `1.0` or `-0.000125`.
pub open spec fn seconds_exactly(ticks: int) -> Seq<char> {
    let size = magnitude(ticks);
    sign(ticks) + decimal(size / 1_000_000) + seq!['.'] + trimmed(size % 1_000_000, 6)
}

/// The text of one decimal digit.
fn digit_text(d: u64) -> (text: &'static str)
    requires
        d < 10,
    ensures
        text@ == seq![digit(d as int)],
{
    proof {
        reveal_strlit("0");
        reveal_strlit("1");
        reveal_strlit("2");
        reveal_strlit("3");
        reveal_strlit("4");
        reveal_strlit("5");
        reveal_strlit("6");
        reveal_strlit("7");
        reveal_strlit("8");
        reveal_strlit("9");
    }
    let text = if d == 0 {
        "0"
    } else if d == 1 {
        "1"
    } else if d == 2 {
        "2"
    } else if d == 3 {
        "3"
    } else if d == 4 {
        "4"
    } else if d == 5 {
        "5"
    } else if d == 6 {
        "6"
    } else if d == 7 {
        "7"
    } else if d == 8 {
        "8"
    } else {
        "9"
    };
    assert(text@ =~= seq![digit(d as int)]);
    text
}

/// Writes `n` in decimal at the end of `text`.
pub fn append_decimal(text: &mut String, n: u64)
    ensures
        final(text)@ == old(text)@ + decimal(n as nat),
    decreases n,
{
    if n >= 10 {
        append_decimal(text, n / 10);
    }
    text.append(digit_text(n % 10));
    assert(text@ =~= old(text)@ + decimal(n as nat));
}

/// Writes the last `places` digits of `n` at the end of `text`.
pub fn append_fixed(text: &mut String, n: u64, places: u32)
    ensures
        final(text)@ == old(text)@ + fixed(n as nat, places as nat),
    decreases places,
{
    if places > 0 {
        append_fixed(text, n / 10, places - 1);
        text.append(digit_text(n % 10));
    }
    assert(text@ =~= old(text)@ + fixed(n as nat, places as nat));
}

/// Writes the last `places` digits of `n`, trailing zeros dropped, at the
/// end of `text`.
pub fn append_trimmed(text: &mut String, n: u64, places: u32)
    ensures
        final(text)@ == old(text)@ + trimmed(n as nat, places as nat),
    decreases places,
{
    if places <= 1 {
        text.append(digit_text(n % 10));
    } else if n % 10 == 0 {
        append_trimmed(text, n / 10, places - 1);
    } else {
        append_fixed(text, n, places);
    }
}

/// The size of `ticks` without its sign.
pub fn magnitude_of(ticks: i64) -> (size: u64)
    ensures
        size == magnitude(ticks as int),
{
    if ticks < 0 {
        (-(ticks as i128)) as u64
    } else {
        ticks as u64
    }
}

/// Writes `ticks` as seconds with three decimals at the end of `text`.
pub fn append_seconds_to_millis(text: &mut String, ticks: i64)
    ensures
        final(text)@ == old(text)@ + seconds_to_millis(ticks as int),
{
    let size = magnitude_of(ticks);
    let whole: u64 = size / 1000;
    let rest: u64 = size % 1000;
    let millis: u64 = if rest > 500 || (rest == 500 && whole % 2 == 1) {
        whole + 1
    } else {
        whole
    };
    if ticks < 0 {
        proof {
            reveal_strlit("-");
        }
        text.append("-");
    }
    assert(text@ =~= old(text)@ + sign(ticks as int));
    append_decimal(text, millis / 1000);
    proof {
        reveal_strlit(".");
    }
    text.append(".");
    append_fixed(text, millis % 1000, 3);
    assert(text@ =~= old(text)@ + seconds_to_millis(ticks as int));
}

/// Writes `ticks` as seconds with as many decimals as it takes at the
/// end of `text`.
pub fn append_seconds_exactly(text: &mut String, ticks: i64)
    ensures
        final(text)@ == old(text)@ + seconds_exactly(ticks as int),
{
    let size = magnitude_of(ticks);
    if ticks < 0 {
        proof {
            reveal_strlit("-");
        }
        text.append("-");
    }
    assert(text@ =~= old(text)@ + sign(ticks as int));
    append_decimal(text, size / 1_000_000);
    proof {
        reveal_strlit(".");
    }
    text.append(".");
    append_trimmed(text, size % 1_000_000, 6);
    assert(text@ =~= old(text)@ + seconds_exactly(ticks as int));
}

} // verus!
