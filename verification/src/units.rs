//! Human-readable byte sizes.

use vstd::prelude::*;
use crate::decimal::{digit_char, nat_text, pow10, round_half_even};

verus! {

/// The `d` lowest decimal digits of `m`, zero-padded.
pub open spec fn padded_digits(m: nat, d: nat) -> Seq<char>
    decreases d,
{
    if d == 0 {
        Seq::empty()
    } else {
        padded_digits(m / 10, (d - 1) as nat) + seq![digit_char(m % 10)]
    }
}

/// `n / 10^d` written with `d` decimals.
pub open spec fn fixed_text(n: nat, d: nat) -> Seq<char> {
    if d == 0 {
        nat_text(n)
    } else {
        nat_text(n / pow10(d)) + "."@ + padded_digits(n % pow10(d), d)
    }
}

fn padded_digits_exec(m: u128, d: u64) -> (r: Vec<char>)
    requires
        d <= 19,
    ensures
        r@ == padded_digits(m as nat, d as nat),
    decreases d,
{
    if d == 0 {
        return Vec::new();
    }
    let mut v = padded_digits_exec(m / 10, d - 1);
    let c = (((m % 10) as u8) + 48) as char;
    assert(c == digit_char((m % 10) as nat));
    v.push(c);
    v
}

/// Writes `n / 10^d` with `d` decimals.
pub fn fixed_text_exec(n: u128, d: u64) -> (r: String)
    requires
        d <= 3,
    ensures
        r@ == fixed_text(n as nat, d as nat),
{
    if d == 0 {
        return crate::decimal::u128_text(n);
    }
    let p: u128 = if d == 1 { 10 } else if d == 2 { 100 } else { 1000 };
    assert(pow10(1) == 10 && pow10(2) == 100 && pow10(3) == 1000) by {
        reveal_with_fuel(pow10, 4);
    }
    let mut s = crate::decimal::u128_text(n / p);
    s.append(".");
    let frac = padded_digits_exec(n % p, d);
    s.append(crate::text::string_from_chars(frac.as_slice()).as_str());
    s
}

/// `v / d` rounded half to even, for `d > 0`.
fn round_div(v: u128, d: u128) -> (r: u128)
    requires
        d > 0,
        v < 0x1_0000_0000_0000_0000_0000_0000_0000,
        d < 0x1_0000_0000_0000_0000_0000_0000_0000,
    ensures
        r == round_half_even(v as nat, d as nat),
{
    let q = v / d;
    let rem = v % d;
    assert(q <= v) by (nonlinear_arith)
        requires
            d > 0,
            q == v / d,
    ;
    if 2 * rem < d {
        q
    } else if 2 * rem > d {
        q + 1
    } else if q % 2 == 0 {
        q
    } else {
        q + 1
    }
}

/// A byte count in binary units: two decimals of MiB from 1 MiB up, one
/// decimal of KiB from 1 KiB up, else whole bytes (rounded half to even).
pub open spec fn bytes_text(bytes: nat) -> Seq<char> {
    if bytes >= 1048576 {
        fixed_text(round_half_even(bytes * 100, 1048576), 2) + " MB"@
    } else if bytes >= 1024 {
        fixed_text(round_half_even(bytes * 10, 1024), 1) + " KB"@
    } else {
        nat_text(bytes) + " B"@
    }
}

/// Formats a byte count in binary units (`1.50 MB`, `2.0 KB`, `512 B`).
pub fn format_bytes(bytes: u64) -> (r: String)
    ensures
        r@ == bytes_text(bytes as nat),
{
    assert(pow10(1) == 10 && pow10(2) == 100) by {
        reveal_with_fuel(pow10, 3);
    }
    if bytes >= 1048576 {
        let n = round_div(bytes as u128 * 100, 1048576);
        let mut s = fixed_text_exec(n, 2);
        s.append(" MB");
        s
    } else if bytes >= 1024 {
        let n = round_div(bytes as u128 * 10, 1024);
        let mut s = fixed_text_exec(n, 1);
        s.append(" KB");
        s
    } else {
        let mut s = crate::decimal::u64_text(bytes);
        s.append(" B");
        s
    }
}

/// [`format_bytes`], followed by the exact count when a unit is used
/// (`1.50 MB (1572864 B)`).
pub fn format_bytes_with_count(bytes: u64) -> (r: String)
    ensures
        r@ == if bytes >= 1024 {
            bytes_text(bytes as nat) + " ("@ + nat_text(bytes as nat) + " B)"@
        } else {
            bytes_text(bytes as nat)
        },
{
    let mut s = format_bytes(bytes);
    if bytes >= 1024 {
        s.append(" (");
        s.append(crate::decimal::u64_text(bytes).as_str());
        s.append(" B)");
    }
    s
}

} // verus!
