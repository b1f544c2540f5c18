//! How sizes and dates are shown.

use vstd::prelude::*;

use crate::text::{copy_str, decimal, decimal_i64, digit_char, i64_to_string, push_char, push_decimal, push_str};

verus! {

broadcast use vstd::string::group_string_axioms;

/// The number of binary digits of `n`.
pub open spec fn bit_len(n: nat) -> nat
    decreases n,
{
    if n == 0 {
        0
    } else {
        1 + bit_len(n / 2)
    }
}

pub open spec fn pow2(e: nat) -> nat
    decreases e,
{
    if e == 0 {
        1
    } else {
        2 * pow2((e - 1) as nat)
    }
}

/// `num / den` rounded to the nearest integer, ties to the even one.
pub open spec fn round_even(num: nat, den: nat) -> nat {
    let q = num / den;
    let r = num % den;
    if 2 * r > den || (2 * r == den && q % 2 == 1) {
        q + 1
    } else {
        q
    }
}

/// `n as f64` for a whole number: the nearest number with 53 significant
/// bits, ties to the even one.
pub open spec fn as_double(n: nat) -> nat {
    if bit_len(n) <= 53 {
        n
    } else {
        let u = pow2((bit_len(n) - 53) as nat);
        round_even(n, u) * u
    }
}

/// 1024 to the power `u`.
pub open spec fn pow1024(u: nat) -> nat {
    if u == 0 {
        1
    } else if u == 1 {
        1024
    } else if u == 2 {
        1048576
    } else if u == 3 {
        1073741824
    } else {
        1099511627776
    }
}

/// The unit a size is shown in: the largest (up to TiB) it is at least one of.
pub open spec fn unit_of(f: nat) -> nat {
    if f < pow1024(1) {
        0
    } else if f < pow1024(2) {
        1
    } else if f < pow1024(3) {
        2
    } else if f < pow1024(4) {
        3
    } else {
        4
    }
}

pub open spec fn unit_name(u: nat) -> Seq<char> {
    if u == 0 {
        "B"@
    } else if u == 1 {
        "KiB"@
    } else if u == 2 {
        "MiB"@
    } else if u == 3 {
        "GiB"@
    } else {
        "TiB"@
    }
}

/// A size as shown: whole bytes under 1 KiB, otherwise in the largest unit
/// up to TiB with one decimal, rounded to nearest, ties to even (how `{:.1}`
/// shows the size as a double).
pub open spec fn human_text(bytes: nat) -> Seq<char> {
    let f = as_double(bytes);
    let u = unit_of(f);
    if u == 0 {
        decimal(bytes) + " B"@
    } else {
        let d = round_even(10 * f, pow1024(u));
        decimal(d / 10) + "."@ + seq![digit_char(d % 10)] + " "@ + unit_name(u)
    }
}

fn bit_len_of(n: u64) -> (r: u64)
    ensures
        r == bit_len(n as nat),
        r <= 64,
{
    assert(pow2(64) == 0x1_0000_0000_0000_0000) by {
        reveal_with_fuel(pow2, 65);
    }
    let mut m: u64 = n;
    let mut k: u64 = 0;
    while m > 0
        invariant
            k + bit_len(m as nat) == bit_len(n as nat),
            k <= 64,
            m < pow2((64 - k) as nat),
        decreases m,
    {
        if k == 64 {
            assert(pow2(0) == 1);
            assert(false);
        }
        assert(pow2((64 - k) as nat) == 2 * pow2((64 - (k + 1)) as nat));
        m = m / 2;
        k = k + 1;
    }
    k
}

fn pow2_of(e: u64) -> (r: u128)
    requires
        e <= 11,
    ensures
        r == pow2(e as nat),
        1 <= r <= 2048,
{
    assert(pow2(11) == 2048) by {
        reveal_with_fuel(pow2, 12);
    }
    let mut r: u128 = 1;
    let mut i: u64 = 0;
    while i < e
        invariant
            i <= e <= 11,
            r == pow2(i as nat),
            pow2(11) == 2048,
        decreases e - i,
    {
        proof {
            lemma_pow2_mono((i + 1) as nat, 11);
        }
        r = r * 2;
        i = i + 1;
    }
    proof {
        lemma_pow2_pos(i as nat);
        lemma_pow2_mono(i as nat, 11);
    }
    r
}

proof fn lemma_pow2_pos(e: nat)
    ensures
        pow2(e) >= 1,
    decreases e,
{
    if e > 0 {
        lemma_pow2_pos((e - 1) as nat);
    }
}

fn round_even_of(num: u128, den: u128) -> (r: u128)
    requires
        0 < den <= 0x1_0000_0000_0000_0000,
        num < 0x1_0000_0000_0000_0000_0000u128,
    ensures
        r == round_even(num as nat, den as nat),
        r <= num / den + 1,
{
    let q = num / den;
    let rem = num % den;
    assert(rem < den);
    assert(q <= num);
    if 2 * rem > den || (2 * rem == den && q % 2 == 1) {
        q + 1
    } else {
        q
    }
}

/// A size in bytes for people: "512 B", "1.5 KiB", "3.2 GiB".
pub fn human(bytes: u64) -> (r: String)
    ensures
        r@ == human_text(bytes as nat),
{
    let n = bit_len_of(bytes);
    let f: u128 = if n <= 53 {
        bytes as u128
    } else {
        let u = pow2_of(n - 53);
        let q = round_even_of(bytes as u128, u);
        assert(q * u <= bytes + u) by (nonlinear_arith)
            requires
                q <= (bytes as u128) / u + 1,
                u >= 1,
        {
            assert(((bytes as u128) / u) * u <= bytes as u128);
        }
        q * u
    };
    assert(f == as_double(bytes as nat));
    let unit: u64 = if f < 1024 {
        0
    } else if f < 1048576 {
        1
    } else if f < 1073741824 {
        2
    } else if f < 1099511627776 {
        3
    } else {
        4
    };
    assert(unit == unit_of(f as nat));
    if unit == 0 {
        let mut s = String::new();
        push_decimal(&mut s, bytes);
        push_str(&mut s, " B");
        assert(s@ =~= decimal(bytes as nat) + " B"@);
        return s;
    }
    let den: u128 = if unit == 1 {
        1024
    } else if unit == 2 {
        1048576
    } else if unit == 3 {
        1073741824
    } else {
        1099511627776
    };
    assert(den == pow1024(unit as nat));
    let d = round_even_of(10 * f, den);
    assert(d / 10 <= u64::MAX) by {
        assert(((10 * f) as int) / (den as int) <= ((10 * f) as int) / 1024) by (nonlinear_arith)
            requires
                den >= 1024,
                10 * f >= 0,
        ;
    }
    let mut s = String::new();
    push_decimal(&mut s, (d / 10) as u64);
    push_char(&mut s, '.');
    push_char(&mut s, digit_of((d % 10) as u64));
    push_char(&mut s, ' ');
    let name: &str = if unit == 1 {
        "KiB"
    } else if unit == 2 {
        "MiB"
    } else if unit == 3 {
        "GiB"
    } else {
        "TiB"
    };
    push_str(&mut s, name);
    proof {
        reveal_strlit(".");
        reveal_strlit(" ");
    }
    assert(s@ =~= decimal((d / 10) as nat) + "."@ + seq![digit_char((d % 10) as nat)] + " "@ + unit_name(unit as nat));
    s
}

proof fn lemma_pow2_mono(a: nat, b: nat)
    requires
        a <= b,
    ensures
        pow2(a) <= pow2(b),
    decreases b,
{
    if a < b {
        lemma_pow2_mono(a, (b - 1) as nat);
    }
}

fn digit_of(d: u64) -> (c: char)
    requires
        d < 10,
    ensures
        c == digit_char(d as nat),
{
    if d == 0 { '0' } else if d == 1 { '1' } else if d == 2 { '2' } else if d == 3 { '3' } else if d
        == 4 { '4' } else if d == 5 { '5' } else if d == 6 { '6' } else if d == 7 { '7' } else if d
        == 8 { '8' } else { '9' }
}

// ------------------------------------------------------------------ dates

/// The day of a Unix timestamp as chrono writes it (`%Y-%m-%d`, UTC); none
/// for a timestamp outside the dates chrono can hold.
pub uninterp spec fn utc_day_of(ts: i64) -> Option<Seq<char>>;

/// chrono's `DateTime::from_timestamp(ts, 0)`, formatted with `%Y-%m-%d`.
/// The text is named by `utc_day_of`; which timestamps chrono can hold is
/// not stated here.
#[verifier::external_body]
fn utc_day(ts: i64) -> (r: Option<String>)
    ensures
        match r {
            Some(s) => utc_day_of(ts) == Some(s@),
            None => utc_day_of(ts) is None,
        },
{
    chrono::DateTime::from_timestamp(ts, 0).map(|d| d.format("%Y-%m-%d").to_string())
}

/// The day of a timestamp, or the timestamp itself where there is no such day.
pub fn date(ts: i64) -> (r: String)
    ensures
        r@ == match utc_day_of(ts) {
            Some(s) => s,
            None => decimal_i64(ts),
        },
{
    match utc_day(ts) {
        Some(s) => s,
        None => i64_to_string(ts),
    }
}

} // verus!
