//! Colors and marks. Moriya green and lake blue by default; Reimu keeps the
//! red. The program turns these into terminal styles.

use vstd::prelude::*;
use vstd::utf8::encode_utf8;

use crate::config::ThemeConfig;
use crate::text::{to_chars, trim};

verus! {

broadcast use vstd::string::group_string_axioms;

/// A color as red, green and blue.
pub type Rgb = (u8, u8, u8);

/// The colors and marks the interface uses.
#[derive(Clone, Copy, Debug, PartialEq, Eq)]
pub struct Theme {
    pub accent: Rgb,
    pub accent2: Rgb,
    /// Nerd Font glyphs rather than plain Unicode marks.
    pub nerd: bool,
}

/// `s` without its leading `#`s.
pub open spec fn trim_hash(s: Seq<char>) -> Seq<char>
    decreases s.len(),
{
    if s.len() > 0 && s[0] == '#' {
        trim_hash(s.drop_first())
    } else {
        s
    }
}

/// The value of a hexadecimal digit, either case.
pub open spec fn hex_value(c: char) -> Option<nat> {
    if '0' <= c && c <= '9' {
        Some(((c as nat) - ('0' as nat)) as nat)
    } else if 'a' <= c && c <= 'f' {
        Some(((c as nat) - ('a' as nat) + 10) as nat)
    } else if 'A' <= c && c <= 'F' {
        Some(((c as nat) - ('A' as nat) + 10) as nat)
    } else {
        None
    }
}

/// The number hexadecimal digits spell, if they all are digits.
pub open spec fn hex_number(s: Seq<char>) -> Option<nat>
    decreases s.len(),
{
    if s.len() == 0 {
        Some(0)
    } else {
        match (hex_number(s.drop_last()), hex_value(s.last())) {
            (Some(n), Some(d)) => Some(n * 16 + d),
            _ => None,
        }
    }
}

/// A color written as six hexadecimal digits (`#` optional), as
/// `u32::from_str_radix(_, 16)` reads them: an optional `+` sign, then
/// at least one digit.
pub open spec fn hex_color(s: Seq<char>) -> Option<Rgb> {
    let t = trim_hash(trim(s));
    let d = if t.len() > 0 && t[0] == '+' { t.drop_first() } else { t };
    if encode_utf8(t).len() != 6 || d.len() == 0 {
        None
    } else {
        match hex_number(d) {
            Some(v) => Some((((v / 65536) % 256) as u8, ((v / 256) % 256) as u8, (v % 256) as u8)),
            None => None,
        }
    }
}

proof fn lemma_hex_number_bound(s: Seq<char>)
    ensures
        hex_number(s) matches Some(v) ==> v < vstd::arithmetic::power::pow(16, s.len()),
    decreases s.len(),
{
    if s.len() == 0 {
        vstd::arithmetic::power::lemma_pow0(16);
    } else {
        lemma_hex_number_bound(s.drop_last());
        vstd::arithmetic::power::lemma_pow_positive(16, (s.len() - 1) as nat);
        assert(vstd::arithmetic::power::pow(16, s.len()) == 16 * vstd::arithmetic::power::pow(16, (s.len() - 1) as nat)) by {
            vstd::arithmetic::power::lemma_pow_adds(16, 1, (s.len() - 1) as nat);
            vstd::arithmetic::power::lemma_pow1(16);
        }
        if let (Some(n), Some(d)) = (hex_number(s.drop_last()), hex_value(s.last())) {
            assert(n * 16 + d < 16 * vstd::arithmetic::power::pow(16, (s.len() - 1) as nat)) by (nonlinear_arith)
                requires
                    n < vstd::arithmetic::power::pow(16, (s.len() - 1) as nat),
                    d < 16,
            ;
        }
    }
}

fn hex_digit_value(c: char) -> (r: Option<u32>)
    ensures
        match hex_value(c) {
            Some(d) => r == Some(d as u32),
            None => r is None,
        },
{
    if '0' <= c && c <= '9' {
        Some((c as u32) - ('0' as u32))
    } else if 'a' <= c && c <= 'f' {
        Some((c as u32) - ('a' as u32) + 10)
    } else if 'A' <= c && c <= 'F' {
        Some((c as u32) - ('A' as u32) + 10)
    } else {
        None
    }
}

/// The color a hexadecimal text gives, if it is one.
pub fn hex(s: &str) -> (r: Option<Rgb>)
    ensures
        r == hex_color(s@),
{
    let t0 = crate::text::trim_chars(&to_chars(s));
    let mut k: usize = 0;
    assert(t0@.skip(0) =~= t0@);
    while k < t0.len() && t0[k] == '#'
        invariant
            k <= t0@.len(),
            t0@ == trim(s@),
            trim_hash(t0@.skip(k as int)) == trim_hash(trim(s@)),
        decreases t0@.len() - k,
    {
        assert(t0@.skip(k as int).drop_first() =~= t0@.skip(k + 1));
        k = k + 1;
    }
    let ghost t = t0@.skip(k as int);
    assert(trim_hash(t) == t);
    let ts = crate::text::string_of(&t0, k, t0.len());
    assert(t0@.subrange(k as int, t0@.len() as int) =~= t);
    if ts.as_str().as_bytes().len() != 6 {
        return None;
    }
    proof {
        lemma_utf8_len(t);
    }
    let start: usize = if k < t0.len() && t0[k] == '+' { k + 1 } else { k };
    let ghost d = if t.len() > 0 && t[0] == '+' { t.drop_first() } else { t };
    assert(t0@.skip(start as int) =~= d);
    if start >= t0.len() {
        return None;
    }
    let mut v: u32 = 0;
    let mut i: usize = start;
    assert(d.take(0) =~= Seq::<char>::empty());
    assert(hex_color(s@) == match hex_number(d) {
        Some(v) => Some((((v / 65536) % 256) as u8, ((v / 256) % 256) as u8, (v % 256) as u8)),
        None => None::<Rgb>,
    });
    while i < t0.len()
        invariant
            hex_color(s@) == match hex_number(d) {
                Some(v) => Some((((v / 65536) % 256) as u8, ((v / 256) % 256) as u8, (v % 256) as u8)),
                None => None::<Rgb>,
            },
            start <= i <= t0@.len(),
            d == t0@.skip(start as int),
            d.len() <= 6,
            hex_number(d.take(i - start)) == Some(v as nat),
        decreases t0@.len() - i,
    {
        assert(d.take(i + 1 - start).drop_last() =~= d.take(i - start));
        assert(d.take(i + 1 - start).last() == t0@[i as int]);
        match hex_digit_value(t0[i]) {
            Some(x) => {
                proof {
                    lemma_hex_number_bound(d.take(i - start));
                    vstd::arithmetic::power::lemma_pow_increases(16, (i - start) as nat, 5);
                    assert(vstd::arithmetic::power::pow(16, 5) == 1048576) by {
                        vstd::arithmetic::power::lemma_pow_adds(16, 1, 4);
                        vstd::arithmetic::power::lemma_pow_adds(16, 1, 3);
                        vstd::arithmetic::power::lemma_pow_adds(16, 1, 2);
                        vstd::arithmetic::power::lemma_pow_adds(16, 1, 1);
                        vstd::arithmetic::power::lemma_pow1(16);
                    }
                }
                v = v * 16 + x;
            },
            None => {
                proof {
                    lemma_hex_none(d, (i - start) as int);
                }
                return None;
            },
        }
        i = i + 1;
    }
    assert(d.take(i - start) =~= d);
    Some((((v / 65536) % 256) as u8, ((v / 256) % 256) as u8, (v % 256) as u8))
}

/// Every character takes at least one byte.
proof fn lemma_utf8_len(s: Seq<char>)
    ensures
        encode_utf8(s).len() >= s.len(),
    decreases s.len(),
{
    if s.len() > 0 {
        lemma_utf8_len(s.drop_first());
    }
}

/// A digit that is not one spoils every longer prefix.
proof fn lemma_hex_none(d: Seq<char>, j: int)
    requires
        0 <= j < d.len(),
        hex_value(d[j]) is None,
    ensures
        hex_number(d) is None,
    decreases d.len(),
{
    if j < d.len() - 1 {
        lemma_hex_none(d.drop_last(), j);
    }
}

/// The accent colors of the defaults.
pub open spec fn moriya_green() -> Rgb {
    (0x5f, 0xd7, 0xa7)
}

pub open spec fn lake_blue() -> Rgb {
    (0x87, 0xaf, 0xff)
}

impl Theme {
    /// The theme of the settings: colors that do not read fall back to the
    /// defaults.
    pub fn from_config(c: &ThemeConfig) -> (r: Self)
        ensures
            r.accent == (match hex_color(c.accent@) {
                Some(x) => x,
                None => moriya_green(),
            }),
            r.accent2 == (match hex_color(c.accent2@) {
                Some(x) => x,
                None => lake_blue(),
            }),
            r.nerd == c.nerd_font,
    {
        Theme {
            accent: match hex(c.accent.as_str()) {
                Some(x) => x,
                None => (0x5f, 0xd7, 0xa7),
            },
            accent2: match hex(c.accent2.as_str()) {
                Some(x) => x,
                None => (0x87, 0xaf, 0xff),
            },
            nerd: c.nerd_font,
        }
    }

    /// The mark of an installed package (with a Nerd Font, the glyph is a
    /// space: the font draws it).
    pub fn installed(&self) -> (r: &'static str)
        ensures
            r@ == (if self.nerd { " "@ } else { "✔"@ }),
    {
        if self.nerd { " " } else { "✔" }
    }

    /// The mark of a package queued for install.
    pub fn queued_install(&self) -> (r: &'static str)
        ensures
            r@ == (if self.nerd { " "@ } else { "+"@ }),
    {
        if self.nerd { " " } else { "+" }
    }

    /// The mark of a package queued for removal.
    pub fn queued_remove(&self) -> (r: &'static str)
        ensures
            r@ == (if self.nerd { " "@ } else { "−"@ }),
    {
        if self.nerd { " " } else { "−" }
    }

    /// The mark of a package with an update.
    pub fn update(&self) -> (r: &'static str)
        ensures
            r@ == (if self.nerd { " "@ } else { "↑"@ }),
    {
        if self.nerd { " " } else { "↑" }
    }
}

} // verus!
