//! A tiny file cache under `~/.cache/sanae`. Deleting the directory is always
//! safe. The program reads and writes the files; this says where they are.

use vstd::prelude::*;
use vstd::string::StringSliceAdditionalSpecFns;
use vstd::utf8::encode_utf8;

use crate::text::{copy_str, push_char, push_str, to_chars};

verus! {

broadcast use vstd::string::group_string_axioms;

/// Where cached texts live; an empty directory disables the cache.
#[derive(Debug)]
pub struct Cache {
    pub dir: String,
}

impl Clone for Cache {
    fn clone(&self) -> (r: Self)
        ensures
            r.dir@ == self.dir@,
    {
        Cache { dir: copy_str(self.dir.as_str()) }
    }
}

/// FNV-1a's offset basis and prime, 64 bits.
pub const FNV_OFFSET: u64 = 0xcbf2_9ce4_8422_2325;

pub const FNV_PRIME: u64 = 0x0100_0000_01b3;

/// FNV-1a over bytes: a small, fast, non-cryptographic hash; collisions only
/// cost a cache miss.
pub open spec fn fnv1a(b: Seq<u8>) -> u64
    decreases b.len(),
{
    if b.len() == 0 {
        FNV_OFFSET
    } else {
        (fnv1a(b.drop_last()) ^ (b.last() as u64)).wrapping_mul(FNV_PRIME)
    }
}

/// The hash of a key: FNV-1a over its UTF-8 bytes.
pub fn fxhash(s: &str) -> (h: u64)
    ensures
        h == fnv1a(encode_utf8(s@)),
{
    let b = s.as_bytes();
    let mut h: u64 = FNV_OFFSET;
    let mut i: usize = 0;
    while i < b.len()
        invariant
            b@ == s.spec_bytes(),
            i <= b@.len(),
            h == fnv1a(b@.take(i as int)),
        decreases b@.len() - i,
    {
        assert(b@.take(i + 1).drop_last() =~= b@.take(i as int));
        h = (h ^ (b[i] as u64)).wrapping_mul(FNV_PRIME);
        i = i + 1;
    }
    assert(b@.take(i as int) =~= b@);
    h
}

/// A character that may stand in a file name as it is.
pub open spec fn is_safe_char(c: char) -> bool {
    ('a' <= c && c <= 'z') || ('A' <= c && c <= 'Z') || ('0' <= c && c <= '9') || c == '-' || c
        == '_' || c == '.'
}

/// The file-name part of a key: at most its first 120 characters, each unsafe
/// one replaced by `_`.
pub open spec fn safe_name(key: Seq<char>) -> Seq<char> {
    let n = if key.len() <= 120 { key.len() } else { 120 };
    Seq::new(n, |i: int| if is_safe_char(key[i]) { key[i] } else { '_' })
}

/// The hexadecimal digit of `d` (lower case).
pub open spec fn hex_char(d: nat) -> char {
    if d < 10 {
        (('0' as nat) + d) as char
    } else {
        (('a' as nat) + d - 10) as char
    }
}

/// The last `k` hexadecimal digits of `n`, zero-padded.
pub open spec fn hex_digits(n: nat, k: nat) -> Seq<char>
    decreases k,
{
    if k == 0 {
        Seq::empty()
    } else {
        hex_digits(n / 16, (k - 1) as nat).push(hex_char(n % 16))
    }
}

/// The file name of a key: its safe part, `-`, and the hash of its UTF-8
/// bytes in 16 digits.
pub open spec fn file_name(key: Seq<char>) -> Seq<char> {
    safe_name(key) + seq!['-'] + hex_digits(fnv1a(encode_utf8(key)) as nat, 16)
}

/// `dir` joined with a relative name (`Path::join` on Unix): a `/` between
/// them unless `dir` is empty or already ends in one.
pub open spec fn joined(dir: Seq<char>, name: Seq<char>) -> Seq<char> {
    if dir.len() == 0 {
        name
    } else if dir.last() == '/' {
        dir + name
    } else {
        dir + seq!['/'] + name
    }
}

fn hex_of(d: u64) -> (c: char)
    requires
        d < 16,
    ensures
        c == hex_char(d as nat),
{
    if d == 0 { '0' } else if d == 1 { '1' } else if d == 2 { '2' } else if d == 3 { '3' } else if d
        == 4 { '4' } else if d == 5 { '5' } else if d == 6 { '6' } else if d == 7 { '7' } else if d
        == 8 { '8' } else if d == 9 { '9' } else if d == 10 { 'a' } else if d == 11 { 'b' } else if d
        == 12 { 'c' } else if d == 13 { 'd' } else if d == 14 { 'e' } else { 'f' }
}

fn push_hex(s: &mut String, n: u64, k: u64)
    ensures
        final(s)@ == old(s)@ + hex_digits(n as nat, k as nat),
    decreases k,
{
    if k == 0 {
        assert(old(s)@ + Seq::<char>::empty() =~= old(s)@);
        return;
    }
    push_hex(s, n / 16, k - 1);
    push_char(s, hex_of(n % 16));
    assert(old(s)@ + hex_digits(n as nat, k as nat) =~= old(s)@ + hex_digits(
        (n / 16) as nat,
        (k - 1) as nat,
    ) + seq![hex_char((n % 16) as nat)]);
}

impl Cache {
    /// A cache in this directory.
    pub fn at(dir: &str) -> (r: Self)
        ensures
            r.dir@ == dir@,
    {
        Cache { dir: copy_str(dir) }
    }

    /// A cache that never hits the disk (tests, `--no-cache`).
    pub fn disabled() -> (r: Self)
        ensures
            r.dir@ == Seq::<char>::empty(),
    {
        Cache { dir: String::new() }
    }

    /// Whether this cache never hits the disk.
    pub fn is_disabled(&self) -> (r: bool)
        ensures
            r == (self.dir@.len() == 0),
    {
        self.dir.as_str().is_empty()
    }

    pub fn dir(&self) -> (r: &String)
        ensures
            r@ == self.dir@,
    {
        &self.dir
    }

    /// The file that holds the text cached under `key`. Keys may contain
    /// anything; the file name holds only letters, digits, `-`, `_` and `.`.
    pub fn path(&self, key: &str) -> (r: String)
        ensures
            r@ == joined(self.dir@, file_name(key@)),
    {
        let v = to_chars(key);
        let n: usize = if v.len() <= 120 { v.len() } else { 120 };
        let mut name = String::new();
        let mut i: usize = 0;
        while i < n
            invariant
                v@ == key@,
                n <= v@.len(),
                n == (if key@.len() <= 120 { key@.len() } else { 120 }),
                i <= n,
                name@ == safe_name(key@).take(i as int),
            decreases n - i,
        {
            let c = v[i];
            let safe = ('a' <= c && c <= 'z') || ('A' <= c && c <= 'Z') || ('0' <= c && c <= '9')
                || c == '-' || c == '_' || c == '.';
            push_char(&mut name, if safe { c } else { '_' });
            assert(name@ =~= safe_name(key@).take(i + 1));
            i = i + 1;
        }
        assert(safe_name(key@).take(n as int) =~= safe_name(key@));
        push_char(&mut name, '-');
        push_hex(&mut name, fxhash(key), 16);
        let mut r = copy_str(self.dir.as_str());
        if r.as_str().is_empty() {
            r = name;
        } else {
            let dv = to_chars(self.dir.as_str());
            if dv[dv.len() - 1] != '/' {
                push_char(&mut r, '/');
            }
            push_str(&mut r, name.as_str());
        }
        r
    }
}


// ------------------------------------------------------------------ laws

proof fn lemma_hex_safe(n: nat, k: nat)
    ensures
        forall|i: int| 0 <= i < hex_digits(n, k).len() ==> is_safe_char(#[trigger] hex_digits(n, k)[i]),
        hex_digits(n, k).len() == k,
    decreases k,
{
    if k > 0 {
        lemma_hex_safe(n / 16, (k - 1) as nat);
        let prev = hex_digits(n / 16, (k - 1) as nat);
        let d = n % 16;
        assert(is_safe_char(hex_char(d))) by {
            if d < 10 {
                assert('0' <= hex_char(d) <= '9');
            } else {
                assert('a' <= hex_char(d) <= 'f');
            }
        }
        assert forall|i: int| 0 <= i < hex_digits(n, k).len() implies is_safe_char(#[trigger] hex_digits(n, k)[i]) by {
            if i < prev.len() {
                assert(hex_digits(n, k)[i] == prev[i]);
            }
        }
    }
}

/// Whatever the key, its file name holds only letters, digits, `-`, `_` and
/// `.`, and ends in the 16 digits of its hash.
pub proof fn law_file_names_are_safe(key: Seq<char>)
    ensures
        forall|i: int| 0 <= i < file_name(key).len() ==> is_safe_char(#[trigger] file_name(key)[i]),
        file_name(key).len() == safe_name(key).len() + 17,
{
    lemma_hex_safe(fnv1a(encode_utf8(key)) as nat, 16);
    let a = safe_name(key);
    let h = hex_digits(fnv1a(encode_utf8(key)) as nat, 16);
    assert forall|i: int| 0 <= i < file_name(key).len() implies is_safe_char(#[trigger] file_name(key)[i]) by {
        if i < a.len() {
            assert(file_name(key)[i] == a[i]);
        } else if i == a.len() {
            assert(file_name(key)[i] == '-');
        } else {
            assert(file_name(key)[i] == h[i - a.len() - 1]);
        }
    }
}

} // verus!
