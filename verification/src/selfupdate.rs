//! Is there a newer Sanae? Asked at start and updated on request.
//!
//! The download happens inside Sanae, not through curl under sudo: curl there
//! inherits neither the proxy environment nor a sane retry policy. The
//! privilege tool only runs `install`. The program talks to GitHub; this
//! decides what the answers mean and what to run.

use vstd::prelude::*;

use crate::queue::{str_views, Step, StepView};
use crate::text::{
    copy_str, decimal, parse_u64, parse_u64_chars, push_decimal, push_str, split_char,
    split_chars, to_chars,
};

verus! {

broadcast use vstd::string::group_string_axioms;

/// The version of this Sanae.
pub const VERSION: &'static str = "0.1.0";

/// Where the latest release is described.
pub const LATEST: &'static str = "https://api.github.com/repos/Chidaruma696/Sanae/releases/latest";

/// Where the latest release binary is.
pub const BINARY: &'static str = "https://github.com/Chidaruma696/Sanae/releases/latest/download/sanae-x86_64-linux";

/// A real Sanae binary is a few megabytes; anything smaller is an error page.
pub const MIN_SIZE: usize = 1048576;

/// `s` without its leading `v`s (`trim_start_matches('v')`).
pub open spec fn trim_v(s: Seq<char>) -> Seq<char>
    decreases s.len(),
{
    if s.len() > 0 && s[0] == 'v' {
        trim_v(s.drop_first())
    } else {
        s
    }
}

/// The numbers of a version: its dot-separated parts, each read as a number
/// or as 0 where it is not one.
pub open spec fn version_parts(s: Seq<char>) -> Seq<u64> {
    let p = split_char(trim_v(s), '.');
    Seq::new(
        p.len(),
        |i: int|
            match parse_u64(p[i]) {
                Some(n) => n,
                None => 0,
            },
    )
}

/// `a > b` for lists of numbers, compared as `Vec`s compare: element by
/// element, a list above every list it extends.
pub open spec fn parts_greater(a: Seq<u64>, b: Seq<u64>) -> bool
    decreases a.len(),
{
    if a.len() == 0 {
        false
    } else if b.len() == 0 {
        true
    } else if a[0] != b[0] {
        a[0] > b[0]
    } else {
        parts_greater(a.drop_first(), b.drop_first())
    }
}

fn parts_of(s: &str) -> (r: Vec<u64>)
    ensures
        r@ == version_parts(s@),
{
    let v = to_chars(s);
    let mut k: usize = 0;
    assert(v@.skip(0) =~= v@);
    while k < v.len() && v[k] == 'v'
        invariant
            v@ == s@,
            k <= v@.len(),
            trim_v(v@.skip(k as int)) == trim_v(s@),
        decreases v@.len() - k,
    {
        assert(v@.skip(k as int).drop_first() =~= v@.skip(k + 1));
        k = k + 1;
    }
    let mut rest: Vec<char> = Vec::new();
    let mut j: usize = k;
    while j < v.len()
        invariant
            k <= j <= v@.len(),
            rest@ == v@.subrange(k as int, j as int),
        decreases v@.len() - j,
    {
        rest.push(v[j]);
        assert(rest@ =~= v@.subrange(k as int, j + 1));
        j = j + 1;
    }
    assert(rest@ =~= v@.skip(k as int));
    assert(trim_v(rest@) == rest@);
    let pieces = split_chars(&rest, '.');
    let ghost pv = crate::text::char_views(pieces@);
    let mut out: Vec<u64> = Vec::new();
    let mut i: usize = 0;
    while i < pieces.len()
        invariant
            pv == crate::text::char_views(pieces@),
            pv == split_char(trim_v(s@), '.'),
            i <= pieces@.len(),
            out@ == version_parts(s@).take(i as int),
        decreases pieces@.len() - i,
    {
        let n = match parse_u64_chars(&pieces[i]) {
            Some(n) => n,
            None => 0,
        };
        assert(pieces@[i as int]@ == pv[i as int]);
        out.push(n);
        assert(out@ =~= version_parts(s@).take(i + 1));
        i = i + 1;
    }
    assert(version_parts(s@).take(i as int) =~= version_parts(s@));
    out
}

fn greater(a: &Vec<u64>, b: &Vec<u64>) -> (r: bool)
    ensures
        r == parts_greater(a@, b@),
{
    let mut i: usize = 0;
    assert(a@.skip(0) =~= a@);
    assert(b@.skip(0) =~= b@);
    while i < a.len() && i < b.len() && a[i] == b[i]
        invariant
            i <= a@.len(),
            i <= b@.len(),
            parts_greater(a@.skip(i as int), b@.skip(i as int)) == parts_greater(a@, b@),
        decreases a@.len() - i,
    {
        assert(a@.skip(i as int).drop_first() =~= a@.skip(i + 1));
        assert(b@.skip(i as int).drop_first() =~= b@.skip(i + 1));
        i = i + 1;
    }
    if i == a.len() {
        false
    } else if i == b.len() {
        true
    } else {
        a[i] > b[i]
    }
}

/// Is `tag` newer than the running binary? Plain numeric comparison of a.b.c.
pub fn is_newer(tag: &str) -> (r: bool)
    ensures
        r == parts_greater(version_parts(tag@), version_parts(VERSION@)),
{
    greater(&parts_of(tag), &parts_of(VERSION))
}

/// Why a download is not a Sanae binary.
#[derive(Debug, PartialEq, Eq)]
pub enum DownloadError {
    /// Fewer bytes than any real binary has.
    TooSmall(usize),
    /// It does not start as an ELF file does.
    NotElf,
}

impl DownloadError {
    /// The message shown for this error.
    pub fn message(&self) -> (r: String)
        ensures
            r@ == download_message(*self),
    {
        match self {
            DownloadError::TooSmall(n) => {
                let mut s = copy_str("the download is too small (");
                push_decimal(&mut s, *n as u64);
                push_str(&mut s, " bytes): not a Sanae binary");
                s
            },
            DownloadError::NotElf => copy_str("the download is not an ELF binary"),
        }
    }
}

pub open spec fn download_message(e: DownloadError) -> Seq<char> {
    match e {
        DownloadError::TooSmall(n) => "the download is too small ("@ + decimal(n as nat)
            + " bytes): not a Sanae binary"@,
        DownloadError::NotElf => "the download is not an ELF binary"@,
    }
}

/// The first bytes of every ELF file.
pub open spec fn elf_magic() -> Seq<u8> {
    seq![0x7fu8, 0x45u8, 0x4cu8, 0x46u8]
}

/// Checks that downloaded bytes look like a real Sanae binary.
pub fn check_download(bytes: &[u8]) -> (r: Result<(), DownloadError>)
    ensures
        bytes@.len() < MIN_SIZE ==> r == Err::<(), DownloadError>(DownloadError::TooSmall(bytes@.len() as usize)),
        bytes@.len() >= MIN_SIZE && bytes@.take(4) != elf_magic() ==> r == Err::<(), DownloadError>(DownloadError::NotElf),
        bytes@.len() >= MIN_SIZE && bytes@.take(4) == elf_magic() ==> r is Ok,
{
    if bytes.len() < MIN_SIZE {
        return Err(DownloadError::TooSmall(bytes.len()));
    }
    if bytes[0] == 0x7f && bytes[1] == 0x45 && bytes[2] == 0x4c && bytes[3] == 0x46 {
        assert(bytes@.take(4) =~= elf_magic());
        Ok(())
    } else {
        assert(bytes@.take(4) != elf_magic()) by {
            if bytes@.take(4) == elf_magic() {
                assert(bytes@.take(4)[0] == bytes@[0]);
                assert(bytes@.take(4)[1] == bytes@[1]);
                assert(bytes@.take(4)[2] == bytes@[2]);
                assert(bytes@.take(4)[3] == bytes@[3]);
            }
        }
        Err(DownloadError::NotElf)
    }
}

/// The steps that put a downloaded binary in place (needs root for
/// /usr/local/bin), show the new version and remove the download.
pub open spec fn spec_install_steps(privilege: Seq<char>, downloaded: Seq<char>, target: Seq<char>) -> Seq<StepView> {
    seq![
        ("Installing Sanae at "@ + target, privilege, seq!["install"@, "-m"@, "755"@, downloaded, target]),
        ("New version"@, target, seq!["--version"@]),
        ("Cleaning up"@, "rm"@, seq!["-f"@, downloaded]),
    ]
}

/// Puts the downloaded file in place and shows the new version.
pub fn install_steps(privilege: &str, downloaded: &str, target: &str) -> (r: Vec<Step>)
    ensures
        r@.len() == 3,
        forall|i: int| 0 <= i < 3 ==> (#[trigger] r@[i])@ == spec_install_steps(privilege@, downloaded@, target@)[i],
{
    let mut title = copy_str("Installing Sanae at ");
    push_str(&mut title, target);
    let mut args: Vec<String> = Vec::new();
    args.push(copy_str("install"));
    args.push(copy_str("-m"));
    args.push(copy_str("755"));
    args.push(copy_str(downloaded));
    args.push(copy_str(target));
    let first = Step { title, program: copy_str(privilege), args };
    assert(crate::text::string_views(first.args@) =~= seq!["install"@, "-m"@, "755"@, downloaded@, target@]);
    let second = Step::new("New version", target, &["--version"]);
    let third = Step::new("Cleaning up", "rm", &["-f", downloaded]);
    assert(str_views(seq!["--version"]) =~= seq!["--version"@]);
    assert(str_views(seq!["-f", downloaded]) =~= seq!["-f"@, downloaded@]);
    let mut r: Vec<Step> = Vec::new();
    r.push(first);
    r.push(second);
    r.push(third);
    r
}


// ------------------------------------------------------------------ laws

/// No version is newer than itself, and of two versions at most one is the
/// newer.
pub proof fn law_newer_is_strict(a: Seq<u64>, b: Seq<u64>)
    ensures
        !parts_greater(a, a),
        !(parts_greater(a, b) && parts_greater(b, a)),
    decreases a.len(),
{
    if a.len() > 0 && b.len() > 0 {
        law_newer_is_strict(a.drop_first(), b.drop_first());
    } else if a.len() > 0 {
        law_newer_is_strict(a.drop_first(), a.drop_first());
    }
}

} // verus!
