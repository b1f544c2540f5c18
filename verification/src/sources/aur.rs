//! The Arch User Repository, through its RPC v5 interface
//! (<https://aur.archlinux.org/rpc/v5/…>). The program sends the requests and
//! reads the JSON; this builds the requests, maps the records and decides
//! what an answer means.

use vstd::prelude::*;
use vstd::utf8::encode_utf8;

use crate::model::{copy_opt, copy_strings, Details, Package, Source};
use crate::text::{copy_str, join, join_strings, push_char, push_str, string_views, trim, trim_chars, to_chars, string_of_all};

verus! {

broadcast use vstd::string::group_string_axioms;

/// The RPC's address.
pub const RPC: &'static str = "https://aur.archlinux.org/rpc/v5";

/// The RPC rejects overly long URLs; 100 names per `info` call is safe.
pub const INFO_CHUNK: usize = 100;

/// What `search` matches against.
#[derive(Clone, Copy, Debug, PartialEq, Eq, Structural)]
pub enum SearchBy {
    Name,
    NameDesc,
    Maintainer,
    Depends,
    MakeDepends,
    OptDepends,
    Provides,
    Keywords,
    Groups,
}

impl Default for SearchBy {
    fn default() -> (r: Self)
        ensures
            r == SearchBy::NameDesc,
    {
        SearchBy::NameDesc
    }
}

/// The name the RPC knows a search field by.
pub open spec fn search_by_name(b: SearchBy) -> Seq<char> {
    match b {
        SearchBy::Name => "name"@,
        SearchBy::NameDesc => "name-desc"@,
        SearchBy::Maintainer => "maintainer"@,
        SearchBy::Depends => "depends"@,
        SearchBy::MakeDepends => "makedepends"@,
        SearchBy::OptDepends => "optdepends"@,
        SearchBy::Provides => "provides"@,
        SearchBy::Keywords => "keywords"@,
        SearchBy::Groups => "groups"@,
    }
}

impl SearchBy {
    /// The field the RPC knows by this name, if any (`--by` on the command line).
    pub fn parse(s: &str) -> (r: Option<SearchBy>)
        ensures
            match r {
                Some(b) => search_by_name(b) == s@,
                None => forall|b: SearchBy| search_by_name(b) != s@,
            },
    {
        let all = [
            SearchBy::Name,
            SearchBy::NameDesc,
            SearchBy::Maintainer,
            SearchBy::Depends,
            SearchBy::MakeDepends,
            SearchBy::OptDepends,
            SearchBy::Provides,
            SearchBy::Keywords,
            SearchBy::Groups,
        ];
        let mut i: usize = 0;
        while i < 9
            invariant
                i <= 9,
                all@ == seq![
                    SearchBy::Name,
                    SearchBy::NameDesc,
                    SearchBy::Maintainer,
                    SearchBy::Depends,
                    SearchBy::MakeDepends,
                    SearchBy::OptDepends,
                    SearchBy::Provides,
                    SearchBy::Keywords,
                    SearchBy::Groups,
                ],
                forall|k: int| 0 <= k < i ==> search_by_name(#[trigger] all@[k]) != s@,
            decreases 9 - i,
        {
            if crate::text::str_eq(all[i].as_str(), s) {
                return Some(all[i]);
            }
            i = i + 1;
        }
        assert forall|b: SearchBy| search_by_name(b) != s@ by {
            match b {
                SearchBy::Name => assert(search_by_name(all@[0]) != s@),
                SearchBy::NameDesc => assert(search_by_name(all@[1]) != s@),
                SearchBy::Maintainer => assert(search_by_name(all@[2]) != s@),
                SearchBy::Depends => assert(search_by_name(all@[3]) != s@),
                SearchBy::MakeDepends => assert(search_by_name(all@[4]) != s@),
                SearchBy::OptDepends => assert(search_by_name(all@[5]) != s@),
                SearchBy::Provides => assert(search_by_name(all@[6]) != s@),
                SearchBy::Keywords => assert(search_by_name(all@[7]) != s@),
                SearchBy::Groups => assert(search_by_name(all@[8]) != s@),
            }
        }
        None
    }

    pub fn as_str(self) -> (r: &'static str)
        ensures
            r@ == search_by_name(self),
    {
        match self {
            SearchBy::Name => "name",
            SearchBy::NameDesc => "name-desc",
            SearchBy::Maintainer => "maintainer",
            SearchBy::Depends => "depends",
            SearchBy::MakeDepends => "makedepends",
            SearchBy::OptDepends => "optdepends",
            SearchBy::Provides => "provides",
            SearchBy::Keywords => "keywords",
            SearchBy::Groups => "groups",
        }
    }
}

/// The RPC's package record. Field names are the AUR's; the popularity is
/// kept in millionths (a score of 1.5 is 1_500_000).
#[derive(Debug)]
pub struct RpcPackage {
    pub name: String,
    pub version: String,
    pub description: Option<String>,
    pub package_base: Option<String>,
    pub num_votes: u32,
    pub popularity: u64,
    pub out_of_date: Option<i64>,
    pub maintainer: Option<String>,
    pub last_modified: Option<i64>,
    pub url: Option<String>,
    pub license: Vec<String>,
    pub depends: Vec<String>,
    pub make_depends: Vec<String>,
    pub opt_depends: Vec<String>,
    pub provides: Vec<String>,
    pub conflicts: Vec<String>,
    pub replaces: Vec<String>,
    pub keywords: Vec<String>,
    pub groups: Vec<String>,
}

/// The package an AUR record shows in lists.
pub open spec fn rpc_package(r: RpcPackage, p: Package) -> bool {
    &&& p.name@ == r.name@
    &&& p.version@ == r.version@
    &&& p.source == Source::Aur
    &&& p.description@ == (match r.description {
        Some(d) => d@,
        None => Seq::<char>::empty(),
    })
    &&& p.groups@ == r.groups@
    &&& p.licenses@ == r.license@
    &&& p.url == r.url
    &&& p.install_size is None
    &&& p.download_size is None
    &&& p.votes == Some(r.num_votes)
    &&& p.popularity == Some(r.popularity)
    &&& p.out_of_date == r.out_of_date
    &&& p.maintainer == r.maintainer
    &&& p.last_modified == r.last_modified
    &&& p.installed is None
}

/// The details an AUR record gives.
pub open spec fn rpc_details(r: RpcPackage, d: Details) -> bool {
    &&& d.depends@ == r.depends@
    &&& d.opt_depends@ == r.opt_depends@
    &&& d.make_depends@ == r.make_depends@
    &&& d.provides@ == r.provides@
    &&& d.conflicts@ == r.conflicts@
    &&& d.replaces@ == r.replaces@
    &&& d.required_by@.len() == 0
    &&& d.optional_for@.len() == 0
    &&& d.packager is None
    &&& d.build_date is None
    &&& d.architecture is None
    &&& d.package_base == r.package_base
    &&& d.keywords@ == r.keywords@
}

impl RpcPackage {
    pub fn to_package(&self) -> (p: Package)
        ensures
            rpc_package(*self, p),
    {
        Package {
            name: self.name.clone(),
            version: self.version.clone(),
            source: Source::Aur,
            description: match &self.description {
                Some(d) => d.clone(),
                None => String::new(),
            },
            groups: copy_strings(&self.groups),
            licenses: copy_strings(&self.license),
            url: copy_opt(&self.url),
            install_size: None,
            download_size: None,
            votes: Some(self.num_votes),
            popularity: Some(self.popularity),
            out_of_date: self.out_of_date,
            maintainer: copy_opt(&self.maintainer),
            last_modified: self.last_modified,
            installed: None,
        }
    }

    pub fn to_details(&self) -> (d: Details)
        ensures
            rpc_details(*self, d),
    {
        Details {
            depends: copy_strings(&self.depends),
            opt_depends: copy_strings(&self.opt_depends),
            make_depends: copy_strings(&self.make_depends),
            provides: copy_strings(&self.provides),
            conflicts: copy_strings(&self.conflicts),
            replaces: copy_strings(&self.replaces),
            required_by: Vec::new(),
            optional_for: Vec::new(),
            packager: None,
            build_date: None,
            architecture: None,
            package_base: copy_opt(&self.package_base),
            keywords: copy_strings(&self.keywords),
        }
    }
}

// ----------------------------------------------------------------- URLs

/// A byte that stands in a query component as it is.
pub open spec fn unreserved(b: u8) -> bool {
    (0x41 <= b && b <= 0x5a) || (0x61 <= b && b <= 0x7a) || (0x30 <= b && b <= 0x39) || b == 0x2d
        || b == 0x5f || b == 0x2e || b == 0x7e || b == 0x2b || b == 0x40
}

/// An upper-case hexadecimal digit.
pub open spec fn hex_upper(d: nat) -> char {
    if d < 10 {
        (('0' as nat) + d) as char
    } else {
        (('A' as nat) + d - 10) as char
    }
}

/// Bytes percent-encoded: the unreserved ones as they are, the others as
/// `%XX`.
pub open spec fn percent_encoded(b: Seq<u8>) -> Seq<char>
    decreases b.len(),
{
    if b.len() == 0 {
        Seq::empty()
    } else {
        let x = b.last();
        percent_encoded(b.drop_last()) + if unreserved(x) {
            seq![x as char]
        } else {
            seq!['%', hex_upper((x / 16) as nat), hex_upper((x % 16) as nat)]
        }
    }
}

/// A text percent-encoded, byte by byte of its UTF-8 form.
pub open spec fn url_encoded(s: Seq<char>) -> Seq<char> {
    percent_encoded(encode_utf8(s))
}

fn hex_digit(d: u8) -> (c: char)
    requires
        d < 16,
    ensures
        c == hex_upper(d as nat),
{
    if d == 0 { '0' } else if d == 1 { '1' } else if d == 2 { '2' } else if d == 3 { '3' } else if d
        == 4 { '4' } else if d == 5 { '5' } else if d == 6 { '6' } else if d == 7 { '7' } else if d
        == 8 { '8' } else if d == 9 { '9' } else if d == 10 { 'A' } else if d == 11 { 'B' } else if d
        == 12 { 'C' } else if d == 13 { 'D' } else if d == 14 { 'E' } else { 'F' }
}

/// Percent-encodes the few characters that matter in a query component.
pub fn urlencode(s: &str) -> (r: String)
    ensures
        r@ == url_encoded(s@),
{
    let b = s.as_bytes();
    let mut out = String::new();
    let mut i: usize = 0;
    while i < b.len()
        invariant
            b@ == encode_utf8(s@),
            i <= b@.len(),
            out@ == percent_encoded(b@.take(i as int)),
        decreases b@.len() - i,
    {
        let x = b[i];
        assert(b@.take(i + 1).drop_last() =~= b@.take(i as int));
        let ghost before = out@;
        if (0x41 <= x && x <= 0x5a) || (0x61 <= x && x <= 0x7a) || (0x30 <= x && x <= 0x39)
            || x == 0x2d || x == 0x5f || x == 0x2e || x == 0x7e || x == 0x2b || x == 0x40 {
            push_char(&mut out, x as char);
            assert(out@ =~= before + seq![x as char]);
        } else {
            push_char(&mut out, '%');
            push_char(&mut out, hex_digit(x / 16));
            push_char(&mut out, hex_digit(x % 16));
            assert(out@ =~= before + seq!['%', hex_upper((x / 16) as nat), hex_upper((x % 16) as nat)]);
        }
        i = i + 1;
    }
    assert(b@.take(i as int) =~= b@);
    out
}

/// A request to the AUR: where to ask, and the key its answer is cached under.
#[derive(Debug)]
pub struct Request {
    pub url: String,
    pub cache_key: String,
}

/// The search URL for a (trimmed) query.
pub open spec fn search_url(q: Seq<char>, by: SearchBy) -> Seq<char> {
    RPC@ + "/search/"@ + url_encoded(q) + "?by="@ + search_by_name(by)
}

/// The cache key of a search.
pub open spec fn search_key(q: Seq<char>, by: SearchBy) -> Seq<char> {
    "search-"@ + search_by_name(by) + "-"@ + q
}

/// The request for a search, or none where the trimmed query has fewer
/// than two bytes (the AUR refuses those; the answer is no results).
pub fn search_request(query: &str, by: SearchBy) -> (r: Option<Request>)
    ensures
        encode_utf8(trim(query@)).len() < 2 ==> r is None,
        encode_utf8(trim(query@)).len() >= 2 ==> (r matches Some(req) && req.url@ == search_url(
            trim(query@),
            by,
        ) && req.cache_key@ == search_key(trim(query@), by)),
{
    let q = string_of_all(&trim_chars(&to_chars(query)));
    let qb = q.as_str().as_bytes();
    if qb.len() < 2 {
        return None;
    }
    let mut url = copy_str(RPC);
    push_str(&mut url, "/search/");
    push_str(&mut url, urlencode(q.as_str()).as_str());
    push_str(&mut url, "?by=");
    push_str(&mut url, by.as_str());
    let mut key = copy_str("search-");
    push_str(&mut key, by.as_str());
    push_str(&mut key, "-");
    push_str(&mut key, q.as_str());
    Some(Request { url, cache_key: key })
}

/// The names of the `i`-th batch of an `info` call.
pub open spec fn info_chunk(names: Seq<Seq<char>>, i: int) -> Seq<Seq<char>> {
    let from = i * 100;
    let to = if from + 100 <= names.len() { from + 100 } else { names.len() as int };
    names.subrange(from, to)
}

/// The number of `info` batches for `n` names.
pub open spec fn chunk_count(n: nat) -> nat {
    ((n + 99) / 100) as nat
}

/// The URL of an `info` batch.
pub open spec fn info_url(chunk: Seq<Seq<char>>) -> Seq<char> {
    RPC@ + "/info?"@ + join(Seq::new(chunk.len(), |j: int| "arg[]="@ + url_encoded(chunk[j])), "&"@)
}

/// The cache key of an `info` batch.
pub open spec fn info_key(chunk: Seq<Seq<char>>) -> Seq<char> {
    "info-"@ + join(chunk, ","@)
}

fn info_request(names: &Vec<String>, from: usize, to: usize) -> (r: Request)
    requires
        from <= to <= names@.len(),
    ensures
        r.url@ == info_url(string_views(names@).subrange(from as int, to as int)),
        r.cache_key@ == info_key(string_views(names@).subrange(from as int, to as int)),
{
    let ghost chunk = string_views(names@).subrange(from as int, to as int);
    let mut args: Vec<String> = Vec::new();
    let mut part: Vec<String> = Vec::new();
    let mut j: usize = from;
    while j < to
        invariant
            from <= j <= to <= names@.len(),
            chunk == string_views(names@).subrange(from as int, to as int),
            string_views(args@) == Seq::new(
                (j - from) as nat,
                |k: int| "arg[]="@ + url_encoded(chunk[k]),
            ),
            string_views(part@) == chunk.take(j - from),
        decreases to - j,
    {
        let mut a = copy_str("arg[]=");
        push_str(&mut a, urlencode(names[j].as_str()).as_str());
        assert(chunk[j - from] == names@[j as int]@);
        assert(a@ == "arg[]="@ + url_encoded(chunk[j - from]));
        let ghost before_args = args@;
        let ghost before_part = part@;
        args.push(a);
        let c = copy_str(names[j].as_str());
        part.push(c);
        assert(string_views(part@) =~= string_views(before_part).push(c@));
        assert(string_views(args@) =~= string_views(before_args).push(a@));
        assert(string_views(args@) =~= Seq::new(
            (j + 1 - from) as nat,
            |k: int| "arg[]="@ + url_encoded(chunk[k]),
        ));
        assert(string_views(part@) =~= chunk.take(j + 1 - from));
        j = j + 1;
    }
    assert(chunk.take(j - from) =~= chunk);
    let mut url = copy_str(RPC);
    push_str(&mut url, "/info?");
    push_str(&mut url, join_strings(&args, "&").as_str());
    let mut key = copy_str("info-");
    push_str(&mut key, join_strings(&part, ",").as_str());
    assert(Seq::new(chunk.len(), |k: int| "arg[]="@ + url_encoded(chunk[k])) =~= string_views(args@));
    Request { url, cache_key: key }
}

/// The requests that fetch the full records of `names`, in batches of 100.
pub fn info_requests(names: &Vec<String>) -> (r: Vec<Request>)
    requires
        names@.len() + 100 <= usize::MAX,
    ensures
        r@.len() == chunk_count(names@.len()),
        forall|i: int|
            0 <= i < r@.len() ==> (#[trigger] r@[i]).url@ == info_url(info_chunk(string_views(names@), i))
                && r@[i].cache_key@ == info_key(info_chunk(string_views(names@), i)),
{
    let ghost nv = string_views(names@);
    let n = names.len();
    let mut r: Vec<Request> = Vec::new();
    let mut from: usize = 0;
    while from < n
        invariant
            n == names@.len(),
            n + 100 <= usize::MAX,
            nv == string_views(names@),
            from == r@.len() * 100,
            from <= n + 99,
            r@.len() <= chunk_count(n as nat),
            from < n ==> r@.len() < chunk_count(n as nat),
            from >= n ==> r@.len() == chunk_count(n as nat),
            forall|i: int|
                0 <= i < r@.len() ==> (#[trigger] r@[i]).url@ == info_url(info_chunk(nv, i))
                    && r@[i].cache_key@ == info_key(info_chunk(nv, i)),
        decreases n + 100 - from,
    {
        let to = if from + 100 <= n { from + 100 } else { n };
        let req = info_request(names, from, to);
        assert(info_chunk(nv, r@.len() as int) == nv.subrange(from as int, to as int));
        r.push(req);
        from = from + 100;
    }
    r
}

/// The PKGBUILD of a package base: where it is, and its cache key.
pub fn pkgbuild_request(package_base: &str) -> (r: Request)
    ensures
        r.url@ == "https://aur.archlinux.org/cgit/aur.git/plain/PKGBUILD?h="@ + url_encoded(package_base@),
        r.cache_key@ == "pkgbuild-"@ + package_base@,
{
    let mut url = copy_str("https://aur.archlinux.org/cgit/aur.git/plain/PKGBUILD?h=");
    push_str(&mut url, urlencode(package_base).as_str());
    let mut key = copy_str("pkgbuild-");
    push_str(&mut key, package_base);
    Request { url, cache_key: key }
}

/// What an RPC answer means: its error, as a message, or its results.
pub fn rpc_outcome(error: Option<String>, results: Vec<RpcPackage>) -> (r: Result<Vec<RpcPackage>, String>)
    ensures
        match error {
            Some(e) => r matches Err(m) && m@ == "AUR: "@ + e@,
            None => r matches Ok(v) && v@ == results@,
        },
{
    match error {
        Some(e) => {
            let mut m = copy_str("AUR: ");
            push_str(&mut m, e.as_str());
            Err(m)
        },
        None => Ok(results),
    }
}


// ------------------------------------------------------------------ laws

/// A character that may stand in an encoded query component.
pub open spec fn url_safe(c: char) -> bool {
    ('A' <= c && c <= 'Z') || ('a' <= c && c <= 'z') || ('0' <= c && c <= '9') || c == '-' || c
        == '_' || c == '.' || c == '~' || c == '+' || c == '@' || c == '%'
}

/// Whatever the text, its encoded form holds only unreserved characters and
/// `%` escapes.
pub proof fn law_encoded_is_url_safe(b: Seq<u8>)
    ensures
        forall|i: int| 0 <= i < percent_encoded(b).len() ==> url_safe(#[trigger] percent_encoded(b)[i]),
    decreases b.len(),
{
    if b.len() > 0 {
        law_encoded_is_url_safe(b.drop_last());
        let prev = percent_encoded(b.drop_last());
        let x = b.last();
        let tail = if unreserved(x) {
            seq![x as char]
        } else {
            seq!['%', hex_upper((x / 16) as nat), hex_upper((x % 16) as nat)]
        };
        assert(percent_encoded(b) == prev + tail);
        assert forall|i: int| 0 <= i < tail.len() implies url_safe(#[trigger] tail[i]) by {
            if !unreserved(x) && i > 0 {
                let d: nat = if i == 1 { (x / 16) as nat } else { (x % 16) as nat };
                assert(tail[i] == hex_upper(d));
                if d < 10 {
                    assert('0' <= hex_upper(d) <= '9');
                } else {
                    assert('A' <= hex_upper(d) <= 'F');
                }
            }
        }
        assert forall|i: int| 0 <= i < percent_encoded(b).len() implies url_safe(#[trigger] percent_encoded(b)[i]) by {
            if i < prev.len() {
                assert(percent_encoded(b)[i] == prev[i]);
            } else {
                assert(percent_encoded(b)[i] == tail[i - prev.len()]);
            }
        }
    }
}


/// Each search field has its own name, so reading a field's name gives the
/// field back.
pub proof fn law_search_by_names_differ(a: SearchBy, b: SearchBy)
    ensures
        search_by_name(a) == search_by_name(b) ==> a == b,
{
    reveal_strlit("name");
    reveal_strlit("name-desc");
    reveal_strlit("maintainer");
    reveal_strlit("depends");
    reveal_strlit("makedepends");
    reveal_strlit("optdepends");
    reveal_strlit("provides");
    reveal_strlit("keywords");
    reveal_strlit("groups");
    if search_by_name(a) == search_by_name(b) && a != b {
        let x = search_by_name(a);
        let y = search_by_name(b);
        assert(x.len() == y.len());
        assert(x[0] == y[0]);
        assert(x[x.len() - 1] == y[y.len() - 1]);
    }
}

} // verus!
