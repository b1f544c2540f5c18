//! The pacman databases, as `expac`, `pacman` and `checkupdates` print them.
//!
//! Sanae never links libalpm: pacman's own tools are stable across pacman
//! releases. The program runs them; this reads what they print.

use std::cmp::Ordering;

use vstd::prelude::*;

use crate::model::{Details, Installed, Package, Source, Update};
use crate::text::{
    contains_str, copy_str, has_substring, push_str, trim_end, char_views, chars_eq, chars_occur_at, seq_less, str_eq, str_less, has_prefix, lines, lines_of, parse_i64, parse_i64_chars,
    parse_u64, parse_u64_chars, split_char, split_chars, string_of_all, string_views, to_chars,
    trim, trim_chars, words, words_of,
};

verus! {

/// The separator between the items of one list field (`expac -l`).
pub open spec fn list_sep() -> char {
    '\u{1f}'
}

/// The items of a list field: trimmed, without empty ones and pacman's "None".
pub open spec fn kept_items(p: Seq<Seq<char>>) -> Seq<Seq<char>>
    decreases p.len(),
{
    if p.len() == 0 {
        Seq::<Seq<char>>::empty()
    } else {
        let t = trim(p.last());
        if t.len() > 0 && t != "None"@ {
            kept_items(p.drop_last()).push(t)
        } else {
            kept_items(p.drop_last())
        }
    }
}

/// A list field as a list.
pub open spec fn field_list(f: Seq<char>) -> Seq<Seq<char>> {
    kept_items(split_char(f, list_sep()))
}

/// An optional text field: nothing when empty or "None".
pub open spec fn field_opt(f: Seq<char>) -> Option<Seq<char>> {
    let t = trim(f);
    if t.len() == 0 || t == "None"@ {
        None
    } else {
        Some(t)
    }
}

proof fn lemma_kept_items_clean(p: Seq<Seq<char>>)
    ensures
        forall|k: int|
            0 <= k < kept_items(p).len() ==> (#[trigger] kept_items(p)[k]).len() > 0 && kept_items(p)[k] != "None"@,
    decreases p.len(),
{
    if p.len() > 0 {
        let init = kept_items(p.drop_last());
        lemma_kept_items_clean(p.drop_last());
        assert forall|k: int| 0 <= k < kept_items(p).len() implies (#[trigger] kept_items(p)[k]).len() > 0
            && kept_items(p)[k] != "None"@ by {
            if k < init.len() {
                assert(kept_items(p)[k] == init[k]);
            }
        }
    }
}

/// What expac prints for a missing value, "None", or an empty field never
/// becomes a value: an optional field is then absent, and a list holds no
/// such item.
pub proof fn law_none_is_no_value(f: Seq<char>)
    ensures
        field_opt(f) != Some("None"@),
        field_opt(f) != Some(Seq::<char>::empty()),
        forall|k: int| 0 <= k < field_list(f).len() ==> (#[trigger] field_list(f)[k]).len() > 0 && field_list(f)[k] != "None"@,
{
    lemma_kept_items_clean(split_char(f, list_sep()));
}

pub open spec fn opt_view(o: Option<String>) -> Option<Seq<char>> {
    match o {
        Some(s) => Some(s@),
        None => None,
    }
}

/// The tab-separated fields of every line.
pub open spec fn line_fields(ls: Seq<Seq<char>>) -> Seq<Seq<Seq<char>>> {
    Seq::new(ls.len(), |i: int| split_char(ls[i], '\t'))
}

/// The records with at least `n` fields, in order.
pub open spec fn rows_with(rows: Seq<Seq<Seq<char>>>, n: nat) -> Seq<Seq<Seq<char>>>
    decreases rows.len(),
{
    if rows.len() == 0 {
        rows
    } else if rows.last().len() >= n {
        rows_with(rows.drop_last(), n).push(rows.last())
    } else {
        rows_with(rows.drop_last(), n)
    }
}

/// The records of an `expac` dump that have all `n` fields.
pub open spec fn records(out: Seq<char>, n: nat) -> Seq<Seq<Seq<char>>> {
    rows_with(line_fields(lines(out)), n)
}

/// One `expac -S` record
/// (`%n %v %r %d %G %m %k %u %L`) as a package.
pub open spec fn is_sync_package(p: Package, f: Seq<Seq<char>>) -> bool {
    &&& p.name@ == f[0]
    &&& p.version@ == f[1]
    &&& p.source is Repo && p.source->0@ == f[2]
    &&& p.description@ == f[3]
    &&& string_views(p.groups@) == field_list(f[4])
    &&& p.install_size == parse_u64(trim(f[5]))
    &&& p.download_size == parse_u64(trim(f[6]))
    &&& opt_view(p.url) == field_opt(f[7])
    &&& string_views(p.licenses@) == field_list(f[8])
    &&& p.votes is None && p.popularity is None && p.out_of_date is None
    &&& p.maintainer is None && p.last_modified is None && p.installed is None
}

/// One installed package as the local database sees it.
#[derive(Debug)]
pub struct LocalPackage {
    pub name: String,
    pub description: String,
    pub url: Option<String>,
    pub licenses: Vec<String>,
    pub groups: Vec<String>,
    pub installed: Installed,
}

/// One `expac -Q` record (`%n %v %w %l %m %d %u %L %G`) as an installed package.
pub open spec fn is_local_package(p: LocalPackage, f: Seq<Seq<char>>) -> bool {
    &&& p.name@ == f[0]
    &&& p.installed.version@ == f[1]
    &&& p.installed.explicit == has_prefix(trim(f[2]), "Explicitly"@)
    &&& p.installed.install_date == parse_i64(trim(f[3]))
    &&& p.installed.install_size == parse_u64(trim(f[4]))
    &&& p.description@ == f[5]
    &&& opt_view(p.url) == field_opt(f[6])
    &&& string_views(p.licenses@) == field_list(f[7])
    &&& string_views(p.groups@) == field_list(f[8])
}

/// One `expac` details record (`%D %O %J %P %H %T %N %W %p %b %a %e`).
pub open spec fn is_details(d: Details, f: Seq<Seq<char>>) -> bool {
    &&& string_views(d.depends@) == field_list(f[0])
    &&& string_views(d.opt_depends@) == field_list(f[1])
    &&& string_views(d.make_depends@) == field_list(f[2])
    &&& string_views(d.provides@) == field_list(f[3])
    &&& string_views(d.conflicts@) == field_list(f[4])
    &&& string_views(d.replaces@) == field_list(f[5])
    &&& string_views(d.required_by@) == field_list(f[6])
    &&& string_views(d.optional_for@) == field_list(f[7])
    &&& opt_view(d.packager) == field_opt(f[8])
    &&& d.build_date == parse_i64(trim(f[9]))
    &&& opt_view(d.architecture) == field_opt(f[10])
    &&& opt_view(d.package_base) == field_opt(f[11])
    &&& d.keywords@.len() == 0
}

/// The lines of `checkupdates` that have the four words of "name old -> new".
pub open spec fn update_rows(ls: Seq<Seq<char>>) -> Seq<Seq<Seq<char>>>
    decreases ls.len(),
{
    if ls.len() == 0 {
        Seq::<Seq<Seq<char>>>::empty()
    } else if words(ls.last()).len() >= 4 {
        update_rows(ls.drop_last()).push(words(ls.last()))
    } else {
        update_rows(ls.drop_last())
    }
}

// ------------------------------------------------------------------- exec

/// A list field as a list.
pub fn list(field: &Vec<char>) -> (r: Vec<String>)
    ensures
        string_views(r@) == field_list(field@),
{
    let parts = split_chars(field, '\u{1f}');
    let ghost pv = char_views(parts@);
    let none = to_chars("None");
    let mut out: Vec<String> = Vec::new();
    let mut i: usize = 0;
    assert(pv.take(0) =~= Seq::<Seq<char>>::empty());
    while i < parts.len()
        invariant
            i <= parts@.len(),
            pv == char_views(parts@),
            none@ == "None"@,
            string_views(out@) == kept_items(pv.take(i as int)),
        decreases parts.len() - i,
    {
        assert(pv.take(i + 1).drop_last() =~= pv.take(i as int));
        assert(pv.take(i + 1).last() == parts@[i as int]@);
        let t = trim_chars(&parts[i]);
        if t.len() > 0 && !crate::text::chars_eq(&t, &none) {
            let ghost before = out@;
            let s = string_of_all(&t);
            out.push(s);
            assert(string_views(out@) =~= string_views(before).push(t@));
        }
        i = i + 1;
    }
    assert(pv.take(i as int) =~= pv);
    out
}

/// An unsigned number field.
pub fn num_u64(field: &Vec<char>) -> (r: Option<u64>)
    ensures
        r == parse_u64(trim(field@)),
{
    parse_u64_chars(&trim_chars(field))
}

/// A signed number field.
pub fn num_i64(field: &Vec<char>) -> (r: Option<i64>)
    ensures
        r == parse_i64(trim(field@)),
{
    parse_i64_chars(&trim_chars(field))
}

/// An optional text field.
pub fn opt(field: &Vec<char>) -> (r: Option<String>)
    ensures
        opt_view(r) == field_opt(field@),
{
    let t = trim_chars(field);
    let none = to_chars("None");
    if t.len() == 0 || crate::text::chars_eq(&t, &none) {
        None
    } else {
        Some(string_of_all(&t))
    }
}

/// The fields of every line of an `expac` dump that has at least `n` of them.
fn rows(out: &str, n: usize) -> (r: Vec<Vec<Vec<char>>>)
    ensures
        r@.len() == records(out@, n as nat).len(),
        forall|k: int|
            0 <= k < r@.len() ==> #[trigger] char_views(r@[k]@) == records(out@, n as nat)[k],
{
    let v = to_chars(out);
    let ls = lines_of(&v);
    let ghost lv = char_views(ls@);
    let ghost fv = line_fields(lv);
    let mut res: Vec<Vec<Vec<char>>> = Vec::new();
    let mut i: usize = 0;
    assert(fv.take(0) =~= Seq::<Seq<Seq<char>>>::empty());
    while i < ls.len()
        invariant
            i <= ls@.len(),
            lv == char_views(ls@),
            fv == line_fields(lv),
            res@.len() == rows_with(fv.take(i as int), n as nat).len(),
            forall|k: int|
                0 <= k < res@.len() ==> #[trigger] char_views(res@[k]@) == rows_with(
                    fv.take(i as int),
                    n as nat,
                )[k],
        decreases ls.len() - i,
    {
        assert(fv.take(i + 1).drop_last() =~= fv.take(i as int));
        let f = split_chars(&ls[i], '\t');
        assert(char_views(f@) == fv[i as int]);
        if f.len() >= n {
            res.push(f);
        }
        i = i + 1;
    }
    assert(fv.take(i as int) =~= fv);
    res
}

/// Every record of `expac -S -l '\x1f' '%n\t%v\t%r\t%d\t%G\t%m\t%k\t%u\t%L'`
/// as a package; lines without all nine fields are skipped.
pub fn parse_sync(out: &str) -> (r: Vec<Package>)
    ensures
        r@.len() == records(out@, 9).len(),
        forall|k: int| 0 <= k < r@.len() ==> is_sync_package(#[trigger] r@[k], records(out@, 9)[k]),
{
    let rs = rows(out, 9);
    let mut pkgs: Vec<Package> = Vec::new();
    let mut i: usize = 0;
    while i < rs.len()
        invariant
            i <= rs@.len(),
            rs@.len() == records(out@, 9).len(),
            forall|k: int|
                0 <= k < rs@.len() ==> #[trigger] char_views(rs@[k]@) == records(out@, 9)[k],
            pkgs@.len() == i,
            forall|k: int| 0 <= k < i ==> is_sync_package(#[trigger] pkgs@[k], records(out@, 9)[k]),
        decreases rs.len() - i,
    {
        let f = &rs[i];
        assert(char_views(rs@[i as int]@) == records(out@, 9)[i as int]);
        assert(f@.len() >= 9) by {
            lemma_records_len(out@, 9, i as int);
        }
        let p = Package {
            name: string_of_all(&f[0]),
            version: string_of_all(&f[1]),
            source: Source::Repo(string_of_all(&f[2])),
            description: string_of_all(&f[3]),
            groups: list(&f[4]),
            install_size: num_u64(&f[5]),
            download_size: num_u64(&f[6]),
            url: opt(&f[7]),
            licenses: list(&f[8]),
            votes: None,
            popularity: None,
            out_of_date: None,
            maintainer: None,
            last_modified: None,
            installed: None,
        };
        pkgs.push(p);
        i = i + 1;
    }
    pkgs
}

proof fn lemma_rows_with_len(rows: Seq<Seq<Seq<char>>>, n: nat, k: int)
    requires
        0 <= k < rows_with(rows, n).len(),
    ensures
        rows_with(rows, n)[k].len() >= n,
    decreases rows.len(),
{
    if rows.len() > 0 {
        if rows.last().len() >= n {
            if k < rows_with(rows.drop_last(), n).len() {
                lemma_rows_with_len(rows.drop_last(), n, k);
            }
        } else {
            lemma_rows_with_len(rows.drop_last(), n, k);
        }
    }
}

proof fn lemma_records_len(out: Seq<char>, n: nat, k: int)
    requires
        0 <= k < records(out, n).len(),
    ensures
        records(out, n)[k].len() >= n,
{
    lemma_rows_with_len(line_fields(lines(out)), n, k);
}

/// Every record of
/// `expac -Q -l '\x1f' --timefmt %s '%n\t%v\t%w\t%l\t%m\t%d\t%u\t%L\t%G'`;
/// lines without all nine fields are skipped.
pub fn parse_local(out: &str) -> (r: Vec<LocalPackage>)
    ensures
        r@.len() == records(out@, 9).len(),
        forall|k: int|
            0 <= k < r@.len() ==> is_local_package(#[trigger] r@[k], records(out@, 9)[k]),
{
    let rs = rows(out, 9);
    let explicitly = to_chars("Explicitly");
    let mut pkgs: Vec<LocalPackage> = Vec::new();
    let mut i: usize = 0;
    while i < rs.len()
        invariant
            i <= rs@.len(),
            explicitly@ == "Explicitly"@,
            rs@.len() == records(out@, 9).len(),
            forall|k: int|
                0 <= k < rs@.len() ==> #[trigger] char_views(rs@[k]@) == records(out@, 9)[k],
            pkgs@.len() == i,
            forall|k: int| 0 <= k < i ==> is_local_package(#[trigger] pkgs@[k], records(out@, 9)[k]),
        decreases rs.len() - i,
    {
        let f = &rs[i];
        assert(char_views(rs@[i as int]@) == records(out@, 9)[i as int]);
        assert(f@.len() >= 9) by {
            lemma_records_len(out@, 9, i as int);
        }
        let reason = trim_chars(&f[2]);
        let explicit = chars_occur_at(&reason, &explicitly, 0);
        assert(explicit == has_prefix(trim(f@[2]@), "Explicitly"@));
        let p = LocalPackage {
            name: string_of_all(&f[0]),
            description: string_of_all(&f[5]),
            url: opt(&f[6]),
            licenses: list(&f[7]),
            groups: list(&f[8]),
            installed: Installed {
                version: string_of_all(&f[1]),
                explicit,
                install_date: num_i64(&f[3]),
                install_size: num_u64(&f[4]),
            },
        };
        pkgs.push(p);
        i = i + 1;
    }
    pkgs
}

/// The details in the first line of
/// `expac -l '\x1f' --timefmt %s '%D\t%O\t%J\t%P\t%H\t%T\t%N\t%W\t%p\t%b\t%a\t%e'`;
/// nothing when that line lacks some of the twelve fields.
pub fn parse_details(out: &str) -> (r: Option<Details>)
    ensures
        match r {
            Some(d) => lines(out@).len() > 0 && split_char(lines(out@)[0], '\t').len() >= 12
                && is_details(d, split_char(lines(out@)[0], '\t')),
            None => lines(out@).len() == 0 || split_char(lines(out@)[0], '\t').len() < 12,
        },
{
    let v = to_chars(out);
    let ls = lines_of(&v);
    if ls.len() == 0 {
        return None;
    }
    assert(char_views(ls@)[0] == ls@[0]@);
    let f = split_chars(&ls[0], '\t');
    if f.len() < 12 {
        return None;
    }
    Some(
        Details {
            depends: list(&f[0]),
            opt_depends: list(&f[1]),
            make_depends: list(&f[2]),
            provides: list(&f[3]),
            conflicts: list(&f[4]),
            replaces: list(&f[5]),
            required_by: list(&f[6]),
            optional_for: list(&f[7]),
            packager: opt(&f[8]),
            build_date: num_i64(&f[9]),
            architecture: opt(&f[10]),
            package_base: opt(&f[11]),
            keywords: Vec::new(),
        },
    )
}

/// One name per line (`pacman -Qlq`, `-Flq`, `-Qdtq`, `-Qmq`, `-Fq`).
pub fn parse_names(out: &str) -> (r: Vec<String>)
    ensures
        string_views(r@) == lines(out@),
{
    let v = to_chars(out);
    let ls = lines_of(&v);
    let mut res: Vec<String> = Vec::new();
    let mut i: usize = 0;
    while i < ls.len()
        invariant
            i <= ls@.len(),
            char_views(ls@) == lines(out@),
            string_views(res@) == char_views(ls@).take(i as int),
        decreases ls.len() - i,
    {
        let ghost before = res@;
        res.push(string_of_all(&ls[i]));
        assert(string_views(res@) =~= string_views(before).push(ls@[i as int]@));
        assert(char_views(ls@).take(i + 1) =~= char_views(ls@).take(i as int).push(ls@[i as int]@));
        i = i + 1;
    }
    assert(char_views(ls@).take(i as int) =~= char_views(ls@));
    res
}

/// The updates `checkupdates` printed: one for every line
/// ("name 1.0-1 -> 1.1-1") that has its four words; the source is a
/// repository whose name checkupdates does not say.
pub open spec fn is_update_list(r: Seq<Update>, out: Seq<char>) -> bool {
    &&& r.len() == update_rows(lines(out)).len()
    &&& forall|k: int|
        0 <= k < r.len() ==> {
            let w = update_rows(lines(out))[k];
            &&& (#[trigger] r[k]).name@ == w[0]
            &&& r[k].current@ == w[1]
            &&& r[k].new@ == w[3]
            &&& r[k].source is Repo && r[k].source->0@.len() == 0
        }
}

/// One update for every line of `checkupdates` ("name 1.0-1 -> 1.1-1") that has
/// its four words; the source is a repository whose name checkupdates does not say.
pub fn parse_updates(out: &str) -> (r: Vec<Update>)
    ensures
        is_update_list(r@, out@),
{
    let v = to_chars(out);
    let ls = lines_of(&v);
    let ghost lv = char_views(ls@);
    let mut ups: Vec<Update> = Vec::new();
    let mut i: usize = 0;
    assert(lv.take(0) =~= Seq::<Seq<char>>::empty());
    while i < ls.len()
        invariant
            i <= ls@.len(),
            lv == char_views(ls@),
            lv == lines(out@),
            ups@.len() == update_rows(lv.take(i as int)).len(),
            forall|k: int|
                0 <= k < ups@.len() ==> {
                    let w = update_rows(lv.take(i as int))[k];
                    &&& (#[trigger] ups@[k]).name@ == w[0]
                    &&& ups@[k].current@ == w[1]
                    &&& ups@[k].new@ == w[3]
                    &&& ups@[k].source is Repo && ups@[k].source->0@.len() == 0
                },
        decreases ls.len() - i,
    {
        assert(lv.take(i + 1).drop_last() =~= lv.take(i as int));
        assert(lv.take(i + 1).last() == ls@[i as int]@);
        let w = words_of(&ls[i]);
        if w.len() >= 4 {
            assert(char_views(w@)[0] == w@[0]@);
            assert(char_views(w@)[1] == w@[1]@);
            assert(char_views(w@)[3] == w@[3]@);
            let u = Update {
                name: string_of_all(&w[0]),
                current: string_of_all(&w[1]),
                new: string_of_all(&w[3]),
                source: Source::Repo(String::new()),
            };
            ups.push(u);
        }
        i = i + 1;
    }
    assert(lv.take(i as int) =~= lv);
    ups
}


/// How two versions compare: by what `vercmp a b` printed (`-1`, `1`, or
/// anything else for equal), or, when it could not run, as plain strings.
pub open spec fn version_order(a: Seq<char>, b: Seq<char>, answer: Option<Seq<char>>) -> Ordering {
    match answer {
        Some(o) => if trim(o) == "-1"@ {
            Ordering::Less
        } else if trim(o) == "1"@ {
            Ordering::Greater
        } else {
            Ordering::Equal
        },
        None => if seq_less(a, b) {
            Ordering::Less
        } else if a == b {
            Ordering::Equal
        } else {
            Ordering::Greater
        },
    }
}

/// Compare two pacman versions with pacman's own rules: `answer` is what
/// `vercmp a b` printed, or nothing when it could not be run.
pub fn vercmp(a: &str, b: &str, answer: Option<&str>) -> (r: Ordering)
    ensures
        r == version_order(a@, b@, match answer {
            Some(o) => Some(o@),
            None => None,
        }),
{
    match answer {
        Some(out) => {
            let t = trim_chars(&to_chars(out));
            if chars_eq(&t, &to_chars("-1")) {
                Ordering::Less
            } else if chars_eq(&t, &to_chars("1")) {
                Ordering::Greater
            } else {
                Ordering::Equal
            }
        },
        None => {
            if str_less(a, b) {
                Ordering::Less
            } else if str_eq(a, b) {
                Ordering::Equal
            } else {
                Ordering::Greater
            }
        },
    }
}

// ----------------------------------------------------- running the tools

/// The `expac` format of `sync_all`: one package per line.
pub const SYNC_FORMAT: &'static str = "%n\t%v\t%r\t%d\t%G\t%m\t%k\t%u\t%L";

/// The `expac` format of `local_all`.
pub const LOCAL_FORMAT: &'static str = "%n\t%v\t%w\t%l\t%m\t%d\t%u\t%L\t%G";

/// The `expac` format of `details`.
pub const DETAILS_FORMAT: &'static str = "%D\t%O\t%J\t%P\t%H\t%T\t%N\t%W\t%p\t%b\t%a\t%e";

/// The separator `expac -l` is given for list fields.
pub const LIST_SEP: &'static str = "\u{1f}";

/// What a tool printed and how it ended.
#[derive(Debug)]
pub struct ToolOutput {
    pub success: bool,
    pub stdout: String,
    pub stderr: String,
}

/// What running a tool gives: its output, or why there is none. A failing
/// tool that still printed something (pacman -Ql on a missing package and
/// friends) gives what it printed.
pub open spec fn tool_result(program: Seq<char>, out: Option<(bool, Seq<char>, Seq<char>)>) -> Result<Seq<char>, Seq<char>> {
    match out {
        None => Err("could not run "@ + program + " (is it installed?)"@),
        Some((success, stdout, stderr)) => if !success && stdout.len() == 0 {
            Err(program + " failed: "@ + trim(stderr))
        } else {
            Ok(stdout)
        },
    }
}

pub open spec fn output_view(o: Option<ToolOutput>) -> Option<(bool, Seq<char>, Seq<char>)> {
    match o {
        Some(t) => Some((t.success, t.stdout@, t.stderr@)),
        None => None,
    }
}

pub open spec fn result_view(r: Result<String, String>) -> Result<Seq<char>, Seq<char>> {
    match r {
        Ok(s) => Ok(s@),
        Err(e) => Err(e@),
    }
}

/// What running `program` gave, given its output (none when it could not be
/// started).
pub fn run_result(program: &str, out: Option<ToolOutput>) -> (r: Result<String, String>)
    ensures
        result_view(r) == tool_result(program@, output_view(out)),
{
    match out {
        None => {
            let mut m = copy_str("could not run ");
            push_str(&mut m, program);
            push_str(&mut m, " (is it installed?)");
            Err(m)
        },
        Some(o) => {
            if !o.success && o.stdout.as_str().is_empty() {
                let mut m = copy_str(program);
                push_str(&mut m, " failed: ");
                let t = string_of_all(&trim_chars(&to_chars(o.stderr.as_str())));
                push_str(&mut m, t.as_str());
                Err(m)
            } else {
                Ok(o.stdout)
            }
        },
    }
}

/// Every package in every enabled sync repository, from what
/// `expac -S -l '\x1f' SYNC_FORMAT` gave.
pub fn sync_all(out: Result<String, String>) -> (r: Result<Vec<Package>, String>)
    ensures
        match out {
            Ok(text) => r matches Ok(v) && v@.len() == records(text@, 9).len() && forall|k: int|
                0 <= k < v@.len() ==> is_sync_package(#[trigger] v@[k], records(text@, 9)[k]),
            Err(e) => r matches Err(m) && m@ == e@,
        },
{
    match out {
        Ok(text) => Ok(parse_sync(text.as_str())),
        Err(e) => Err(e),
    }
}

/// Every installed package, from what
/// `expac -Q -l '\x1f' --timefmt %s LOCAL_FORMAT` gave.
pub fn local_all(out: Result<String, String>) -> (r: Result<Vec<LocalPackage>, String>)
    ensures
        match out {
            Ok(text) => r matches Ok(v) && v@.len() == records(text@, 9).len() && forall|k: int|
                0 <= k < v@.len() ==> is_local_package(#[trigger] v@[k], records(text@, 9)[k]),
            Err(e) => r matches Err(m) && m@ == e@,
        },
{
    match out {
        Ok(text) => Ok(parse_local(text.as_str())),
        Err(e) => Err(e),
    }
}

/// The arguments of `expac` that give the details of `name`: the local
/// database when it is installed, the sync databases otherwise.
pub fn details_args(name: &str, installed: bool) -> (r: Vec<String>)
    ensures
        string_views(r@) == seq![
            if installed { "-Q"@ } else { "-S"@ },
            "-l"@,
            LIST_SEP@,
            "--timefmt"@,
            "%s"@,
            DETAILS_FORMAT@,
            name@,
        ],
{
    let mut r: Vec<String> = Vec::new();
    r.push(copy_str(if installed { "-Q" } else { "-S" }));
    r.push(copy_str("-l"));
    r.push(copy_str(LIST_SEP));
    r.push(copy_str("--timefmt"));
    r.push(copy_str("%s"));
    r.push(copy_str(DETAILS_FORMAT));
    r.push(copy_str(name));
    assert(string_views(r@) =~= seq![
        if installed { "-Q"@ } else { "-S"@ },
        "-l"@,
        LIST_SEP@,
        "--timefmt"@,
        "%s"@,
        DETAILS_FORMAT@,
        name@,
    ]);
    r
}

/// Dependencies, provides, packager… for one package, from what `expac`
/// gave; an error when its first line lacks some of the twelve fields.
pub fn details(name: &str, out: Result<String, String>) -> (r: Result<Details, String>)
    ensures
        match out {
            Ok(text) => {
                let full = lines(text@).len() > 0 && split_char(lines(text@)[0], '\t').len() >= 12;
                &&& full ==> (r matches Ok(d) && is_details(d, split_char(lines(text@)[0], '\t')))
                &&& !full ==> (r matches Err(m) && m@ == "no details for "@ + name@)
            },
            Err(e) => r matches Err(m) && m@ == e@,
        },
{
    match out {
        Ok(text) => match parse_details(text.as_str()) {
            Some(d) => Ok(d),
            None => {
                let mut m = copy_str("no details for ");
                push_str(&mut m, name);
                Err(m)
            },
        },
        Err(e) => Err(e),
    }
}

/// One name per line, or the error.
fn names_or_error(out: Result<String, String>) -> (r: Result<Vec<String>, String>)
    ensures
        match out {
            Ok(text) => r matches Ok(v) && string_views(v@) == lines(text@),
            Err(e) => r matches Err(m) && m@ == e@,
        },
{
    match out {
        Ok(text) => Ok(parse_names(text.as_str())),
        Err(e) => Err(e),
    }
}

/// Files of a package, from `pacman -Qlq` when installed or `pacman -Flq`.
pub fn files(out: Result<String, String>) -> (r: Result<Vec<String>, String>)
    ensures
        match out {
            Ok(text) => r matches Ok(v) && string_views(v@) == lines(text@),
            Err(e) => r matches Err(m) && m@ == e@,
        },
{
    names_or_error(out)
}

/// Which package owns a file or command, from `pacman -Fq`.
pub fn owner_of(out: Result<String, String>) -> (r: Result<Vec<String>, String>)
    ensures
        match out {
            Ok(text) => r matches Ok(v) && string_views(v@) == lines(text@),
            Err(e) => r matches Err(m) && m@ == e@,
        },
{
    names_or_error(out)
}

/// Packages installed as dependencies that nothing needs any more, from
/// `pacman -Qdtq`; pacman fails when there are none.
pub fn orphans(out: Result<String, String>) -> (r: Result<Vec<String>, String>)
    ensures
        match out {
            Ok(text) => r matches Ok(v) && string_views(v@) == lines(text@),
            Err(_) => r matches Ok(v) && v@.len() == 0,
        },
{
    match out {
        Ok(text) => Ok(parse_names(text.as_str())),
        Err(_) => Ok(Vec::new()),
    }
}

/// Installed packages that are in no sync repository (AUR builds, local
/// packages), from `pacman -Qmq`; a failure means none.
pub fn foreign(out: Result<String, String>) -> (r: Result<Vec<String>, String>)
    ensures
        match out {
            Ok(text) => r matches Ok(v) && string_views(v@) == lines(text@),
            Err(_) => r matches Ok(v) && v@.len() == 0,
        },
{
    orphans(out)
}

/// `s` ends with `p`.
pub open spec fn has_suffix(s: Seq<char>, p: Seq<char>) -> bool {
    p.len() <= s.len() && s.skip(s.len() - p.len()) == p
}

/// The error of a `checkupdates` that found nothing to do: it exits with a
/// failure and says nothing.
pub open spec fn nothing_to_update(e: Seq<char>) -> bool {
    has_substring(e, "failed:"@) && has_suffix(trim_end(e), "failed:"@)
}

fn ends_with_trimmed(s: &str, p: &str) -> (r: bool)
    ensures
        r == has_suffix(trim_end(s@), p@),
{
    let v = to_chars(s);
    let pv = to_chars(p);
    let mut e: usize = v.len();
    assert(v@.take(e as int) =~= v@);
    while e > 0 && crate::text::is_ws_char(v[e - 1])
        invariant
            v@ == s@,
            e <= v@.len(),
            trim_end(v@.take(e as int)) == trim_end(s@),
        decreases e,
    {
        assert(v@.take(e as int).drop_last() =~= v@.take(e - 1));
        e = e - 1;
    }
    let ghost t = v@.take(e as int);
    assert(trim_end(t) == t);
    if pv.len() > e {
        return false;
    }
    let from = e - pv.len();
    let mut i: usize = 0;
    while i < pv.len()
        invariant
            from + pv@.len() == e,
            e <= v@.len(),
            t == v@.take(e as int),
            trim_end(s@) == t,
            pv@ == p@,
            i <= pv@.len(),
            forall|j: int| 0 <= j < i ==> v@[from + j] == pv@[j],
        decreases pv@.len() - i,
    {
        if v[from + i] != pv[i] {
            assert(t.skip(from as int)[i as int] != pv@[i as int]);
            return false;
        }
        i = i + 1;
    }
    assert(t.skip(from as int) =~= pv@);
    true
}

/// Repository updates, from what `checkupdates` (pacman-contrib) gave; it
/// never touches the real databases, and fails silently when there is
/// nothing to do.
pub fn updates(out: Result<String, String>) -> (r: Result<Vec<Update>, String>)
    ensures
        match out {
            Ok(text) => r matches Ok(v) && is_update_list(v@, text@),
            Err(e) => if nothing_to_update(e@) {
                r matches Ok(v) && v@.len() == 0
            } else {
                r matches Err(m) && m@ == e@
            },
        },
{
    match out {
        Ok(text) => Ok(parse_updates(text.as_str())),
        Err(e) => {
            if contains_str(e.as_str(), "failed:") && ends_with_trimmed(e.as_str(), "failed:") {
                Ok(Vec::new())
            } else {
                Err(e)
            }
        },
    }
}

} // verus!
