//! Interface language. Strings are written in English in the code; `t` looks
//! them up in the table of the active language and falls back to English.
//!
//! A table is text: one `English<TAB>Translation` per line, `#` starts a
//! comment line.

use vstd::prelude::*;

use crate::text::{
    copy_str, split_char, has_prefix, lines, lines_of, replace_first_str, replacen_once, starts_with_str,
    str_eq, string_of, to_chars,
};

verus! {

broadcast use vstd::string::group_string_axioms;

/// The Spanish table.
pub const ES_TABLE: &'static str = "# Español\nStore\tTienda\nSearch\tBuscar\nInstalled\tInstalados\nUpdates\tActualizaciones\nQueue\tCola\nRecipes\tRecetas\nFeatured\tDestacados\nGraphics\tGráficos\nOffice\tOficina\nDevelopment\tDesarrollo\nGames\tJuegos\nEducation\tEducación\nSystem\tSistema\n {} results \t {} resultados \n";

/// The German table.
pub const DE_TABLE: &'static str = "# Deutsch\n";

/// The French table.
pub const FR_TABLE: &'static str = "# Français\n";

/// The Italian table.
pub const IT_TABLE: &'static str = "# Italiano\n";

/// The Portuguese table.
pub const PT_TABLE: &'static str = "# Português\n";

/// The Japanese table.
pub const JA_TABLE: &'static str = "# 日本語\nStore\tストア\n";

/// The Russian table.
pub const RU_TABLE: &'static str = "# Русский\nSettings\tНастройки\n";

/// The codes of the languages Sanae ships with, English first.
pub open spec fn lang_codes() -> Seq<Seq<char>> {
    seq!["en"@, "es"@, "de"@, "fr"@, "it"@, "pt"@, "ja"@, "ru"@]
}

/// Their names, each in its own language.
pub open spec fn lang_names() -> Seq<Seq<char>> {
    seq![
        "English"@,
        "Español"@,
        "Deutsch"@,
        "Français"@,
        "Italiano"@,
        "Português"@,
        "日本語"@,
        "Русский"@,
    ]
}

/// Languages Sanae ships with: code and native name.
pub fn langs() -> (r: Vec<(&'static str, &'static str)>)
    ensures
        r@.len() == lang_codes().len(),
        forall|i: int|
            0 <= i < r@.len() ==> (#[trigger] r@[i]).0@ == lang_codes()[i] && r@[i].1@
                == lang_names()[i],
{
    let mut v: Vec<(&'static str, &'static str)> = Vec::new();
    v.push(("en", "English"));
    v.push(("es", "Español"));
    v.push(("de", "Deutsch"));
    v.push(("fr", "Français"));
    v.push(("it", "Italiano"));
    v.push(("pt", "Português"));
    v.push(("ja", "日本語"));
    v.push(("ru", "Русский"));
    v
}

/// The table of a language; English and unknown codes have none.
pub open spec fn table_text(code: Seq<char>) -> Seq<char> {
    if code == "es"@ {
        ES_TABLE@
    } else if code == "de"@ {
        DE_TABLE@
    } else if code == "fr"@ {
        FR_TABLE@
    } else if code == "it"@ {
        IT_TABLE@
    } else if code == "pt"@ {
        PT_TABLE@
    } else if code == "ja"@ {
        JA_TABLE@
    } else if code == "ru"@ {
        RU_TABLE@
    } else {
        Seq::<char>::empty()
    }
}

/// The table text of a language.
pub fn table_source(code: &str) -> (r: &'static str)
    ensures
        r@ == table_text(code@),
{
    proof {
        reveal_strlit("");
    }
    if str_eq(code, "es") {
        ES_TABLE
    } else if str_eq(code, "de") {
        DE_TABLE
    } else if str_eq(code, "fr") {
        FR_TABLE
    } else if str_eq(code, "it") {
        IT_TABLE
    } else if str_eq(code, "pt") {
        PT_TABLE
    } else if str_eq(code, "ja") {
        JA_TABLE
    } else if str_eq(code, "ru") {
        RU_TABLE
    } else {
        ""
    }
}

// ------------------------------------------------------------ the tables

/// Where `c` first occurs in `s`, or the length of `s`.
pub open spec fn find_char(s: Seq<char>, c: char) -> int
    decreases s.len(),
{
    if s.len() == 0 {
        0
    } else if s[0] == c {
        0
    } else {
        1 + find_char(s.drop_first(), c)
    }
}

proof fn lemma_find_char(s: Seq<char>, c: char, k: int)
    requires
        0 <= k <= s.len(),
        forall|j: int| 0 <= j < k ==> s[j] != c,
        k < s.len() ==> s[k] == c,
    ensures
        find_char(s, c) == k,
    decreases k,
{
    if k > 0 {
        let t = s.drop_first();
        assert forall|j: int| 0 <= j < k - 1 implies t[j] != c by {
            assert(t[j] == s[j + 1]);
        }
        lemma_find_char(t, c, k - 1);
    }
}

/// `s` without the `\r`s at its end (`trim_end_matches('\r')`).
pub open spec fn trim_end_cr(s: Seq<char>) -> Seq<char>
    decreases s.len(),
{
    if s.len() > 0 && s.last() == '\r' {
        trim_end_cr(s.drop_last())
    } else {
        s
    }
}

/// The entry a table line holds: not a comment, split at its first tab, with
/// a translation that is not empty.
pub open spec fn entry_of(l: Seq<char>) -> Option<(Seq<char>, Seq<char>)> {
    let t = find_char(l, '\t');
    if has_prefix(l, "#"@) || t >= l.len() {
        None
    } else {
        let v = trim_end_cr(l.skip(t + 1));
        if v.len() == 0 {
            None
        } else {
            Some((l.take(t), v))
        }
    }
}

/// The entries of some table lines, in order.
pub open spec fn entries(ls: Seq<Seq<char>>) -> Seq<(Seq<char>, Seq<char>)>
    decreases ls.len(),
{
    if ls.len() == 0 {
        Seq::<(Seq<char>, Seq<char>)>::empty()
    } else {
        match entry_of(ls.last()) {
            Some(e) => entries(ls.drop_last()).push(e),
            None => entries(ls.drop_last()),
        }
    }
}

/// The entries of a table.
pub open spec fn parse_table(text: Seq<char>) -> Seq<(Seq<char>, Seq<char>)> {
    entries(lines(text))
}

pub open spec fn table_view(t: Seq<(String, String)>) -> Seq<(Seq<char>, Seq<char>)> {
    Seq::new(t.len(), |i: int| (t[i].0@, t[i].1@))
}

/// The translation of `k`: the last entry for it wins, as in a map built
/// from the table.
pub open spec fn lookup(t: Seq<(Seq<char>, Seq<char>)>, k: Seq<char>) -> Option<Seq<char>>
    decreases t.len(),
{
    if t.len() == 0 {
        None
    } else if t.last().0 == k {
        Some(t.last().1)
    } else {
        lookup(t.drop_last(), k)
    }
}

/// `s` in the table's language, or `s` itself when the table lacks it.
pub open spec fn translate(t: Seq<(Seq<char>, Seq<char>)>, s: Seq<char>) -> Seq<char> {
    match lookup(t, s) {
        Some(v) => v,
        None => s,
    }
}

/// The entry of one table line.
fn parse_line(l: &Vec<char>) -> (r: Option<(String, String)>)
    ensures
        match r {
            Some(e) => entry_of(l@) == Some((e.0@, e.1@)),
            None => entry_of(l@) is None,
        },
{
    proof {
        reveal_strlit("#");
    }
    let n = l.len();
    if n > 0 && l[0] == '#' {
        assert(l@.subrange(0, 1) =~= "#"@);
        return None;
    }
    assert(!has_prefix(l@, "#"@)) by {
        if n > 0 {
            assert(l@.subrange(0, 1)[0] == l@[0]);
        }
    }
    let mut t: usize = 0;
    while t < n && l[t] != '\t'
        invariant
            n == l@.len(),
            t <= n,
            forall|j: int| 0 <= j < t ==> l@[j] != '\t',
        decreases n - t,
    {
        t = t + 1;
    }
    proof {
        lemma_find_char(l@, '\t', t as int);
    }
    if t == n {
        return None;
    }
    let mut e: usize = n;
    assert(l@.subrange(t + 1, n as int) =~= l@.skip(t + 1));
    while e > t + 1 && l[e - 1] == '\r'
        invariant
            n == l@.len(),
            t + 1 <= e <= n,
            trim_end_cr(l@.subrange(t + 1, e as int)) == trim_end_cr(l@.skip(t + 1)),
        decreases e,
    {
        assert(l@.subrange(t + 1, e as int).drop_last() =~= l@.subrange(t + 1, e - 1));
        e = e - 1;
    }
    if e == t + 1 {
        assert(l@.subrange(t + 1, e as int) =~= Seq::<char>::empty());
        return None;
    }
    let key = string_of(l, 0, t);
    let value = string_of(l, t + 1, e);
    assert(l@.subrange(0, t as int) =~= l@.take(t as int));
    Some((key, value))
}

/// The entries of a table text.
pub fn parse(text: &str) -> (r: Vec<(String, String)>)
    ensures
        table_view(r@) == parse_table(text@),
{
    let v = to_chars(text);
    let ls = lines_of(&v);
    let ghost lv = crate::text::char_views(ls@);
    let mut out: Vec<(String, String)> = Vec::new();
    let mut i: usize = 0;
    while i < ls.len()
        invariant
            lv == crate::text::char_views(ls@),
            lv == lines(text@),
            i <= ls@.len(),
            table_view(out@) == entries(lv.take(i as int)),
        decreases ls@.len() - i,
    {
        assert(lv.take(i + 1).drop_last() =~= lv.take(i as int));
        assert(lv[i as int] == ls@[i as int]@);
        let ghost before = out@;
        match parse_line(&ls[i]) {
            Some(e) => {
                out.push(e);
                assert(table_view(out@) =~= table_view(before).push((e.0@, e.1@)));
            },
            None => {},
        }
        i = i + 1;
    }
    assert(lv.take(i as int) =~= lv);
    out
}

/// The translation of `s` in a parsed table.
pub fn lookup_in(table: &Vec<(String, String)>, s: &str) -> (r: String)
    ensures
        r@ == translate(table_view(table@), s@),
{
    let ghost tv = table_view(table@);
    let mut i: usize = table.len();
    assert(tv.take(i as int) =~= tv);
    while i > 0
        invariant
            tv == table_view(table@),
            i <= table@.len(),
            lookup(tv.take(i as int), s@) == lookup(tv, s@),
        decreases i,
    {
        assert(tv.take(i as int).drop_last() =~= tv.take(i - 1));
        if str_eq(table[i - 1].0.as_str(), s) {
            return copy_str(table[i - 1].1.as_str());
        }
        i = i - 1;
    }
    copy_str(s)
}

// ------------------------------------------------------------ the language

/// The first of `codes[i..]` that `env` starts with, or English.
pub open spec fn first_prefixed(env: Seq<char>, codes: Seq<Seq<char>>, i: int) -> Seq<char>
    decreases codes.len() - i,
{
    if i < 0 || i >= codes.len() {
        "en"@
    } else if has_prefix(env, codes[i]) {
        codes[i]
    } else {
        first_prefixed(env, codes, i + 1)
    }
}

/// The language an environment value (`LC_ALL`, `LC_MESSAGES` or `LANG`) asks
/// for: the first shipped language other than English it starts with.
pub open spec fn guess_lang(env: Seq<char>) -> Seq<char> {
    first_prefixed(env, lang_codes(), 1)
}

/// The language that `set` activates for `code` ("auto" or "" ask the
/// environment); an unknown code gives English.
pub open spec fn chosen_lang(code: Seq<char>, env: Seq<char>) -> Seq<char> {
    let c = if code == "auto"@ || code.len() == 0 {
        guess_lang(env)
    } else {
        code
    };
    if lang_codes().contains(c) {
        c
    } else {
        "en"@
    }
}

/// The language an environment value asks for.
pub fn guess(env: &str) -> (r: &'static str)
    ensures
        r@ == guess_lang(env@),
{
    let all = langs();
    let mut i: usize = 1;
    while i < all.len()
        invariant
            all@.len() == lang_codes().len(),
            forall|k: int| 0 <= k < all@.len() ==> (#[trigger] all@[k]).0@ == lang_codes()[k],
            1 <= i <= all@.len(),
            first_prefixed(env@, lang_codes(), i as int) == guess_lang(env@),
        decreases all@.len() - i,
    {
        let code = all[i].0;
        if starts_with_str(env, code) {
            return code;
        }
        i = i + 1;
    }
    "en"
}

/// Whether `code` is one of the shipped languages.
fn known(code: &str) -> (r: bool)
    ensures
        r == lang_codes().contains(code@),
{
    let all = langs();
    let mut i: usize = 0;
    while i < all.len()
        invariant
            all@.len() == lang_codes().len(),
            forall|k: int| 0 <= k < all@.len() ==> (#[trigger] all@[k]).0@ == lang_codes()[k],
            i <= all@.len(),
            forall|k: int| 0 <= k < i ==> lang_codes()[k] != code@,
        decreases all@.len() - i,
    {
        if str_eq(all[i].0, code) {
            return true;
        }
        i = i + 1;
    }
    false
}

/// `{}` slots filled in order: each argument takes the first `{}` left.
pub open spec fn fill(s: Seq<char>, args: Seq<Seq<char>>) -> Seq<char>
    decreases args.len(),
{
    if args.len() == 0 {
        s
    } else {
        replace_first_str(fill(s, args.drop_last()), "{}"@, args.last())
    }
}

/// The active language and its table.
#[derive(Debug)]
pub struct I18n {
    pub lang: String,
    pub table: Vec<(String, String)>,
}

impl I18n {
    /// The table is the one of the active language.
    pub open spec fn wf(&self) -> bool {
        table_view(self.table@) == parse_table(table_text(self.lang@))
    }

    /// English, which needs no table.
    pub fn new() -> (r: Self)
        ensures
            r.wf(),
            r.lang@ == "en"@,
            table_view(r.table@) == Seq::<(Seq<char>, Seq<char>)>::empty(),
    {
        let r = I18n { lang: copy_str("en"), table: Vec::new() };
        assert(table_view(r.table@) =~= Seq::<(Seq<char>, Seq<char>)>::empty());
        proof {
            lemma_english_table_empty();
        }
        r
    }

    /// Activates a language: a code from `langs`, or "auto" (from the
    /// environment value `env`). Unknown codes give English.
    pub fn set(&mut self, code: &str, env: &str)
        ensures
            final(self).wf(),
            final(self).lang@ == chosen_lang(code@, env@),
            table_view(final(self).table@) == parse_table(table_text(chosen_lang(code@, env@))),
    {
        proof {
            reveal_strlit("auto");
            reveal_strlit("en");
        }
        let wanted: &str = if str_eq(code, "auto") || code.is_empty() {
            guess(env)
        } else {
            code
        };
        let lang: &str = if known(wanted) {
            wanted
        } else {
            "en"
        };
        self.lang = copy_str(lang);
        self.table = parse(table_source(lang));
    }

    /// The active language's code.
    pub fn current(&self) -> (r: &str)
        ensures
            r@ == self.lang@,
    {
        self.lang.as_str()
    }

    /// Translates a string. Unknown strings come back unchanged.
    pub fn t(&self, s: &str) -> (r: String)
        ensures
            r@ == translate(table_view(self.table@), s@),
    {
        lookup_in(&self.table, s)
    }

    /// Translates a template with `{}` slots and fills them in order.
    pub fn tf(&self, template: &str, args: &[String]) -> (r: String)
        ensures
            r@ == fill(
                translate(table_view(self.table@), template@),
                Seq::new(args@.len(), |i: int| args@[i]@),
            ),
    {
        let ghost av = Seq::new(args@.len(), |i: int| args@[i]@);
        let mut out = self.t(template);
        let ghost start = out@;
        let mut i: usize = 0;
        assert(av.take(0) =~= Seq::<Seq<char>>::empty());
        while i < args.len()
            invariant
                av == Seq::new(args@.len(), |i: int| args@[i]@),
                i <= args@.len(),
                out@ == fill(start, av.take(i as int)),
            decreases args@.len() - i,
        {
            assert(av.take(i + 1).drop_last() =~= av.take(i as int));
            out = replacen_once(out.as_str(), "{}", args[i].as_str());
            i = i + 1;
        }
        assert(av.take(i as int) =~= av);
        out
    }
}

// ------------------------------------------------------------------ laws

/// A string that no entry of the table translates comes back unchanged.
pub proof fn law_unknown_string_unchanged(t: Seq<(Seq<char>, Seq<char>)>, s: Seq<char>)
    requires
        forall|i: int| 0 <= i < t.len() ==> (#[trigger] t[i]).0 != s,
    ensures
        translate(t, s) == s,
    decreases t.len(),
{
    if t.len() > 0 {
        let u = t.drop_last();
        assert forall|i: int| 0 <= i < u.len() implies (#[trigger] u[i]).0 != s by {
            assert(u[i] == t[i]);
        }
        assert(t.last() == t[t.len() - 1]);
        law_unknown_string_unchanged(u, s);
    }
}

/// English has no table: its text is empty, and so is what it parses to.
proof fn lemma_english_table_empty()
    ensures
        table_text("en"@) == Seq::<char>::empty(),
        parse_table(table_text("en"@)) == Seq::<(Seq<char>, Seq<char>)>::empty(),
{
    reveal_strlit("en");
    reveal_strlit("es");
    reveal_strlit("de");
    reveal_strlit("fr");
    reveal_strlit("it");
    reveal_strlit("pt");
    reveal_strlit("ja");
    reveal_strlit("ru");
    let e = Seq::<char>::empty();
    assert("en"@ != "es"@) by {
        assert("en"@[1] != "es"@[1]);
    }
    assert("en"@ != "de"@) by {
        assert("en"@[0] != "de"@[0]);
    }
    assert("en"@ != "fr"@) by {
        assert("en"@[0] != "fr"@[0]);
    }
    assert("en"@ != "it"@) by {
        assert("en"@[0] != "it"@[0]);
    }
    assert("en"@ != "pt"@) by {
        assert("en"@[0] != "pt"@[0]);
    }
    assert("en"@ != "ja"@) by {
        assert("en"@[0] != "ja"@[0]);
    }
    assert("en"@ != "ru"@) by {
        assert("en"@[0] != "ru"@[0]);
    }
    assert(table_text("en"@) == e);
    assert(split_char(e, '\n') == seq![e]);
    assert(split_char(e, '\n').drop_last() =~= Seq::<Seq<char>>::empty());
    assert(lines(e) =~= Seq::<Seq<char>>::empty());
}

/// With English active, every string comes back as written.
pub proof fn law_english_is_identity(i: I18n, s: Seq<char>)
    requires
        i.wf(),
        i.lang@ == "en"@,
    ensures
        translate(table_view(i.table@), s) == s,
{
    lemma_english_table_empty();
}

/// An unknown language code activates English, whose table is empty: every
/// string then comes back as written.
pub proof fn law_unknown_code_falls_back_to_english(code: Seq<char>, env: Seq<char>, s: Seq<char>)
    requires
        !lang_codes().contains(code),
        code != "auto"@,
        code.len() > 0,
    ensures
        chosen_lang(code, env) == "en"@,
        parse_table(table_text(chosen_lang(code, env))) == Seq::<(Seq<char>, Seq<char>)>::empty(),
        translate(parse_table(table_text(chosen_lang(code, env))), s) == s,
{
    lemma_english_table_empty();
}

} // verus!
