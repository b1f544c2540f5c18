//! What the screens of the interface show, as text and a style per piece:
//! the details of a package, the Arch news and the updates, the recipes, the
//! settings help. The program draws these lines with its terminal library.

use vstd::prelude::*;

use crate::i18n::{fill, table_view, translate, I18n};
use crate::index::{find_name, Index};
use crate::model::{Details, Package};
use crate::show::{date, human, human_text, utc_day_of};
use crate::sources::appstream::AppInfo;
use crate::text::{decimal, decimal_i64, lines, lines_of, string_of, string_of_all, to_chars, u64_to_string};
use crate::ui::DetailTab;
use crate::model::Update;
use crate::recipes::Recipe;
use crate::sources::news::{attention_words, NewsItem};
use crate::text::{copy_str, join, join_strings, lowercase, push_str, string_views, truncate, truncated};
use crate::theme::Theme;

verus! {

broadcast use vstd::string::group_string_axioms;

/// How a piece of text is drawn; the theme gives each style its colour.
#[derive(Clone, Copy, Debug, PartialEq, Eq, Structural)]
pub enum LineStyle {
    Title,
    Dim,
    Accent,
    Warn,
    Good,
    Bold,
    Plain,
}

/// A piece of a line as values.
pub type SpanView = (Seq<char>, LineStyle);

/// The pieces of a line as values.
pub open spec fn span_views(l: Seq<(String, LineStyle)>) -> Seq<SpanView> {
    Seq::new(l.len(), |j: int| (l[j].0@, l[j].1))
}

/// Lines as values.
pub open spec fn line_views(v: Seq<Vec<(String, LineStyle)>>) -> Seq<Seq<SpanView>> {
    Seq::new(v.len(), |i: int| span_views(v[i]@))
}

/// The text `s` of the active table.
pub open spec fn tr(i18n: I18n, s: Seq<char>) -> Seq<char> {
    translate(table_view(i18n.table@), s)
}

/// A line of one piece.
pub open spec fn single(s: Seq<char>, st: LineStyle) -> Seq<SpanView> {
    seq![(s, st)]
}

/// The pieces `pieces` when `b`, none otherwise.
pub open spec fn when<A>(b: bool, pieces: Seq<A>) -> Seq<A> {
    if b {
        pieces
    } else {
        Seq::empty()
    }
}

fn line1(s: String, st: LineStyle) -> (r: Vec<(String, LineStyle)>)
    ensures
        span_views(r@) == single(s@, st),
{
    let r = vec![(s, st)];
    assert(span_views(r@) =~= single(r@[0].0@, st));
    r
}

fn line2(a: String, sa: LineStyle, b: String, sb: LineStyle) -> (r: Vec<(String, LineStyle)>)
    ensures
        span_views(r@) == seq![(a@, sa), (b@, sb)],
{
    let ghost (av, bv) = (a@, b@);
    let r = vec![(a, sa), (b, sb)];
    assert(span_views(r@) =~= seq![(av, sa), (bv, sb)]);
    r
}

fn push_line(lines: &mut Vec<Vec<(String, LineStyle)>>, l: Vec<(String, LineStyle)>)
    ensures
        line_views(final(lines)@) == line_views(old(lines)@).push(span_views(l@)),
{
    let ghost before = line_views(lines@);
    let ghost lv = span_views(l@);
    lines.push(l);
    assert(line_views(lines@) =~= before.push(lv));
}

// ------------------------------------------------------------------ news

/// The first four news items, as the Updates tab shows them above the
/// updates: date, whether it needs a human, title.
pub open spec fn news_panel_view(news: Seq<NewsItem>) -> Seq<(Seq<char>, bool, Seq<char>)> {
    let n = if news.len() < 4 { news.len() } else { 4 };
    Seq::new(n as nat, |i: int| (news[i].date@, attention_words(lowercase(news[i].title@)), news[i].title@))
}

pub open spec fn news_rows_view(r: Seq<(String, bool, String)>) -> Seq<(Seq<char>, bool, Seq<char>)> {
    Seq::new(r.len(), |i: int| (r[i].0@, r[i].1, r[i].2@))
}

/// The news panel of the Updates tab: the first four items, each with its
/// date, whether it asks for attention before updating, and its title.
pub fn news_panel(news: &Vec<NewsItem>) -> (r: Vec<(String, bool, String)>)
    ensures
        news_rows_view(r@) == news_panel_view(news@),
{
    let n: usize = if news.len() < 4 { news.len() } else { 4 };
    let mut r: Vec<(String, bool, String)> = Vec::new();
    let mut i: usize = 0;
    while i < n
        invariant
            n <= news@.len(),
            n == (if news@.len() < 4 { news@.len() } else { 4 }),
            i <= n,
            news_rows_view(r@) == news_panel_view(news@).take(i as int),
        decreases n - i,
    {
        let item = &news[i];
        let ghost before = news_rows_view(r@);
        r.push((item.date.clone(), item.needs_attention(), item.title.clone()));
        assert(news_rows_view(r@) =~= before.push(news_panel_view(news@)[i as int]));
        assert(news_panel_view(news@).take(i + 1) =~= news_panel_view(news@).take(i as int).push(news_panel_view(news@)[i as int]));
        i = i + 1;
    }
    assert(news_panel_view(news@).take(n as int) =~= news_panel_view(news@));
    r
}

// --------------------------------------------------------------- updates

/// One row of the updates list: where it comes from ("aur" or "repo"), the
/// name cut to 31 characters, the installed version and the new one.
pub open spec fn update_row(u: Update) -> (Seq<char>, Seq<char>, Seq<char>, Seq<char>) {
    (if u.source is Aur { "aur"@ } else { "repo"@ }, truncated(u.name@, 31), u.current@, u.new@)
}

pub open spec fn update_rows_view(r: Seq<(String, String, String, String)>) -> Seq<(Seq<char>, Seq<char>, Seq<char>, Seq<char>)> {
    Seq::new(r.len(), |i: int| (r[i].0@, r[i].1@, r[i].2@, r[i].3@))
}

/// The rows of the updates list, one per update, in order.
pub fn update_rows(u: &Vec<Update>) -> (r: Vec<(String, String, String, String)>)
    ensures
        update_rows_view(r@) == Seq::new(u@.len(), |i: int| update_row(u@[i])),
{
    let ghost want = Seq::new(u@.len(), |i: int| update_row(u@[i]));
    let mut r: Vec<(String, String, String, String)> = Vec::new();
    let mut i: usize = 0;
    while i < u.len()
        invariant
            want == Seq::new(u@.len(), |i: int| update_row(u@[i])),
            i <= u@.len(),
            update_rows_view(r@) == want.take(i as int),
        decreases u@.len() - i,
    {
        let up = &u[i];
        let from = if up.source.is_aur() { copy_str("aur") } else { copy_str("repo") };
        let ghost before = update_rows_view(r@);
        r.push((from, truncate(up.name.as_str(), 31), up.current.clone(), up.new.clone()));
        assert(update_rows_view(r@) =~= before.push(want[i as int]));
        assert(want.take(i + 1) =~= want.take(i as int).push(want[i as int]));
        i = i + 1;
    }
    assert(want.take(i as int) =~= want);
    r
}

// --------------------------------------------------------------- recipes

/// Whether the recipe `id` is applied, as last reported; nothing while its
/// check has not answered.
pub open spec fn status_of(st: Seq<(String, bool)>, id: Seq<char>) -> Option<bool>
    decreases st.len(),
{
    if st.len() == 0 {
        None
    } else if st.last().0@ == id {
        Some(st.last().1)
    } else {
        status_of(st.drop_last(), id)
    }
}

/// What the check of recipe `id` last reported.
pub fn recipe_status(st: &Vec<(String, bool)>, id: &str) -> (r: Option<bool>)
    ensures
        r == status_of(st@, id@),
{
    let mut r: Option<bool> = None;
    let mut i: usize = 0;
    while i < st.len()
        invariant
            i <= st@.len(),
            r == status_of(st@.take(i as int), id@),
        decreases st@.len() - i,
    {
        assert(st@.take(i + 1).drop_last() =~= st@.take(i as int));
        if crate::text::str_eq(st[i].0.as_str(), id) {
            r = Some(st[i].1);
        }
        i = i + 1;
    }
    assert(st@.take(i as int) =~= st@);
    r
}

/// `s` filled with spaces to `n` characters, as `{:<n}` writes it.
pub open spec fn padded(s: Seq<char>, n: nat) -> Seq<char> {
    if s.len() < n {
        s + Seq::new((n - s.len()) as nat, |i: int| ' ')
    } else {
        s
    }
}

pub fn pad(s: &str, n: usize) -> (r: String)
    ensures
        r@ == padded(s@, n as nat),
{
    let mut r = copy_str(s);
    let len = crate::text::to_chars(s).len();
    let mut k = len;
    while k < n
        invariant
            len == s@.len(),
            len <= k <= n || (len >= n && k == len),
            r@ == s@ + Seq::new((k - len) as nat, |i: int| ' '),
        decreases n - k,
    {
        crate::text::push_char(&mut r, ' ');
        assert(r@ =~= s@ + Seq::new((k + 1 - len) as nat, |i: int| ' '));
        k = k + 1;
    }
    if len >= n {
        assert(r@ =~= s@);
    }
    r
}

/// The mark of a recipe's state and its style: applied, not applied, or
/// not known yet.
pub open spec fn state_mark(status: Option<bool>, nerd: bool) -> SpanView {
    match status {
        Some(true) => ((if nerd { " "@ } else { "✔"@ }) + " "@, LineStyle::Good),
        Some(false) => ("○ "@, LineStyle::Dim),
        None => ("… "@, LineStyle::Dim),
    }
}

fn mark_span(status: Option<bool>, theme: &Theme) -> (r: (String, LineStyle))
    ensures
        (r.0@, r.1) == state_mark(status, theme.nerd),
{
    match status {
        Some(true) => {
            let mut m = copy_str(theme.installed());
            push_str(&mut m, " ");
            (m, LineStyle::Good)
        },
        Some(false) => (copy_str("○ "), LineStyle::Dim),
        None => (copy_str("… "), LineStyle::Dim),
    }
}

/// A row of the Recipes list: its state, its category in 12 columns, its name.
pub open spec fn recipe_row(r: Recipe, status: Option<bool>, nerd: bool) -> Seq<SpanView> {
    seq![state_mark(status, nerd), (padded(truncated(r.category@, 12), 12), LineStyle::Dim), (r.name@, LineStyle::Plain)]
}

/// A row of the package sources under the settings: its state and its name.
pub open spec fn source_row(r: Recipe, status: Option<bool>, nerd: bool) -> Seq<SpanView> {
    seq![state_mark(status, nerd), (r.name@, LineStyle::Plain)]
}

/// The rows of the Recipes list, one per recipe.
pub fn recipe_rows(recipes: &Vec<Recipe>, status: &Vec<(String, bool)>, theme: &Theme) -> (r: Vec<Vec<(String, LineStyle)>>)
    ensures
        line_views(r@) == Seq::new(recipes@.len(), |i: int| recipe_row(recipes@[i], status_of(status@, recipes@[i].id@), theme.nerd)),
{
    let ghost want = Seq::new(recipes@.len(), |i: int| recipe_row(recipes@[i], status_of(status@, recipes@[i].id@), theme.nerd));
    let mut r: Vec<Vec<(String, LineStyle)>> = Vec::new();
    let mut i: usize = 0;
    while i < recipes.len()
        invariant
            want == Seq::new(recipes@.len(), |i: int| recipe_row(recipes@[i], status_of(status@, recipes@[i].id@), theme.nerd)),
            i <= recipes@.len(),
            line_views(r@) == want.take(i as int),
        decreases recipes@.len() - i,
    {
        let rc = &recipes[i];
        let (m, ms) = mark_span(recipe_status(status, rc.id.as_str()), theme);
        let cat = pad(truncate(rc.category.as_str(), 12).as_str(), 12);
        let ghost (mv, cv, nv) = (m@, cat@, rc.name@);
        let row = vec![(m, ms), (cat, LineStyle::Dim), (rc.name.clone(), LineStyle::Plain)];
        assert(span_views(row@) =~= seq![(mv, ms), (cv, LineStyle::Dim), (nv, LineStyle::Plain)]);
        push_line(&mut r, row);
        assert(want.take(i + 1) =~= want.take(i as int).push(want[i as int]));
        i = i + 1;
    }
    assert(want.take(i as int) =~= want);
    r
}

/// The rows of the package sources shown under the settings, one per source.
pub fn source_rows(recipes: &Vec<Recipe>, status: &Vec<(String, bool)>, theme: &Theme) -> (r: Vec<Vec<(String, LineStyle)>>)
    ensures
        line_views(r@) == Seq::new(recipes@.len(), |i: int| source_row(recipes@[i], status_of(status@, recipes@[i].id@), theme.nerd)),
{
    let ghost want = Seq::new(recipes@.len(), |i: int| source_row(recipes@[i], status_of(status@, recipes@[i].id@), theme.nerd));
    let mut r: Vec<Vec<(String, LineStyle)>> = Vec::new();
    let mut i: usize = 0;
    while i < recipes.len()
        invariant
            want == Seq::new(recipes@.len(), |i: int| source_row(recipes@[i], status_of(status@, recipes@[i].id@), theme.nerd)),
            i <= recipes@.len(),
            line_views(r@) == want.take(i as int),
        decreases recipes@.len() - i,
    {
        let rc = &recipes[i];
        let (m, ms) = mark_span(recipe_status(status, rc.id.as_str()), theme);
        let ghost (mv, nv) = (m@, rc.name@);
        let row = vec![(m, ms), (rc.name.clone(), LineStyle::Plain)];
        assert(span_views(row@) =~= seq![(mv, ms), (nv, LineStyle::Plain)]);
        push_line(&mut r, row);
        assert(want.take(i + 1) =~= want.take(i as int).push(want[i as int]));
        i = i + 1;
    }
    assert(want.take(i as int) =~= want);
    r
}

/// A labelled line: the label in its style, then the value.
pub open spec fn field(i18n: I18n, label: Seq<char>, st: LineStyle, value: Seq<char>) -> Seq<SpanView> {
    seq![(tr(i18n, label), st), (value, LineStyle::Plain)]
}

/// The paths of a recipe's files.
pub open spec fn file_paths(r: Recipe) -> Seq<Seq<char>> {
    Seq::new(r.files@.len(), |i: int| r.files@[i].path@)
}

/// The commands a recipe runs.
pub open spec fn command_runs(r: Recipe) -> Seq<Seq<char>> {
    Seq::new(r.commands@.len(), |i: int| r.commands@[i].run@)
}

fn paths_of(r: &Recipe) -> (v: Vec<String>)
    ensures
        string_views(v@) == file_paths(*r),
{
    let mut v: Vec<String> = Vec::new();
    let mut i: usize = 0;
    while i < r.files.len()
        invariant
            i <= r.files@.len(),
            string_views(v@) == file_paths(*r).take(i as int),
        decreases r.files@.len() - i,
    {
        let ghost before = string_views(v@);
        v.push(r.files[i].path.clone());
        assert(string_views(v@) =~= before.push(r.files@[i as int].path@));
        assert(file_paths(*r).take(i + 1) =~= file_paths(*r).take(i as int).push(r.files@[i as int].path@));
        i = i + 1;
    }
    assert(file_paths(*r).take(i as int) =~= file_paths(*r));
    v
}

fn runs_of(r: &Recipe) -> (v: Vec<String>)
    ensures
        string_views(v@) == command_runs(*r),
{
    let mut v: Vec<String> = Vec::new();
    let mut i: usize = 0;
    while i < r.commands.len()
        invariant
            i <= r.commands@.len(),
            string_views(v@) == command_runs(*r).take(i as int),
        decreases r.commands@.len() - i,
    {
        let ghost before = string_views(v@);
        v.push(r.commands[i].run.clone());
        assert(string_views(v@) =~= before.push(r.commands@[i as int].run@));
        assert(command_runs(*r).take(i + 1) =~= command_runs(*r).take(i as int).push(r.commands@[i as int].run@));
        i = i + 1;
    }
    assert(command_runs(*r).take(i as int) =~= command_runs(*r));
    v
}

/// What the Recipes tab shows of a recipe: name, summary, then what it
/// installs, enables, adds the user to, writes, sets and runs, its notes, and
/// whether it is applied.
pub open spec fn recipe_panel_view(r: Recipe, status: Option<bool>, i18n: I18n) -> Seq<Seq<SpanView>> {
    seq![single(r.name@, LineStyle::Title), single(r.summary@, LineStyle::Plain), single(""@, LineStyle::Plain)]
        + when(r.packages@.len() > 0, seq![field(i18n, "packages   "@, LineStyle::Accent, join(string_views(r.packages@), " "@))])
        + when(r.aur@.len() > 0, seq![field(i18n, "aur        "@, LineStyle::Warn, join(string_views(r.aur@), " "@))])
        + when(r.services@.len() > 0, seq![field(i18n, "services   "@, LineStyle::Accent, join(string_views(r.services@), " "@))])
        + when(r.groups@.len() > 0, seq![field(i18n, "groups     "@, LineStyle::Accent, join(string_views(r.groups@), " "@))])
        + when(r.files@.len() > 0, seq![field(i18n, "files      "@, LineStyle::Accent, join(file_paths(r), " "@))])
        + when(r.env@.len() > 0, seq![field(i18n, "environment"@, LineStyle::Accent, " "@ + join(string_views(r.env@), " "@))])
        + when(r.commands@.len() > 0, seq![field(i18n, "commands   "@, LineStyle::Accent, join(command_runs(r), " ; "@))])
        + notes_lines(r.notes, LineStyle::Dim)
        + applied_lines(status, i18n)
}

/// A recipe's notes, after an empty line.
pub open spec fn notes_lines(notes: Option<String>, st: LineStyle) -> Seq<Seq<SpanView>> {
    match notes {
        Some(n) => seq![single(""@, LineStyle::Plain), single(n@, st)],
        None => Seq::empty(),
    }
}

/// Whether a recipe is applied, in words.
pub open spec fn applied_lines(status: Option<bool>, i18n: I18n) -> Seq<Seq<SpanView>> {
    match status {
        Some(true) => seq![single(tr(i18n, "\nAlready applied. Enter applies it again (safe)."@), LineStyle::Good)],
        Some(false) => seq![single(tr(i18n, "\nNot applied yet."@), LineStyle::Dim)],
        None => Seq::empty(),
    }
}

fn push_notes(lines: &mut Vec<Vec<(String, LineStyle)>>, notes: &Option<String>, st: LineStyle)
    ensures
        line_views(final(lines)@) == line_views(old(lines)@) + notes_lines(*notes, st),
{
    proof {
        reveal_strlit("");
    }
    let ghost before = line_views(lines@);
    match notes {
        Some(n) => {
            push_text(lines, copy_str(""), LineStyle::Plain);
            push_text(lines, n.clone(), st);
            assert(line_views(lines@) =~= before + notes_lines(*notes, st));
        },
        None => {
            assert(line_views(lines@) =~= before + notes_lines(*notes, st));
        },
    }
}

fn push_list(lines: &mut Vec<Vec<(String, LineStyle)>>, i18n: &I18n, label: &str, st: LineStyle, parts: &Vec<String>, sep: &str)
    ensures
        line_views(final(lines)@) == line_views(old(lines)@) + when(
            parts@.len() > 0,
            seq![field(*i18n, label@, st, join(string_views(parts@), sep@))],
        ),
{
    let ghost before = line_views(lines@);
    if parts.len() > 0 {
        push_field(lines, i18n, label, st, join_strings(parts, sep));
        assert(line_views(lines@) =~= before + seq![field(*i18n, label@, st, join(string_views(parts@), sep@))]);
    } else {
        assert(line_views(lines@) =~= before + Seq::<Seq<SpanView>>::empty());
    }
}

fn push_applied(lines: &mut Vec<Vec<(String, LineStyle)>>, status: Option<bool>, i18n: &I18n)
    ensures
        line_views(final(lines)@) == line_views(old(lines)@) + applied_lines(status, *i18n),
{
    let ghost before = line_views(lines@);
    match status {
        Some(true) => push_text(lines, i18n.t("\nAlready applied. Enter applies it again (safe)."), LineStyle::Good),
        Some(false) => push_text(lines, i18n.t("\nNot applied yet."), LineStyle::Dim),
        None => {},
    }
    assert(line_views(lines@) =~= before + applied_lines(status, *i18n));
}

fn push_field(lines: &mut Vec<Vec<(String, LineStyle)>>, i18n: &I18n, label: &str, st: LineStyle, value: String)
    ensures
        line_views(final(lines)@) == line_views(old(lines)@).push(field(*i18n, label@, st, value@)),
{
    let key = i18n.t(label);
    push_line(lines, line2(key, st, value, LineStyle::Plain));
}

fn push_text(lines: &mut Vec<Vec<(String, LineStyle)>>, s: String, st: LineStyle)
    ensures
        line_views(final(lines)@) == line_views(old(lines)@).push(single(s@, st)),
{
    push_line(lines, line1(s, st));
}

/// The detail panel of the Recipes tab for one recipe.
#[verifier::spinoff_prover]
#[verifier::rlimit(60)]
pub fn recipe_panel(r: &Recipe, status: Option<bool>, i18n: &I18n) -> (lines: Vec<Vec<(String, LineStyle)>>)
    ensures
        line_views(lines@) == recipe_panel_view(*r, status, *i18n),
{
    proof {
        reveal_strlit("");
    }
    let mut lines: Vec<Vec<(String, LineStyle)>> = Vec::new();
    push_text(&mut lines, r.name.clone(), LineStyle::Title);
    push_text(&mut lines, r.summary.clone(), LineStyle::Plain);
    push_text(&mut lines, copy_str(""), LineStyle::Plain);
    push_list(&mut lines, i18n, "packages   ", LineStyle::Accent, &r.packages, " ");
    push_list(&mut lines, i18n, "aur        ", LineStyle::Warn, &r.aur, " ");
    push_list(&mut lines, i18n, "services   ", LineStyle::Accent, &r.services, " ");
    push_list(&mut lines, i18n, "groups     ", LineStyle::Accent, &r.groups, " ");
    let paths = paths_of(r);
    push_list(&mut lines, i18n, "files      ", LineStyle::Accent, &paths, " ");
    let ghost g5 = line_views(lines@);
    if r.env.len() > 0 {
        let mut v = copy_str(" ");
        let j = join_strings(&r.env, " ");
        push_str(&mut v, j.as_str());
        push_field(&mut lines, i18n, "environment", LineStyle::Accent, v);
    }
    assert(line_views(lines@) =~= g5 + when(r.env@.len() > 0, seq![field(*i18n, "environment"@, LineStyle::Accent, " "@ + join(string_views(r.env@), " "@))]));
    let runs = runs_of(r);
    push_list(&mut lines, i18n, "commands   ", LineStyle::Accent, &runs, " ; ");
    push_notes(&mut lines, &r.notes, LineStyle::Dim);
    push_applied(&mut lines, status, i18n);
    lines
}

// -------------------------------------------------------------- settings

/// What a settings row does, in English; nothing for a row that has no help.
pub open spec fn setting_help_text(id: Seq<char>) -> Seq<char> {
    if id == "check_updates"@ {
        "Once every few hours Sanae asks GitHub whether a newer release exists and tells you in the status line. Nothing is downloaded until you ask."@
    } else if id == "self_update"@ {
        "Downloads the latest release binary and replaces this one (needs your password). Sanae is a single file, so this is the whole update."@
    } else if id == "aur_helper"@ {
        "The program that builds AUR packages for you: paru or yay. Auto picks whichever is installed."@
    } else if id == "privilege"@ {
        "How Sanae becomes root to run pacman: sudo or doas. Auto picks whichever is installed."@
    } else if id == "nerd_font"@ {
        "Use Nerd Font glyphs for the marks in lists. Only if your terminal font has them."@
    } else if id == "language"@ {
        "The language of this interface. Auto follows the system language."@
    } else {
        ""@
    }
}

/// The help shown beside a settings row.
pub fn settings_help(id: &str) -> (r: &'static str)
    ensures
        r@ == setting_help_text(id@),
{
    if crate::text::str_eq(id, "check_updates") {
        "Once every few hours Sanae asks GitHub whether a newer release exists and tells you in the status line. Nothing is downloaded until you ask."
    } else if crate::text::str_eq(id, "self_update") {
        "Downloads the latest release binary and replaces this one (needs your password). Sanae is a single file, so this is the whole update."
    } else if crate::text::str_eq(id, "aur_helper") {
        "The program that builds AUR packages for you: paru or yay. Auto picks whichever is installed."
    } else if crate::text::str_eq(id, "privilege") {
        "How Sanae becomes root to run pacman: sudo or doas. Auto picks whichever is installed."
    } else if crate::text::str_eq(id, "nerd_font") {
        "Use Nerd Font glyphs for the marks in lists. Only if your terminal font has them."
    } else if crate::text::str_eq(id, "language") {
        "The language of this interface. Auto follows the system language."
    } else {
        ""
    }
}

/// The About panel beside a settings row: its label, then what it does.
pub open spec fn setting_panel_view(label: Seq<char>, id: Seq<char>, i18n: I18n) -> Seq<Seq<SpanView>> {
    seq![single(label, LineStyle::Title), single(""@, LineStyle::Plain), single(tr(i18n, setting_help_text(id)), LineStyle::Plain)]
        + about_view(i18n)
}

/// What the About panel always ends with: the warning about sources Arch
/// does not review, and who makes Sanae.
pub open spec fn about_view(i18n: I18n) -> Seq<Seq<SpanView>> {
    seq![
        single(""@, LineStyle::Plain),
        single(tr(i18n, "⚠ Third-party repositories, the AUR, Flatpak and Snap are not reviewed by Arch Linux."@), LineStyle::Warn),
        single(tr(i18n, "  A package from them can break an update or ship anything. Enable only what you understand, and read PKGBUILDs before building."@), LineStyle::Warn),
        single(""@, LineStyle::Plain),
        single(tr(i18n, "Sanae and Reimu are made by Chidaruma. Do you like them? Visit github.com/Chidaruma696 and leave a star."@), LineStyle::Dim),
    ]
}

fn push_about(lines: &mut Vec<Vec<(String, LineStyle)>>, i18n: &I18n)
    ensures
        line_views(final(lines)@) == line_views(old(lines)@) + about_view(*i18n),
{
    let ghost before = line_views(lines@);
    push_text(lines, copy_str(""), LineStyle::Plain);
    push_text(lines, i18n.t("⚠ Third-party repositories, the AUR, Flatpak and Snap are not reviewed by Arch Linux."), LineStyle::Warn);
    push_text(lines, i18n.t("  A package from them can break an update or ship anything. Enable only what you understand, and read PKGBUILDs before building."), LineStyle::Warn);
    push_text(lines, copy_str(""), LineStyle::Plain);
    push_text(lines, i18n.t("Sanae and Reimu are made by Chidaruma. Do you like them? Visit github.com/Chidaruma696 and leave a star."), LineStyle::Dim);
    assert(line_views(lines@) =~= before + about_view(*i18n));
}

/// The About panel for the settings row `id` with label `label`.
pub fn setting_panel(label: &str, id: &str, i18n: &I18n) -> (lines: Vec<Vec<(String, LineStyle)>>)
    ensures
        line_views(lines@) == setting_panel_view(label@, id@, *i18n),
{
    let mut lines: Vec<Vec<(String, LineStyle)>> = Vec::new();
    push_text(&mut lines, copy_str(label), LineStyle::Title);
    push_text(&mut lines, copy_str(""), LineStyle::Plain);
    push_text(&mut lines, i18n.t(settings_help(id)), LineStyle::Plain);
    let ghost g = line_views(lines@);
    assert(g =~= seq![single(label@, LineStyle::Title), single(""@, LineStyle::Plain), single(tr(*i18n, setting_help_text(id@)), LineStyle::Plain)]);
    push_about(&mut lines, i18n);
    lines
}

/// Whether a package source is enabled, in words.
pub open spec fn enabled_lines(status: Option<bool>, i18n: I18n) -> Seq<Seq<SpanView>> {
    match status {
        Some(true) => seq![single(tr(i18n, "\nAlready enabled."@), LineStyle::Good)],
        Some(false) => seq![single(tr(i18n, "\nNot enabled. Enter enables it."@), LineStyle::Dim)],
        None => Seq::empty(),
    }
}

/// The About panel for a package source: what it installs and runs, its
/// notes as a warning, whether it is enabled, then the warning about sources.
pub open spec fn source_panel_view(r: Recipe, status: Option<bool>, i18n: I18n) -> Seq<Seq<SpanView>> {
    seq![single(r.name@, LineStyle::Title), single(r.summary@, LineStyle::Plain), single(""@, LineStyle::Plain)]
        + when(r.packages@.len() > 0, seq![field(i18n, "packages   "@, LineStyle::Accent, join(string_views(r.packages@), " "@))])
        + when(r.aur@.len() > 0, seq![field(i18n, "aur        "@, LineStyle::Warn, join(string_views(r.aur@), " "@))])
        + when(r.commands@.len() > 0, seq![field(i18n, "commands   "@, LineStyle::Accent, join(command_runs(r), " ; "@))])
        + notes_lines(r.notes, LineStyle::Warn)
        + enabled_lines(status, i18n)
        + about_view(i18n)
}

/// The About panel for a package source.
pub fn source_panel(r: &Recipe, status: Option<bool>, i18n: &I18n) -> (lines: Vec<Vec<(String, LineStyle)>>)
    ensures
        line_views(lines@) == source_panel_view(*r, status, *i18n),
{
    let mut lines: Vec<Vec<(String, LineStyle)>> = Vec::new();
    push_text(&mut lines, r.name.clone(), LineStyle::Title);
    push_text(&mut lines, r.summary.clone(), LineStyle::Plain);
    push_text(&mut lines, copy_str(""), LineStyle::Plain);
    push_list(&mut lines, i18n, "packages   ", LineStyle::Accent, &r.packages, " ");
    push_list(&mut lines, i18n, "aur        ", LineStyle::Warn, &r.aur, " ");
    let runs = runs_of(r);
    push_list(&mut lines, i18n, "commands   ", LineStyle::Accent, &runs, " ; ");
    push_notes(&mut lines, &r.notes, LineStyle::Warn);
    let ghost g = line_views(lines@);
    match status {
        Some(true) => push_text(&mut lines, i18n.t("\nAlready enabled."), LineStyle::Good),
        Some(false) => push_text(&mut lines, i18n.t("\nNot enabled. Enter enables it."), LineStyle::Dim),
        None => {},
    }
    assert(line_views(lines@) =~= g + enabled_lines(status, *i18n));
    push_about(&mut lines, i18n);
    lines
}

// --------------------------------------------------------------- details

pub open spec fn opt_str(o: Option<String>) -> Option<Seq<char>> {
    match o {
        Some(s) => Some(s@),
        None => None,
    }
}

/// A timestamp as the details show it: its day, or the number itself.
pub open spec fn date_text(ts: i64) -> Seq<char> {
    match utc_day_of(ts) {
        Some(s) => s,
        None => decimal_i64(ts),
    }
}

/// `m` divided by `d`, rounded to the nearest whole number and a tie to
/// the even one, as `{:.N}` rounds a value that sits exactly halfway.
pub open spec fn rounded(m: nat, d: nat) -> nat
    recommends
        d > 0,
{
    let q = m / d;
    let r = m % d;
    if r * 2 > d || (r * 2 == d && q % 2 == 1) {
        q + 1
    } else {
        q
    }
}

/// `m` millionths with `places` decimals (1 or 2).
pub open spec fn fixed(m: nat, places: nat) -> Seq<char> {
    if places == 1 {
        let q = rounded(m, 100000);
        decimal(q / 10) + "."@ + decimal(q % 10)
    } else {
        let q = rounded(m, 10000);
        decimal(q / 100) + "."@ + if q % 100 < 10 { "0"@ + decimal(q % 100) } else { decimal(q % 100) }
    }
}

fn round_div(m: u64, d: u64) -> (q: u64)
    requires
        d == 100000 || d == 10000,
    ensures
        q == rounded(m as nat, d as nat),
{
    let q = m / d;
    let r = m % d;
    if r * 2 > d || (r * 2 == d && q % 2 == 1) {
        q + 1
    } else {
        q
    }
}

pub fn fixed_text(m: u64, places: u64) -> (r: String)
    ensures
        r@ == fixed(m as nat, places as nat),
{
    if places == 1 {
        let q = round_div(m, 100000);
        let mut r = u64_to_string(q / 10);
        push_str(&mut r, ".");
        let d = u64_to_string(q % 10);
        push_str(&mut r, d.as_str());
        r
    } else {
        let q = round_div(m, 10000);
        let mut r = u64_to_string(q / 100);
        push_str(&mut r, ".");
        if q % 100 < 10 {
            push_str(&mut r, "0");
        }
        let d = u64_to_string(q % 100);
        push_str(&mut r, d.as_str());
        proof {
            if q % 100 < 10 {
                assert(r@ =~= decimal((q / 100) as nat) + "."@ + ("0"@ + decimal((q % 100) as nat)));
            }
        }
        r
    }
}

/// A fact of the Info tab: its label in 12 columns, then its value.
pub open spec fn fact_line(i18n: I18n, key: Seq<char>, value: Seq<char>) -> Seq<SpanView> {
    seq![(padded(tr(i18n, key), 12), LineStyle::Accent), (value, LineStyle::Plain)]
}

/// A fact when there is a value for it.
pub open spec fn opt_fact(i18n: I18n, key: Seq<char>, v: Option<Seq<char>>) -> Seq<Seq<SpanView>> {
    match v {
        Some(x) => seq![fact_line(i18n, key, x)],
        None => Seq::empty(),
    }
}

/// A list joined, when it is not empty.
pub open spec fn joined(v: Seq<Seq<char>>, sep: Seq<char>) -> Option<Seq<char>> {
    if v.len() > 0 {
        Some(join(v, sep))
    } else {
        None
    }
}

pub open spec fn installed_value(p: Package, i18n: I18n) -> Seq<char> {
    match p.installed {
        Some(i) => i.version@ + " · "@ + tr(i18n, if i.explicit { "explicitly"@ } else { "as a dependency"@ })
            + match i.install_date {
            Some(d) => " · "@ + date_text(d),
            None => ""@,
        },
        None => tr(i18n, "no"@),
    }
}

pub open spec fn size_value(p: Package, i18n: I18n) -> Option<Seq<char>> {
    match p.install_size {
        Some(s) => Some(fill(tr(i18n, "{} installed"@), seq![human_text(s as nat)]) + match p.download_size {
            Some(d) => fill(tr(i18n, ", {} download"@), seq![human_text(d as nat)]),
            None => ""@,
        }),
        None => None,
    }
}

pub open spec fn popularity_value(p: Package, i18n: I18n) -> Option<Seq<char>> {
    match p.popularity {
        Some(m) => Some(if p.source is Aur {
            fill(tr(i18n, "{} · {} votes"@), seq![fixed(m as nat, 2), decimal(match p.votes {
                Some(v) => v as nat,
                None => 0nat,
            })])
        } else {
            fill(tr(i18n, "{}% of Arch systems have it"@), seq![fixed(m as nat, 1)])
        }),
        None => None,
    }
}

pub open spec fn flagged_value(p: Package, i18n: I18n) -> Option<Seq<char>> {
    match p.out_of_date {
        Some(o) => Some(fill(tr(i18n, "OUT OF DATE since {}"@), seq![date_text(o)])),
        None => None,
    }
}

pub open spec fn built_value(details: Option<Details>, i18n: I18n) -> Option<Seq<char>> {
    match details {
        Some(d) => match d.build_date {
            Some(b) => Some(date_text(b) + match d.packager {
                Some(x) => fill(tr(i18n, " by {}"@), seq![x@]),
                None => ""@,
            }),
            None => None,
        },
        None => None,
    }
}

pub open spec fn app_list(app: Option<AppInfo>, screenshots: bool, sep: Seq<char>) -> Option<Seq<char>> {
    match app {
        Some(a) => joined(string_views(if screenshots { a.screenshots@ } else { a.categories@ }), sep),
        None => None,
    }
}

/// The application's name and summary, when the catalog knows the package.
pub open spec fn app_head(app: Option<AppInfo>) -> Seq<Seq<SpanView>> {
    match app {
        Some(a) => seq![seq![(a.name@, LineStyle::Bold), ("  ·  "@ + a.summary@, LineStyle::Dim)]],
        None => Seq::empty(),
    }
}

/// The Info tab: the application's name and summary when the catalog knows
/// it, the description, then the facts that are known, each on its line.
pub open spec fn info_view(p: Package, app: Option<AppInfo>, details: Option<Details>, i18n: I18n) -> Seq<Seq<SpanView>> {
    app_head(app) + seq![single(p.description@, LineStyle::Plain), single(""@, LineStyle::Plain)]
        + seq![fact_line(i18n, "source"@, crate::model::source_label(p.source))]
        + seq![fact_line(i18n, "installed"@, installed_value(p, i18n))]
        + opt_fact(i18n, "size"@, size_value(p, i18n))
        + opt_fact(i18n, "popularity"@, popularity_value(p, i18n))
        + opt_fact(i18n, "license"@, joined(string_views(p.licenses@), ", "@))
        + opt_fact(i18n, "url"@, opt_str(p.url))
        + opt_fact(i18n, "maintainer"@, opt_str(p.maintainer))
        + opt_fact(i18n, "flagged"@, flagged_value(p, i18n))
        + opt_fact(i18n, "groups"@, joined(string_views(p.groups@), ", "@))
        + opt_fact(i18n, "categories"@, app_list(app, false, ", "@))
        + opt_fact(i18n, "screenshots"@, app_list(app, true, "  "@))
        + opt_fact(i18n, "built"@, built_value(details, i18n))
}

fn push_fact(lines: &mut Vec<Vec<(String, LineStyle)>>, i18n: &I18n, key: &str, v: Option<String>)
    ensures
        line_views(final(lines)@) == line_views(old(lines)@) + opt_fact(*i18n, key@, opt_str(v)),
{
    let ghost before = line_views(lines@);
    match v {
        Some(x) => {
            let k = pad(i18n.t(key).as_str(), 12);
            push_line(lines, line2(k, LineStyle::Accent, x, LineStyle::Plain));
        },
        None => {},
    }
    assert(line_views(lines@) =~= before + opt_fact(*i18n, key@, opt_str(v)));
}

fn tf1(i18n: &I18n, template: &str, a: String) -> (r: String)
    ensures
        r@ == fill(tr(*i18n, template@), seq![a@]),
{
    let args = vec![a];
    assert(Seq::new(args@.len(), |i: int| args@[i]@) =~= seq![args@[0]@]);
    i18n.tf(template, args.as_slice())
}

fn tf2(i18n: &I18n, template: &str, a: String, b: String) -> (r: String)
    ensures
        r@ == fill(tr(*i18n, template@), seq![a@, b@]),
{
    let args = vec![a, b];
    assert(Seq::new(args@.len(), |i: int| args@[i]@) =~= seq![args@[0]@, args@[1]@]);
    i18n.tf(template, args.as_slice())
}

fn installed_text(p: &Package, i18n: &I18n) -> (r: String)
    ensures
        r@ == installed_value(*p, *i18n),
{
    proof {
        reveal_strlit("");
    }
    match &p.installed {
        Some(i) => {
            let mut r = i.version.clone();
            push_str(&mut r, " · ");
            let how = if i.explicit { i18n.t("explicitly") } else { i18n.t("as a dependency") };
            push_str(&mut r, how.as_str());
            match i.install_date {
                Some(d) => {
                    push_str(&mut r, " · ");
                    let day = date(d);
                    push_str(&mut r, day.as_str());
                },
                None => {},
            }
            assert(r@ =~= installed_value(*p, *i18n));
            r
        },
        None => i18n.t("no"),
    }
}

fn size_text(p: &Package, i18n: &I18n) -> (r: Option<String>)
    ensures
        opt_str(r) == size_value(*p, *i18n),
{
    proof {
        reveal_strlit("");
    }
    match p.install_size {
        Some(s) => {
            let mut r = tf1(i18n, "{} installed", human(s));
            match p.download_size {
                Some(d) => {
                    let more = tf1(i18n, ", {} download", human(d));
                    push_str(&mut r, more.as_str());
                },
                None => {},
            }
            assert(r@ =~= size_value(*p, *i18n)->0);
            Some(r)
        },
        None => None,
    }
}

fn popularity_text(p: &Package, i18n: &I18n) -> (r: Option<String>)
    ensures
        opt_str(r) == popularity_value(*p, *i18n),
{
    match p.popularity {
        Some(m) => {
            if p.source.is_aur() {
                let votes: u64 = match p.votes {
                    Some(v) => v as u64,
                    None => 0,
                };
                let a = fixed_text(m, 2);
                let b = u64_to_string(votes);
                assert(b@ == decimal(match p.votes {
                    Some(v) => v as nat,
                    None => 0nat,
                }));
                let ghost args = seq![a@, b@];
                assert(args =~= seq![fixed(m as nat, 2), decimal(match p.votes {
                    Some(v) => v as nat,
                    None => 0nat,
                })]);
                let r = tf2(i18n, "{} · {} votes", a, b);
                assert(r@ == fill(tr(*i18n, "{} · {} votes"@), seq![fixed(m as nat, 2), decimal(match p.votes {
                    Some(v) => v as nat,
                    None => 0nat,
                })]));
                assert(opt_str(Some(r)) == Some(r@));
                Some(r)
            } else {
                let a = fixed_text(m, 1);
                assert(seq![a@] =~= seq![fixed(m as nat, 1)]);
                let r = tf1(i18n, "{}% of Arch systems have it", a);
                Some(r)
            }
        },
        None => None,
    }
}

fn joined_text(v: &Vec<String>, sep: &str) -> (r: Option<String>)
    ensures
        opt_str(r) == joined(string_views(v@), sep@),
{
    if v.len() > 0 {
        Some(join_strings(v, sep))
    } else {
        None
    }
}

fn built_text(details: Option<&Details>, i18n: &I18n) -> (r: Option<String>)
    ensures
        opt_str(r) == built_value(match details {
            Some(d) => Some(*d),
            None => None,
        }, *i18n),
{
    proof {
        reveal_strlit("");
    }
    match details {
        Some(d) => match d.build_date {
            Some(b) => {
                let mut r = date(b);
                match &d.packager {
                    Some(x) => {
                        let by = tf1(i18n, " by {}", x.clone());
                        push_str(&mut r, by.as_str());
                    },
                    None => {},
                }
                assert(r@ =~= built_value(Some(*d), *i18n)->0);
                Some(r)
            },
            None => None,
        },
        None => None,
    }
}

pub open spec fn opt_ref<A>(o: Option<&A>) -> Option<A> {
    match o {
        Some(x) => Some(*x),
        None => None,
    }
}

/// The Info tab of the details panel.
pub fn info_lines(p: &Package, app: Option<&AppInfo>, details: Option<&Details>, i18n: &I18n) -> (lines: Vec<Vec<(String, LineStyle)>>)
    ensures
        line_views(lines@) == info_view(*p, opt_ref(app), opt_ref(details), *i18n),
{
    proof {
        reveal_strlit("");
    }
    let mut lines: Vec<Vec<(String, LineStyle)>> = Vec::new();
    match app {
        Some(a) => {
            let mut s = copy_str("  ·  ");
            push_str(&mut s, a.summary.as_str());
            push_line(&mut lines, line2(a.name.clone(), LineStyle::Bold, s, LineStyle::Dim));
        },
        None => {},
    }
    push_text(&mut lines, p.description.clone(), LineStyle::Plain);
    push_text(&mut lines, copy_str(""), LineStyle::Plain);
    let ghost g0 = line_views(lines@);
    assert(g0 =~= app_head(opt_ref(app)) + seq![single(p.description@, LineStyle::Plain), single(""@, LineStyle::Plain)]);
    push_fact(&mut lines, i18n, "source", Some(copy_str(p.source.label())));
    push_fact(&mut lines, i18n, "installed", Some(installed_text(p, i18n)));
    let ghost g1 = line_views(lines@);
    assert(g1 =~= g0 + seq![fact_line(*i18n, "source"@, crate::model::source_label(p.source))]
        + seq![fact_line(*i18n, "installed"@, installed_value(*p, *i18n))]);
    push_fact(&mut lines, i18n, "size", size_text(p, i18n));
    push_fact(&mut lines, i18n, "popularity", popularity_text(p, i18n));
    push_fact(&mut lines, i18n, "license", joined_text(&p.licenses, ", "));
    push_fact(&mut lines, i18n, "url", match &p.url {
        Some(u) => Some(u.clone()),
        None => None,
    });
    push_fact(&mut lines, i18n, "maintainer", match &p.maintainer {
        Some(m) => Some(m.clone()),
        None => None,
    });
    let flagged = match p.out_of_date {
        Some(o) => Some(tf1(i18n, "OUT OF DATE since {}", date(o))),
        None => None,
    };
    push_fact(&mut lines, i18n, "flagged", flagged);
    push_fact(&mut lines, i18n, "groups", joined_text(&p.groups, ", "));
    let cats = match app {
        Some(a) => joined_text(&a.categories, ", "),
        None => None,
    };
    push_fact(&mut lines, i18n, "categories", cats);
    let shots = match app {
        Some(a) => joined_text(&a.screenshots, "  "),
        None => None,
    };
    push_fact(&mut lines, i18n, "screenshots", shots);
    push_fact(&mut lines, i18n, "built", built_text(details, i18n));
    lines
}

/// The separators after a dependency's name: a version bound or a reason.
pub open spec fn is_dep_sep(c: char) -> bool {
    c == '>' || c == '<' || c == '=' || c == ':'
}

/// Where the name of a dependency entry ends, looking from `i`.
pub open spec fn name_end(s: Seq<char>, i: int) -> int
    decreases s.len() - i,
{
    if i >= s.len() {
        s.len() as int
    } else if is_dep_sep(s[i]) {
        i
    } else {
        name_end(s, i + 1)
    }
}

proof fn lemma_name_end(s: Seq<char>, i: int)
    requires
        0 <= i <= s.len(),
    ensures
        i <= name_end(s, i) <= s.len(),
    decreases s.len() - i,
{
    if i < s.len() && !is_dep_sep(s[i]) {
        lemma_name_end(s, i + 1);
    }
}

/// The package a dependency entry names ("glibc>=2.40" names glibc).
pub open spec fn dep_name(s: Seq<char>) -> Seq<char> {
    s.take(name_end(s, 0))
}

/// Whether the index has `name` installed.
pub open spec fn has_installed(pkgs: Seq<Package>, name: Seq<char>) -> bool {
    match find_name(pkgs, name) {
        Some(i) => pkgs[i].installed is Some,
        None => false,
    }
}

/// The entries of a dependency list, the installed ones in green, two spaces
/// after each.
pub open spec fn dep_spans(pkgs: Seq<Package>, items: Seq<Seq<char>>) -> Seq<SpanView>
    decreases items.len(),
{
    if items.len() == 0 {
        Seq::empty()
    } else {
        let it = items.last();
        dep_spans(pkgs, items.drop_last()) + seq![
            (it, if has_installed(pkgs, dep_name(it)) { LineStyle::Good } else { LineStyle::Plain }),
            ("  "@, LineStyle::Plain),
        ]
    }
}

/// A dependency section, when its list is not empty: its title, then its entries.
pub open spec fn dep_section(i18n: I18n, pkgs: Seq<Package>, title: Seq<char>, items: Seq<Seq<char>>) -> Seq<Seq<SpanView>> {
    when(items.len() > 0, seq![single(tr(i18n, title), LineStyle::Accent), seq![("  "@, LineStyle::Plain)] + dep_spans(pkgs, items)])
}

pub open spec fn dep_sections(d: Details, pkgs: Seq<Package>, i18n: I18n) -> Seq<Seq<SpanView>> {
    dep_section(i18n, pkgs, "depends on"@, string_views(d.depends@))
        + dep_section(i18n, pkgs, "optional"@, string_views(d.opt_depends@))
        + dep_section(i18n, pkgs, "build needs"@, string_views(d.make_depends@))
        + dep_section(i18n, pkgs, "provides"@, string_views(d.provides@))
        + dep_section(i18n, pkgs, "conflicts"@, string_views(d.conflicts@))
        + dep_section(i18n, pkgs, "required by"@, string_views(d.required_by@))
        + dep_section(i18n, pkgs, "optional for"@, string_views(d.optional_for@))
}

/// The Deps tab: the sections that are not empty and a key to the colour,
/// or that there are none; "loading" while the details have not come.
pub open spec fn deps_view(details: Option<Details>, pkgs: Seq<Package>, i18n: I18n) -> Seq<Seq<SpanView>> {
    match details {
        None => seq![single(tr(i18n, "loading…"@), LineStyle::Dim)],
        Some(d) => dep_sections(d, pkgs, i18n) + if dep_sections(d, pkgs, i18n).len() == 0 {
            seq![single(tr(i18n, "no dependencies"@), LineStyle::Dim)]
        } else {
            seq![single(tr(i18n, "green = installed"@), LineStyle::Dim)]
        },
    }
}

fn dep_name_of(s: &str) -> (r: String)
    ensures
        r@ == dep_name(s@),
{
    let v = to_chars(s);
    let mut k: usize = 0;
    while k < v.len() && !(v[k] == '>' || v[k] == '<' || v[k] == '=' || v[k] == ':')
        invariant
            v@ == s@,
            k <= v@.len(),
            name_end(v@, k as int) == name_end(v@, 0),
        decreases v@.len() - k,
    {
        k = k + 1;
    }
    let r = string_of(&v, 0, k);
    assert(v@.subrange(0, k as int) =~= v@.take(k as int));
    r
}

fn push_section(lines: &mut Vec<Vec<(String, LineStyle)>>, i18n: &I18n, index: &Index, title: &str, items: &Vec<String>)
    ensures
        line_views(final(lines)@) == line_views(old(lines)@) + dep_section(*i18n, index@, title@, string_views(items@)),
{
    let ghost before = line_views(lines@);
    if items.len() == 0 {
        assert(line_views(lines@) =~= before + dep_section(*i18n, index@, title@, string_views(items@)));
        return;
    }
    push_text(lines, i18n.t(title), LineStyle::Accent);
    let mut spans: Vec<(String, LineStyle)> = vec![(copy_str("  "), LineStyle::Plain)];
    let ghost iv = string_views(items@);
    let mut i: usize = 0;
    assert(span_views(spans@) =~= seq![("  "@, LineStyle::Plain)] + dep_spans(index@, iv.take(0)));
    while i < items.len()
        invariant
            iv == string_views(items@),
            i <= items@.len(),
            span_views(spans@) == seq![("  "@, LineStyle::Plain)] + dep_spans(index@, iv.take(i as int)),
        decreases items@.len() - i,
    {
        assert(iv.take(i + 1).drop_last() =~= iv.take(i as int));
        assert(iv.take(i + 1).last() == items@[i as int]@);
        let name = dep_name_of(items[i].as_str());
        let st = match index.get(name.as_str()) {
            Some(p) => if p.is_installed() { LineStyle::Good } else { LineStyle::Plain },
            None => LineStyle::Plain,
        };
        let ghost before_spans = span_views(spans@);
        spans.push((items[i].clone(), st));
        spans.push((copy_str("  "), LineStyle::Plain));
        assert(span_views(spans@) =~= before_spans + seq![(items@[i as int]@, st), ("  "@, LineStyle::Plain)]);
        i = i + 1;
    }
    assert(iv.take(i as int) =~= iv);
    push_line(lines, spans);
    assert(line_views(lines@) =~= before + dep_section(*i18n, index@, title@, string_views(items@)));
}

/// The Deps tab of the details panel.
pub fn deps_lines(details: Option<&Details>, index: &Index, i18n: &I18n) -> (lines: Vec<Vec<(String, LineStyle)>>)
    ensures
        line_views(lines@) == deps_view(opt_ref(details), index@, *i18n),
{
    let mut lines: Vec<Vec<(String, LineStyle)>> = Vec::new();
    match details {
        None => {
            push_text(&mut lines, i18n.t("loading…"), LineStyle::Dim);
            assert(line_views(lines@) =~= deps_view(opt_ref(details), index@, *i18n));
        },
        Some(d) => {
            assert(line_views(lines@) =~= Seq::<Seq<SpanView>>::empty());
            push_section(&mut lines, i18n, index, "depends on", &d.depends);
            push_section(&mut lines, i18n, index, "optional", &d.opt_depends);
            push_section(&mut lines, i18n, index, "build needs", &d.make_depends);
            push_section(&mut lines, i18n, index, "provides", &d.provides);
            push_section(&mut lines, i18n, index, "conflicts", &d.conflicts);
            push_section(&mut lines, i18n, index, "required by", &d.required_by);
            push_section(&mut lines, i18n, index, "optional for", &d.optional_for);
            let ghost body = line_views(lines@);
            assert(body =~= dep_sections(*d, index@, *i18n));
            if lines.len() == 0 {
                push_text(&mut lines, i18n.t("no dependencies"), LineStyle::Dim);
            } else {
                push_text(&mut lines, i18n.t("green = installed"), LineStyle::Dim);
            }
        },
    }
    lines
}

/// The Files tab: how many files, then one per line; "loading" until known.
pub open spec fn files_view(files: Option<Seq<Seq<char>>>, i18n: I18n) -> Seq<Seq<SpanView>> {
    match files {
        None => seq![single(tr(i18n, "loading…"@), LineStyle::Dim)],
        Some(f) => seq![single(fill(tr(i18n, "{} files"@), seq![decimal(f.len())]), LineStyle::Dim)]
            + Seq::new(f.len(), |i: int| single(f[i], LineStyle::Plain)),
    }
}

pub open spec fn opt_strings(o: Option<&Vec<String>>) -> Option<Seq<Seq<char>>> {
    match o {
        Some(v) => Some(string_views(v@)),
        None => None,
    }
}

/// The Files tab of the details panel.
pub fn files_lines(files: Option<&Vec<String>>, i18n: &I18n) -> (lines: Vec<Vec<(String, LineStyle)>>)
    ensures
        line_views(lines@) == files_view(opt_strings(files), *i18n),
{
    let mut lines: Vec<Vec<(String, LineStyle)>> = Vec::new();
    match files {
        None => {
            push_text(&mut lines, i18n.t("loading…"), LineStyle::Dim);
            assert(line_views(lines@) =~= files_view(opt_strings(files), *i18n));
        },
        Some(f) => {
            let ghost fv = string_views(f@);
            let count = u64_to_string(f.len() as u64);
            push_text(&mut lines, tf1(i18n, "{} files", count), LineStyle::Dim);
            let ghost head = line_views(lines@);
            let mut i: usize = 0;
            while i < f.len()
                invariant
                    fv == string_views(f@),
                    i <= f@.len(),
                    line_views(lines@) == head + Seq::new(i as nat, |k: int| single(fv[k], LineStyle::Plain)),
                decreases f@.len() - i,
            {
                let ghost before = line_views(lines@);
                push_text(&mut lines, f[i].clone(), LineStyle::Plain);
                assert(line_views(lines@) =~= head + Seq::new((i + 1) as nat, |k: int| single(fv[k], LineStyle::Plain)));
                i = i + 1;
            }
            assert(line_views(lines@) =~= files_view(opt_strings(files), *i18n));
        },
    }
    lines
}

/// The PKGBUILD tab: its lines; "loading" until it has come.
pub open spec fn pkgbuild_view(text: Option<Seq<char>>, i18n: I18n) -> Seq<Seq<SpanView>> {
    match text {
        None => seq![single(tr(i18n, "loading…"@), LineStyle::Dim)],
        Some(t) => Seq::new(lines(t).len(), |i: int| single(lines(t)[i], LineStyle::Plain)),
    }
}

/// The PKGBUILD tab of the details panel.
pub fn pkgbuild_lines(text: Option<&String>, i18n: &I18n) -> (out: Vec<Vec<(String, LineStyle)>>)
    ensures
        line_views(out@) == pkgbuild_view(match text {
            Some(t) => Some(t@),
            None => None,
        }, *i18n),
{
    let mut out: Vec<Vec<(String, LineStyle)>> = Vec::new();
    match text {
        None => {
            push_text(&mut out, i18n.t("loading…"), LineStyle::Dim);
            assert(line_views(out@) =~= pkgbuild_view(None, *i18n));
        },
        Some(t) => {
            let ls = lines_of(&to_chars(t.as_str()));
            let ghost lv = lines(t@);
            let mut i: usize = 0;
            while i < ls.len()
                invariant
                    lv == lines(t@),
                    crate::text::char_views(ls@) == lv,
                    i <= ls@.len(),
                    line_views(out@) == Seq::new(i as nat, |k: int| single(lv[k], LineStyle::Plain)),
                decreases ls@.len() - i,
            {
                push_text(&mut out, string_of_all(&ls[i]), LineStyle::Plain);
                assert(line_views(out@) =~= Seq::new((i + 1) as nat, |k: int| single(lv[k], LineStyle::Plain)));
                i = i + 1;
            }
            assert(line_views(out@) =~= pkgbuild_view(Some(t@), *i18n));
        },
    }
    out
}

/// The details panel's text for the tab shown.
pub open spec fn detail_view(
    p: Package,
    app: Option<AppInfo>,
    details: Option<Details>,
    files: Option<Seq<Seq<char>>>,
    pkgbuild: Option<Seq<char>>,
    tab: DetailTab,
    pkgs: Seq<Package>,
    i18n: I18n,
) -> Seq<Seq<SpanView>> {
    match tab {
        DetailTab::Info => info_view(p, app, details, i18n),
        DetailTab::Deps => deps_view(details, pkgs, i18n),
        DetailTab::Files => files_view(files, i18n),
        DetailTab::Pkgbuild => pkgbuild_view(pkgbuild, i18n),
    }
}

/// What the details panel shows of package `p` on tab `tab`: what it is and
/// brings (Info), what it needs and what needs it (Deps), its files, its
/// PKGBUILD; `details`, `files` and `pkgbuild` are what has been fetched so far.
pub fn detail_lines(
    p: &Package,
    app: Option<&AppInfo>,
    details: Option<&Details>,
    files: Option<&Vec<String>>,
    pkgbuild: Option<&String>,
    tab: DetailTab,
    index: &Index,
    i18n: &I18n,
) -> (lines: Vec<Vec<(String, LineStyle)>>)
    ensures
        line_views(lines@) == detail_view(*p, opt_ref(app), opt_ref(details), opt_strings(files), match pkgbuild {
            Some(t) => Some(t@),
            None => None,
        }, tab, index@, *i18n),
{
    match tab {
        DetailTab::Info => info_lines(p, app, details, i18n),
        DetailTab::Deps => deps_lines(details, index, i18n),
        DetailTab::Files => files_lines(files, i18n),
        DetailTab::Pkgbuild => pkgbuild_lines(pkgbuild, i18n),
    }
}

} // verus!
