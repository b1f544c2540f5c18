//! The interface's decisions: tabs and their titles, which row is selected,
//! what a settings row cycles to, the shelves of the Store, the run screen's
//! state as a command's events come in. The program draws, reads keys and
//! runs commands; it asks these functions what follows.

use vstd::prelude::*;

use crate::config::{is_auto, setting_is_auto, spec_aur_helper, spec_privilege, Config, Tools};
use crate::exec::{EventView, ExecEvent};
use crate::i18n::{fill, lang_codes, langs, table_view, translate, I18n};
use crate::index::Index;
use crate::model::Source;
use crate::queue::{step_views, Action, Step, StepView};
use crate::selfupdate::VERSION;
use crate::sources::appstream::{shelf_list, shelves};
use crate::text::{copy_str, decimal_i64, digit_char, i64_to_string, push_str, str_eq, string_views};

verus! {

broadcast use vstd::string::group_string_axioms;

// ------------------------------------------------------------------ tabs

#[derive(Clone, Copy, Debug, PartialEq, Eq, Structural)]
pub enum Tab {
    Store,
    Search,
    Installed,
    Updates,
    Queue,
    Recipes,
    Settings,
}

/// The tabs, in the order they are shown and numbered.
pub open spec fn all_tabs() -> Seq<Tab> {
    seq![Tab::Store, Tab::Search, Tab::Installed, Tab::Updates, Tab::Queue, Tab::Recipes, Tab::Settings]
}

/// A tab's title, in English.
pub open spec fn tab_label(t: Tab) -> Seq<char> {
    match t {
        Tab::Store => "Store"@,
        Tab::Search => "Search"@,
        Tab::Installed => "Installed"@,
        Tab::Updates => "Updates"@,
        Tab::Queue => "Queue"@,
        Tab::Recipes => "Recipes"@,
        Tab::Settings => "Settings"@,
    }
}

/// A tab's place in `all_tabs`.
pub open spec fn tab_index(t: Tab) -> nat {
    match t {
        Tab::Store => 0,
        Tab::Search => 1,
        Tab::Installed => 2,
        Tab::Updates => 3,
        Tab::Queue => 4,
        Tab::Recipes => 5,
        Tab::Settings => 6,
    }
}

impl Tab {
    /// Every tab, in order.
    pub fn all() -> (r: Vec<Tab>)
        ensures
            r@ == all_tabs(),
    {
        let r = vec![Tab::Store, Tab::Search, Tab::Installed, Tab::Updates, Tab::Queue, Tab::Recipes, Tab::Settings];
        assert(r@ =~= all_tabs());
        r
    }

    fn label(self) -> (r: &'static str)
        ensures
            r@ == tab_label(self),
    {
        match self {
            Tab::Store => "Store",
            Tab::Search => "Search",
            Tab::Installed => "Installed",
            Tab::Updates => "Updates",
            Tab::Queue => "Queue",
            Tab::Recipes => "Recipes",
            Tab::Settings => "Settings",
        }
    }

    /// The title, in the active language.
    pub fn title(self, i18n: &I18n) -> (r: String)
        ensures
            r@ == translate(table_view(i18n.table@), tab_label(self)),
    {
        i18n.t(self.label())
    }

    /// Where the tab stands among all tabs.
    pub fn index(self) -> (r: usize)
        ensures
            r == tab_index(self),
            all_tabs()[r as int] == self,
    {
        match self {
            Tab::Store => 0,
            Tab::Search => 1,
            Tab::Installed => 2,
            Tab::Updates => 3,
            Tab::Queue => 4,
            Tab::Recipes => 5,
            Tab::Settings => 6,
        }
    }
}

#[derive(Clone, Copy, Debug, PartialEq, Eq, Structural)]
pub enum DetailTab {
    Info,
    Deps,
    Files,
    Pkgbuild,
}

pub open spec fn detail_label(t: DetailTab) -> Seq<char> {
    match t {
        DetailTab::Info => "Info"@,
        DetailTab::Deps => "Dependencies"@,
        DetailTab::Files => "Files"@,
        DetailTab::Pkgbuild => "PKGBUILD"@,
    }
}

/// The detail tab after `t`, the last one followed by the first.
pub open spec fn detail_next(t: DetailTab) -> DetailTab {
    match t {
        DetailTab::Info => DetailTab::Deps,
        DetailTab::Deps => DetailTab::Files,
        DetailTab::Files => DetailTab::Pkgbuild,
        DetailTab::Pkgbuild => DetailTab::Info,
    }
}

impl DetailTab {
    pub fn title(self, i18n: &I18n) -> (r: String)
        ensures
            r@ == translate(table_view(i18n.table@), detail_label(self)),
    {
        i18n.t(
            match self {
                DetailTab::Info => "Info",
                DetailTab::Deps => "Dependencies",
                DetailTab::Files => "Files",
                DetailTab::Pkgbuild => "PKGBUILD",
            },
        )
    }

    /// The next detail tab, round the end.
    pub fn next(self) -> (r: Self)
        ensures
            r == detail_next(self),
    {
        match self {
            DetailTab::Info => DetailTab::Deps,
            DetailTab::Deps => DetailTab::Files,
            DetailTab::Files => DetailTab::Pkgbuild,
            DetailTab::Pkgbuild => DetailTab::Info,
        }
    }
}

#[derive(Clone, Copy, Debug, PartialEq, Eq, Structural)]
pub enum InstalledFilter {
    All,
    Explicit,
    Dependencies,
    Orphans,
    Foreign,
}

pub open spec fn filter_label(f: InstalledFilter) -> Seq<char> {
    match f {
        InstalledFilter::All => "all"@,
        InstalledFilter::Explicit => "explicit"@,
        InstalledFilter::Dependencies => "dependencies"@,
        InstalledFilter::Orphans => "orphans"@,
        InstalledFilter::Foreign => "AUR / local"@,
    }
}

/// The filter the `f` key moves to: the next one in the order shown, the
/// last going back to the first.
pub open spec fn filter_next(f: InstalledFilter) -> InstalledFilter {
    match f {
        InstalledFilter::All => InstalledFilter::Explicit,
        InstalledFilter::Explicit => InstalledFilter::Dependencies,
        InstalledFilter::Dependencies => InstalledFilter::Orphans,
        InstalledFilter::Orphans => InstalledFilter::Foreign,
        InstalledFilter::Foreign => InstalledFilter::All,
    }
}

impl InstalledFilter {
    pub fn next(self) -> (r: Self)
        ensures
            r == filter_next(self),
    {
        match self {
            InstalledFilter::All => InstalledFilter::Explicit,
            InstalledFilter::Explicit => InstalledFilter::Dependencies,
            InstalledFilter::Dependencies => InstalledFilter::Orphans,
            InstalledFilter::Orphans => InstalledFilter::Foreign,
            InstalledFilter::Foreign => InstalledFilter::All,
        }
    }

    pub fn title(self, i18n: &I18n) -> (r: String)
        ensures
            r@ == translate(table_view(i18n.table@), filter_label(self)),
    {
        i18n.t(
            match self {
                InstalledFilter::All => "all",
                InstalledFilter::Explicit => "explicit",
                InstalledFilter::Dependencies => "dependencies",
                InstalledFilter::Orphans => "orphans",
                InstalledFilter::Foreign => "AUR / local",
            },
        )
    }
}

// --------------------------------------------------------------- moving

/// The row a move of `delta` lands on: kept inside the list; nothing moves
/// in an empty list.
pub open spec fn moved(sel: int, delta: int, len: int) -> int {
    if len == 0 {
        sel
    } else if sel + delta < 0 {
        0
    } else if sel + delta > len - 1 {
        len - 1
    } else {
        sel + delta
    }
}

pub fn move_sel(sel: usize, delta: i32, len: usize) -> (r: usize)
    ensures
        r == moved(sel as int, delta as int, len as int),
{
    if len == 0 {
        return sel;
    }
    let target: i128 = sel as i128 + delta as i128;
    if target < 0 {
        0
    } else if target > (len - 1) as i128 {
        len - 1
    } else {
        target as usize
    }
}

// -------------------------------------------------------------- settings

/// The AUR helper setting after `auto`: paru, then yay, then auto again.
pub open spec fn next_helper(cur: Seq<char>) -> Seq<char> {
    if cur == "auto"@ || cur.len() == 0 {
        "paru"@
    } else if cur == "paru"@ {
        "yay"@
    } else {
        "auto"@
    }
}

/// The administrator tool setting after `auto`: sudo, then doas, then auto.
pub open spec fn next_privilege(cur: Seq<char>) -> Seq<char> {
    if cur == "auto"@ || cur.len() == 0 {
        "sudo"@
    } else if cur == "sudo"@ {
        "doas"@
    } else {
        "auto"@
    }
}

/// The language setting after `cur`: through the shipped languages in
/// order, then `auto`; from anything else, the first language.
pub open spec fn next_language(cur: Seq<char>) -> Seq<char> {
    match position_from(lang_codes(), cur, 0) {
        Some(i) => if i + 1 < lang_codes().len() {
            lang_codes()[i + 1]
        } else {
            "auto"@
        },
        None => lang_codes()[0],
    }
}

/// Where `s` first stands in `v`, looking from `i` on.
pub open spec fn position_from(v: Seq<Seq<char>>, s: Seq<char>, i: int) -> Option<int>
    decreases v.len() - i,
{
    if i < 0 || i >= v.len() {
        None
    } else if v[i] == s {
        Some(i)
    } else {
        position_from(v, s, i + 1)
    }
}

pub fn cycle_aur_helper(cur: &str) -> (r: &'static str)
    ensures
        r@ == next_helper(cur@),
{
    if str_eq(cur, "auto") || cur.is_empty() {
        "paru"
    } else if str_eq(cur, "paru") {
        "yay"
    } else {
        "auto"
    }
}

pub fn cycle_privilege(cur: &str) -> (r: &'static str)
    ensures
        r@ == next_privilege(cur@),
{
    if str_eq(cur, "auto") || cur.is_empty() {
        "sudo"
    } else if str_eq(cur, "sudo") {
        "doas"
    } else {
        "auto"
    }
}

pub fn cycle_language(cur: &str) -> (r: &'static str)
    ensures
        r@ == next_language(cur@),
{
    let all = langs();
    let mut i: usize = 0;
    while i < all.len()
        invariant
            all@.len() == lang_codes().len(),
            forall|k: int| 0 <= k < all@.len() ==> (#[trigger] all@[k]).0@ == lang_codes()[k],
            i <= all@.len(),
            position_from(lang_codes(), cur@, i as int) == position_from(lang_codes(), cur@, 0),
        decreases all@.len() - i,
    {
        if str_eq(all[i].0, cur) {
            if i + 1 < all.len() {
                return all[i + 1].0;
            } else {
                return "auto";
            }
        }
        i = i + 1;
    }
    all[0].0
}

// ------------------------------------------------------------------ keys

/// A key as the interface sees it; the modifier travels beside it.
#[derive(Clone, Copy, Debug, PartialEq, Eq, Structural)]
pub enum Key {
    Char(char),
    Esc,
    Enter,
    Tab,
    Backspace,
    Delete,
    Up,
    Down,
    Left,
    Right,
    PageUp,
    PageDown,
    Home,
    End,
    Other,
}

/// What a key press depends on.
#[derive(Clone, Copy, Debug)]
pub struct KeyState {
    pub tab: Tab,
    /// The run screen is open.
    pub run_open: bool,
    /// Its command has ended.
    pub run_finished: bool,
    /// The key help is shown.
    pub help: bool,
    /// The search field has the keys.
    pub typing: bool,
    pub query_empty: bool,
    /// On the Store, the shelves (not the apps) have the cursor.
    pub shelf_focus: bool,
}

/// What a key asks the interface to do.
#[derive(Clone, Copy, Debug, PartialEq, Eq, Structural)]
pub enum Command {
    Nothing,
    Quit,
    ShowHelp,
    CloseHelp,
    SwitchTab(Tab),
    /// Go to Search and give the field the keys.
    StartTyping,
    StopTyping,
    TypeChar(char),
    DeleteChar,
    ClearTyped,
    /// Esc on Search with a query: empty it.
    ClearQuery,
    Move(i32),
    NextDetailTab,
    FocusShelves,
    OpenShelf,
    ScrollBack,
    ScrollOn,
    ApplyRecipe,
    ActivateSetting,
    ApplyQueue,
    UpdateAll,
    Toggle(Action),
    RemoveFromQueue,
    InstallNow,
    QueueDarkGroup,
    ClearQueue,
    NextFilter,
    QueueOrphans,
    Reload,
    CloseRun,
    /// Ctrl-C in a running command: send it and stop the command.
    Interrupt,
    /// A character for the running command's terminal.
    Send(char),
}

/// Keys on the run screen.
pub open spec fn run_command(finished: bool, key: Key, ctrl: bool) -> Command {
    if finished {
        match key {
            Key::Esc | Key::Enter => Command::CloseRun,
            Key::Char(c) => if c == 'q' { Command::CloseRun } else { Command::Nothing },
            _ => Command::Nothing,
        }
    } else {
        match key {
            Key::Char(c) => if c == 'c' && ctrl { Command::Interrupt } else { Command::Send(c) },
            Key::Enter => Command::Send('\r'),
            Key::Backspace => Command::Send('\x7f'),
            Key::Tab => Command::Send('\t'),
            _ => Command::Nothing,
        }
    }
}

/// Keys while the search field has them.
pub open spec fn typing_command(key: Key, ctrl: bool) -> Command {
    match key {
        Key::Esc | Key::Enter | Key::Down | Key::Tab => Command::StopTyping,
        Key::Backspace => Command::DeleteChar,
        Key::Char(c) => if c == 'u' && ctrl { Command::ClearTyped } else { Command::TypeChar(c) },
        _ => Command::Nothing,
    }
}

/// The tab a digit key opens: `1` the first, `7` the last.
pub open spec fn digit_tab(c: char) -> Option<Tab> {
    if c == '1' {
        Some(Tab::Store)
    } else if c == '2' {
        Some(Tab::Search)
    } else if c == '3' {
        Some(Tab::Installed)
    } else if c == '4' {
        Some(Tab::Updates)
    } else if c == '5' {
        Some(Tab::Queue)
    } else if c == '6' {
        Some(Tab::Recipes)
    } else if c == '7' {
        Some(Tab::Settings)
    } else {
        None
    }
}

/// Left: on the Store it moves to the shelves, elsewhere it scrolls the details back.
pub open spec fn back_command(st: KeyState) -> Command {
    if st.tab == Tab::Store { Command::FocusShelves } else { Command::ScrollBack }
}

/// Right: on the Store it opens the shelf, elsewhere it scrolls the details on.
pub open spec fn on_command(st: KeyState) -> Command {
    if st.tab == Tab::Store { Command::OpenShelf } else { Command::ScrollOn }
}

pub open spec fn enter_command(st: KeyState) -> Command {
    match st.tab {
        Tab::Store => if st.shelf_focus { Command::OpenShelf } else { Command::NextDetailTab },
        Tab::Recipes => Command::ApplyRecipe,
        Tab::Settings => Command::ActivateSetting,
        Tab::Queue => Command::ApplyQueue,
        Tab::Updates => Command::UpdateAll,
        _ => Command::NextDetailTab,
    }
}

pub open spec fn space_command(st: KeyState) -> Command {
    match st.tab {
        Tab::Recipes => Command::ApplyRecipe,
        Tab::Settings => Command::ActivateSetting,
        Tab::Updates => Command::Nothing,
        _ => Command::Toggle(Action::Install),
    }
}

pub open spec fn delete_command(st: KeyState) -> Command {
    if st.tab == Tab::Queue { Command::RemoveFromQueue } else { Command::Toggle(Action::Remove) }
}

/// A character key on a tab.
pub open spec fn char_command(st: KeyState, c: char) -> Command {
    if c == 'q' {
        Command::Quit
    } else if c == '?' {
        Command::ShowHelp
    } else if digit_tab(c) is Some {
        Command::SwitchTab(digit_tab(c)->0)
    } else if c == '/' {
        Command::StartTyping
    } else if c == 'j' {
        Command::Move(1)
    } else if c == 'k' {
        Command::Move(-1i32)
    } else if c == 'g' {
        Command::Move(-100000i32)
    } else if c == 'G' {
        Command::Move(100000)
    } else if c == 'h' {
        back_command(st)
    } else if c == 'l' {
        on_command(st)
    } else if c == ' ' {
        space_command(st)
    } else if c == 'd' {
        delete_command(st)
    } else if c == 'i' {
        Command::InstallNow
    } else if c == 'A' {
        if st.tab == Tab::Store { Command::QueueDarkGroup } else { Command::Nothing }
    } else if c == 'a' {
        Command::ApplyQueue
    } else if c == 'u' {
        Command::UpdateAll
    } else if c == 'c' {
        if st.tab == Tab::Queue { Command::ClearQueue } else { Command::Nothing }
    } else if c == 'f' {
        if st.tab == Tab::Installed { Command::NextFilter } else { Command::Nothing }
    } else if c == 'o' {
        if st.tab == Tab::Installed { Command::QueueOrphans } else { Command::Nothing }
    } else if c == 'r' {
        Command::Reload
    } else {
        Command::Nothing
    }
}

/// A key on a tab, the search field not typing.
pub open spec fn tab_command(st: KeyState, key: Key) -> Command {
    match key {
        Key::Char(c) => char_command(st, c),
        Key::Esc => if st.tab == Tab::Search && !st.query_empty { Command::ClearQuery } else { Command::Quit },
        Key::Down => Command::Move(1),
        Key::Up => Command::Move(-1i32),
        Key::PageDown => Command::Move(15),
        Key::PageUp => Command::Move(-15i32),
        Key::Home => Command::Move(-100000i32),
        Key::End => Command::Move(100000),
        Key::Tab => Command::NextDetailTab,
        Key::Left => back_command(st),
        Key::Right => on_command(st),
        Key::Enter => enter_command(st),
        Key::Delete => delete_command(st),
        _ => Command::Nothing,
    }
}

/// What a key does: the run screen takes every key while it is open, then the
/// help takes one to close, Ctrl-C and Ctrl-Q quit, the search field takes the
/// keys while typing, and the tab has the rest.
pub open spec fn key_command_spec(st: KeyState, key: Key, ctrl: bool) -> Command {
    if st.run_open {
        run_command(st.run_finished, key, ctrl)
    } else if st.help {
        Command::CloseHelp
    } else if ctrl && (key == Key::Char('c') || key == Key::Char('q')) {
        Command::Quit
    } else if st.tab == Tab::Search && st.typing {
        typing_command(key, ctrl)
    } else {
        tab_command(st, key)
    }
}

fn run_key(finished: bool, key: Key, ctrl: bool) -> (r: Command)
    ensures
        r == run_command(finished, key, ctrl),
{
    if finished {
        match key {
            Key::Esc | Key::Enter => Command::CloseRun,
            Key::Char(c) => if c == 'q' { Command::CloseRun } else { Command::Nothing },
            _ => Command::Nothing,
        }
    } else {
        match key {
            Key::Char(c) => if c == 'c' && ctrl { Command::Interrupt } else { Command::Send(c) },
            Key::Enter => Command::Send('\r'),
            Key::Backspace => Command::Send('\x7f'),
            Key::Tab => Command::Send('\t'),
            _ => Command::Nothing,
        }
    }
}

fn typing_key(key: Key, ctrl: bool) -> (r: Command)
    ensures
        r == typing_command(key, ctrl),
{
    match key {
        Key::Esc | Key::Enter | Key::Down | Key::Tab => Command::StopTyping,
        Key::Backspace => Command::DeleteChar,
        Key::Char(c) => if c == 'u' && ctrl { Command::ClearTyped } else { Command::TypeChar(c) },
        _ => Command::Nothing,
    }
}

fn tab_of_digit(c: char) -> (r: Option<Tab>)
    ensures
        r == digit_tab(c),
{
    if c == '1' {
        Some(Tab::Store)
    } else if c == '2' {
        Some(Tab::Search)
    } else if c == '3' {
        Some(Tab::Installed)
    } else if c == '4' {
        Some(Tab::Updates)
    } else if c == '5' {
        Some(Tab::Queue)
    } else if c == '6' {
        Some(Tab::Recipes)
    } else if c == '7' {
        Some(Tab::Settings)
    } else {
        None
    }
}

fn tab_char_key(st: &KeyState, c: char) -> (r: Command)
    ensures
        r == char_command(*st, c),
{
    let on_store = st.tab == Tab::Store;
    if c == 'q' {
        Command::Quit
    } else if c == '?' {
        Command::ShowHelp
    } else if let Some(t) = tab_of_digit(c) {
        Command::SwitchTab(t)
    } else if c == '/' {
        Command::StartTyping
    } else if c == 'j' {
        Command::Move(1)
    } else if c == 'k' {
        Command::Move(-1)
    } else if c == 'g' {
        Command::Move(-100000)
    } else if c == 'G' {
        Command::Move(100000)
    } else if c == 'h' {
        if on_store { Command::FocusShelves } else { Command::ScrollBack }
    } else if c == 'l' {
        if on_store { Command::OpenShelf } else { Command::ScrollOn }
    } else if c == ' ' {
        match st.tab {
            Tab::Recipes => Command::ApplyRecipe,
            Tab::Settings => Command::ActivateSetting,
            Tab::Updates => Command::Nothing,
            _ => Command::Toggle(Action::Install),
        }
    } else if c == 'd' {
        if st.tab == Tab::Queue { Command::RemoveFromQueue } else { Command::Toggle(Action::Remove) }
    } else if c == 'i' {
        Command::InstallNow
    } else if c == 'A' {
        if on_store { Command::QueueDarkGroup } else { Command::Nothing }
    } else if c == 'a' {
        Command::ApplyQueue
    } else if c == 'u' {
        Command::UpdateAll
    } else if c == 'c' {
        if st.tab == Tab::Queue { Command::ClearQueue } else { Command::Nothing }
    } else if c == 'f' {
        if st.tab == Tab::Installed { Command::NextFilter } else { Command::Nothing }
    } else if c == 'o' {
        if st.tab == Tab::Installed { Command::QueueOrphans } else { Command::Nothing }
    } else if c == 'r' {
        Command::Reload
    } else {
        Command::Nothing
    }
}

fn tab_key(st: &KeyState, key: Key) -> (r: Command)
    ensures
        r == tab_command(*st, key),
{
    let on_store = st.tab == Tab::Store;
    match key {
        Key::Char(c) => tab_char_key(st, c),
        Key::Esc => if st.tab == Tab::Search && !st.query_empty { Command::ClearQuery } else { Command::Quit },
        Key::Down => Command::Move(1),
        Key::Up => Command::Move(-1),
        Key::PageDown => Command::Move(15),
        Key::PageUp => Command::Move(-15),
        Key::Home => Command::Move(-100000),
        Key::End => Command::Move(100000),
        Key::Tab => Command::NextDetailTab,
        Key::Left => if on_store { Command::FocusShelves } else { Command::ScrollBack },
        Key::Right => if on_store { Command::OpenShelf } else { Command::ScrollOn },
        Key::Enter => match st.tab {
            Tab::Store => if st.shelf_focus { Command::OpenShelf } else { Command::NextDetailTab },
            Tab::Recipes => Command::ApplyRecipe,
            Tab::Settings => Command::ActivateSetting,
            Tab::Queue => Command::ApplyQueue,
            Tab::Updates => Command::UpdateAll,
            _ => Command::NextDetailTab,
        },
        Key::Delete => if st.tab == Tab::Queue { Command::RemoveFromQueue } else { Command::Toggle(Action::Remove) },
        _ => Command::Nothing,
    }
}

/// When the typing pauses, whether the query is worth asking the AUR about:
/// two bytes or more (the AUR refuses shorter ones).
pub fn aur_search_due(query: &str) -> (r: bool)
    ensures
        r == (vstd::utf8::encode_utf8(query@).len() >= 2),
{
    query.as_bytes().len() >= 2
}

/// The parts of the interface's state that keys change directly.
#[derive(Clone, Copy, Debug, PartialEq, Eq, Structural)]
pub struct ViewState {
    pub tab: Tab,
    pub typing: bool,
    pub help: bool,
    pub shelf_focus: bool,
    /// How far the details panel is scrolled, in rows.
    pub detail_scroll: u16,
}

/// What a command does to the view state: a tab switch leaves the search
/// field and scrolls the details back to the top; `/` does that on Search and
/// starts typing; scrolling moves five rows, no further than the ends of
/// `u16`; the other commands leave it as it is.
pub open spec fn view_after(st: ViewState, c: Command) -> ViewState {
    match c {
        Command::SwitchTab(t) => ViewState { tab: t, typing: false, detail_scroll: 0, ..st },
        Command::StartTyping => ViewState { tab: Tab::Search, typing: true, detail_scroll: 0, ..st },
        Command::StopTyping => ViewState { typing: false, ..st },
        Command::ShowHelp => ViewState { help: true, ..st },
        Command::CloseHelp => ViewState { help: false, ..st },
        Command::FocusShelves => ViewState { shelf_focus: true, ..st },
        Command::OpenShelf => ViewState { shelf_focus: false, ..st },
        Command::ScrollBack => ViewState {
            detail_scroll: if st.detail_scroll >= 5 { (st.detail_scroll - 5) as u16 } else { 0 },
            ..st
        },
        Command::ScrollOn => ViewState {
            detail_scroll: if st.detail_scroll <= 65530 { (st.detail_scroll + 5) as u16 } else { 65535 },
            ..st
        },
        _ => st,
    }
}

/// The view state after a command.
pub fn view_after_command(st: ViewState, c: Command) -> (r: ViewState)
    ensures
        r == view_after(st, c),
{
    match c {
        Command::SwitchTab(t) => ViewState { tab: t, typing: false, detail_scroll: 0, ..st },
        Command::StartTyping => ViewState { tab: Tab::Search, typing: true, detail_scroll: 0, ..st },
        Command::StopTyping => ViewState { typing: false, ..st },
        Command::ShowHelp => ViewState { help: true, ..st },
        Command::CloseHelp => ViewState { help: false, ..st },
        Command::FocusShelves => ViewState { shelf_focus: true, ..st },
        Command::OpenShelf => ViewState { shelf_focus: false, ..st },
        Command::ScrollBack => ViewState { detail_scroll: st.detail_scroll.saturating_sub(5), ..st },
        Command::ScrollOn => ViewState { detail_scroll: st.detail_scroll.saturating_add(5), ..st },
        _ => st,
    }
}

/// What a key press does in the interface's present state.
pub fn key_command(st: &KeyState, key: Key, ctrl: bool) -> (r: Command)
    ensures
        r == key_command_spec(*st, key, ctrl),
{
    if st.run_open {
        run_key(st.run_finished, key, ctrl)
    } else if st.help {
        Command::CloseHelp
    } else if ctrl && (key == Key::Char('c') || key == Key::Char('q')) {
        Command::Quit
    } else if st.tab == Tab::Search && st.typing {
        typing_key(key, ctrl)
    } else {
        tab_key(st, key)
    }
}

// ------------------------------------------------------- settings rows

/// "on" or "off", in English.
pub open spec fn on_off(b: bool) -> Seq<char> {
    if b {
        "on"@
    } else {
        "off"@
    }
}

/// What the AUR helper row shows: the setting, or for "auto" the helper that
/// would be used (or that none was found).
pub open spec fn helper_value(cfg: Config, tools: Tools, t: Seq<(Seq<char>, Seq<char>)>) -> Seq<char> {
    if is_auto(cfg.general.aur_helper@) {
        let found = match spec_aur_helper(cfg.general.aur_helper@, tools) {
            Some(h) => h,
            None => translate(t, "none found"@),
        };
        fill(translate(t, "auto ({})"@), seq![found])
    } else {
        cfg.general.aur_helper@
    }
}

/// What the self-update row shows.
pub open spec fn release_value(new_release: Option<Seq<char>>, t: Seq<(Seq<char>, Seq<char>)>) -> Seq<char> {
    match new_release {
        Some(tag) => fill(translate(t, "{} available (you run v{})"@), seq![tag, VERSION@]),
        None => fill(translate(t, "v{} · Enter fetches the latest release"@), seq![VERSION@]),
    }
}

/// What the language row shows: the setting, or for "auto" the language in use.
pub open spec fn language_value(cfg: Config, lang: Seq<char>, t: Seq<(Seq<char>, Seq<char>)>) -> Seq<char> {
    if is_auto(cfg.general.language@) {
        fill(translate(t, "auto ({})"@), seq![lang])
    } else {
        cfg.general.language@
    }
}

/// The rows of the Settings tab before the package sources: id, label, value.
pub open spec fn settings_view(
    cfg: Config,
    tools: Tools,
    new_release: Option<Seq<char>>,
    lang: Seq<char>,
    t: Seq<(Seq<char>, Seq<char>)>,
) -> Seq<(Seq<char>, Seq<char>, Seq<char>)> {
    seq![
        ("check_updates"@, translate(t, "Check for a newer Sanae at start"@), translate(t, on_off(cfg.general.check_updates))),
        ("self_update"@, translate(t, "Update Sanae now"@), release_value(new_release, t)),
        ("aur_helper"@, translate(t, "AUR helper"@), helper_value(cfg, tools, t)),
        ("privilege"@, translate(t, "Administrator tool"@),
            cfg.general.privilege@ + " ("@ + spec_privilege(cfg.general.privilege@, tools) + ")"@),
        ("nerd_font"@, translate(t, "Nerd Font marks"@), translate(t, on_off(cfg.theme.nerd_font))),
        ("language"@, translate(t, "Language"@), language_value(cfg, lang, t)),
    ]
}

pub open spec fn row_views(r: Seq<(&'static str, String, String)>) -> Seq<(Seq<char>, Seq<char>, Seq<char>)> {
    Seq::new(r.len(), |i: int| (r[i].0@, r[i].1@, r[i].2@))
}

fn on_off_text(b: bool, i18n: &I18n) -> (r: String)
    ensures
        r@ == translate(table_view(i18n.table@), on_off(b)),
{
    proof {
        reveal_strlit("on");
        reveal_strlit("off");
    }
    if b {
        i18n.t("on")
    } else {
        i18n.t("off")
    }
}

/// The rows of the Settings tab before the package sources: id, label and
/// value, each in the active language.
pub fn settings_rows(cfg: &Config, tools: &Tools, new_release: &Option<String>, i18n: &I18n) -> (r: Vec<(&'static str, String, String)>)
    ensures
        row_views(r@) == settings_view(
            *cfg,
            *tools,
            match new_release {
                Some(tag) => Some(tag@),
                None => None,
            },
            i18n.lang@,
            table_view(i18n.table@),
        ),
{
    let ghost t = table_view(i18n.table@);
    let helper = if setting_is_auto(cfg.general.aur_helper.as_str()) {
        let found = match cfg.aur_helper(tools) {
            Some(h) => h,
            None => i18n.t("none found"),
        };
        let args = vec![found];
        assert(Seq::new(args@.len(), |i: int| args@[i]@) =~= seq![args@[0]@]);
        i18n.tf("auto ({})", args.as_slice())
    } else {
        cfg.general.aur_helper.clone()
    };
    assert(helper@ == helper_value(*cfg, *tools, t));
    let release = match new_release {
        Some(tag) => {
            let args = vec![tag.clone(), copy_str(VERSION)];
            assert(Seq::new(args@.len(), |i: int| args@[i]@) =~= seq![args@[0]@, args@[1]@]);
            i18n.tf("{} available (you run v{})", args.as_slice())
        },
        None => {
            let args = vec![copy_str(VERSION)];
            assert(Seq::new(args@.len(), |i: int| args@[i]@) =~= seq![args@[0]@]);
            i18n.tf("v{} · Enter fetches the latest release", args.as_slice())
        },
    };
    assert(release@ == release_value(
        match new_release {
            Some(tag) => Some(tag@),
            None => None,
        },
        t,
    ));
    let mut privilege = cfg.general.privilege.clone();
    push_str(&mut privilege, " (");
    let chosen = cfg.privilege(tools);
    push_str(&mut privilege, chosen.as_str());
    push_str(&mut privilege, ")");
    let language = if setting_is_auto(cfg.general.language.as_str()) {
        let args = vec![copy_str(i18n.current())];
        assert(Seq::new(args@.len(), |i: int| args@[i]@) =~= seq![args@[0]@]);
        i18n.tf("auto ({})", args.as_slice())
    } else {
        cfg.general.language.clone()
    };
    assert(language@ == language_value(*cfg, i18n.lang@, t));
    let r = vec![
        ("check_updates", i18n.t("Check for a newer Sanae at start"), on_off_text(cfg.general.check_updates, i18n)),
        ("self_update", i18n.t("Update Sanae now"), release),
        ("aur_helper", i18n.t("AUR helper"), helper),
        ("privilege", i18n.t("Administrator tool"), privilege),
        ("nerd_font", i18n.t("Nerd Font marks"), on_off_text(cfg.theme.nerd_font, i18n)),
        ("language", i18n.t("Language"), language),
    ];
    proof {
        reveal_strlit("check_updates");
        reveal_strlit("self_update");
        reveal_strlit("aur_helper");
        reveal_strlit("privilege");
        reveal_strlit("nerd_font");
        reveal_strlit("language");
    }
    assert(row_views(r@) =~= settings_view(
        *cfg,
        *tools,
        match new_release {
            Some(tag) => Some(tag@),
            None => None,
        },
        i18n.lang@,
        t,
    ));
    r
}

/// The settings rows whose press changes the configuration.
pub open spec fn is_setting_id(id: Seq<char>) -> bool {
    ||| id == "check_updates"@
    ||| id == "aur_helper"@
    ||| id == "privilege"@
    ||| id == "nerd_font"@
    ||| id == "language"@
}

/// Applies a press on the settings row `id` to the configuration: the two
/// switches turn over, the helper, privilege tool and language move to the
/// next choice, and nothing else changes. Whether the row is one of those.
pub fn change_setting(cfg: &mut Config, id: &str) -> (r: bool)
    ensures
        r == is_setting_id(id@),
        final(cfg).general.check_updates == (if id@ == "check_updates"@ {
            !old(cfg).general.check_updates
        } else {
            old(cfg).general.check_updates
        }),
        final(cfg).general.aur_helper@ == (if id@ == "aur_helper"@ {
            next_helper(old(cfg).general.aur_helper@)
        } else {
            old(cfg).general.aur_helper@
        }),
        final(cfg).general.privilege@ == (if id@ == "privilege"@ {
            next_privilege(old(cfg).general.privilege@)
        } else {
            old(cfg).general.privilege@
        }),
        final(cfg).theme.nerd_font == (if id@ == "nerd_font"@ {
            !old(cfg).theme.nerd_font
        } else {
            old(cfg).theme.nerd_font
        }),
        final(cfg).general.language@ == (if id@ == "language"@ {
            next_language(old(cfg).general.language@)
        } else {
            old(cfg).general.language@
        }),
        final(cfg).general.confirm == old(cfg).general.confirm,
        final(cfg).theme.accent@ == old(cfg).theme.accent@,
        final(cfg).theme.accent2@ == old(cfg).theme.accent2@,
{
    proof {
        reveal_strlit("check_updates");
        reveal_strlit("aur_helper");
        reveal_strlit("privilege");
        reveal_strlit("nerd_font");
        reveal_strlit("language");
        let ids = seq!["check_updates"@, "aur_helper"@, "privilege"@, "nerd_font"@, "language"@];
        assert(ids[2] != ids[3]) by { assert(ids[2][0] != ids[3][0]); }
        assert forall|a: int, b: int| 0 <= a < b < 5 && !(a == 2 && b == 3) implies ids[a] != ids[b] by {
            assert(ids[a].len() != ids[b].len());
        }
    }
    if str_eq(id, "check_updates") {
        cfg.general.check_updates = !cfg.general.check_updates;
        true
    } else if str_eq(id, "aur_helper") {
        cfg.general.aur_helper = copy_str(cycle_aur_helper(cfg.general.aur_helper.as_str()));
        true
    } else if str_eq(id, "privilege") {
        cfg.general.privilege = copy_str(cycle_privilege(cfg.general.privilege.as_str()));
        true
    } else if str_eq(id, "nerd_font") {
        cfg.theme.nerd_font = !cfg.theme.nerd_font;
        true
    } else if str_eq(id, "language") {
        cfg.general.language = copy_str(cycle_language(cfg.general.language.as_str()));
        true
    } else {
        false
    }
}

// --------------------------------------------------------------- shelves

/// The shelves before the regular ones: one, "Featured".
pub open spec fn shelf_label(i: int) -> Seq<char> {
    if i == 0 {
        "Featured"@
    } else if i <= shelves().len() {
        shelves()[i - 1].0
    } else {
        "Darkside"@
    }
}

/// The shelf's name; every Darkside shelf answers "Darkside".
pub fn shelf_name(i: usize) -> (r: &'static str)
    ensures
        r@ == shelf_label(i as int),
{
    if i == 0 {
        return "Featured";
    }
    let all = shelf_list();
    if i <= all.len() {
        all[i - 1].0
    } else {
        "Darkside"
    }
}

/// How many shelves there are: Featured, the regular ones, the Darkside ones.
pub fn shelf_count(dark: usize) -> (r: usize)
    requires
        dark + 10 <= usize::MAX,
    ensures
        r == shelves().len() + 1 + dark,
{
    10 + dark
}

/// The Darkside group behind shelf `sel`, if it is one.
pub fn dark_shelf(sel: usize, dark: usize) -> (r: Option<usize>)
    ensures
        match r {
            Some(d) => sel >= shelves().len() + 1 && d == sel - shelves().len() - 1 && d < dark,
            None => sel < shelves().len() + 1 || sel - shelves().len() - 1 >= dark,
        },
{
    if sel < 10 {
        None
    } else if sel - 10 < dark {
        Some(sel - 10)
    } else {
        None
    }
}

// ----------------------------------------------------------------- queue

/// What marking a package for install means: removing it when it is
/// installed already.
pub open spec fn marked_action(action: Action, installed: bool) -> Action {
    if action == Action::Install && installed {
        Action::Remove
    } else {
        action
    }
}

pub fn mark_action(action: Action, installed: bool) -> (r: Action)
    ensures
        r == marked_action(action, installed),
{
    if action == Action::Install && installed {
        Action::Remove
    } else {
        action
    }
}

/// Packages that the AUR helper handles: AUR ones and local builds.
pub fn handled_by_helper(source: &Source) -> (r: bool)
    ensures
        r == (*source is Aur || *source is Local),
{
    match source {
        Source::Aur => true,
        Source::Local => true,
        Source::Repo(_) => false,
    }
}

/// Where the selection goes when the list under it is rebuilt: to the row of
/// the name it was on, when the new list still has it (its first row).
pub open spec fn kept_selection(names: Seq<Seq<char>>, name: Seq<char>) -> Option<int>
    decreases names.len(),
{
    if names.len() == 0 {
        None
    } else {
        match kept_selection(names.drop_last(), name) {
            Some(i) => Some(i),
            None => if names.last() == name { Some(names.len() - 1) } else { None },
        }
    }
}

/// The row of `name` in the rebuilt list `names`, if it is still there.
pub fn keep_selection(names: &Vec<String>, name: &str) -> (r: Option<usize>)
    ensures
        match r {
            Some(i) => kept_selection(string_views(names@), name@) == Some(i as int),
            None => kept_selection(string_views(names@), name@) is None,
        },
{
    let ghost nv = string_views(names@);
    let mut i: usize = 0;
    while i < names.len()
        invariant
            nv == string_views(names@),
            i <= names@.len(),
            kept_selection(nv.take(i as int), name@) is None,
        decreases names@.len() - i,
    {
        assert(nv.take(i + 1).drop_last() =~= nv.take(i as int));
        if str_eq(names[i].as_str(), name) {
            proof {
                lemma_kept_prefix(nv, name@, i as int + 1);
            }
            return Some(i);
        }
        i = i + 1;
    }
    assert(nv.take(i as int) =~= nv);
    None
}

proof fn lemma_kept_prefix(v: Seq<Seq<char>>, name: Seq<char>, n: int)
    requires
        0 < n <= v.len(),
        kept_selection(v.take(n - 1), name) is None,
        v[n - 1] == name,
    ensures
        kept_selection(v, name) == Some(n - 1),
    decreases v.len() - n,
{
    let t = v.take(n);
    assert(t.drop_last() =~= v.take(n - 1));
    assert(t.last() == name);
    assert(kept_selection(t, name) == Some(n - 1));
    if n == v.len() {
        assert(t =~= v);
    } else {
        lemma_kept_extends(v, name, n, n - 1);
    }
}

proof fn lemma_kept_extends(v: Seq<Seq<char>>, name: Seq<char>, n: int, m: int)
    requires
        0 < n <= v.len(),
        kept_selection(v.take(n), name) == Some(m),
    ensures
        kept_selection(v, name) == Some(m),
    decreases v.len() - n,
{
    if n < v.len() {
        let t = v.take(n + 1);
        assert(t.drop_last() =~= v.take(n));
        assert(kept_selection(t, name) == Some(m));
        lemma_kept_extends(v, name, n + 1, m);
    } else {
        assert(v.take(n) =~= v);
    }
}

// ------------------------------------------------------- installed tab

/// Whether the Installed tab lists `p` under filter `f`. Orphans come from
/// pacman, not from the index, so no package of the index passes that one.
pub open spec fn filter_keeps(p: crate::model::Package, f: InstalledFilter) -> bool {
    match p.installed {
        None => false,
        Some(i) => match f {
            InstalledFilter::All => true,
            InstalledFilter::Explicit => i.explicit,
            InstalledFilter::Dependencies => !i.explicit,
            InstalledFilter::Foreign => p.source is Aur || p.source is Local,
            InstalledFilter::Orphans => false,
        },
    }
}

/// The names of the packages that pass `f`, in index order.
pub open spec fn kept_names(pkgs: Seq<crate::model::Package>, f: InstalledFilter) -> Seq<Seq<char>>
    decreases pkgs.len(),
{
    if pkgs.len() == 0 {
        Seq::empty()
    } else {
        let rest = kept_names(pkgs.drop_last(), f);
        if filter_keeps(pkgs.last(), f) {
            rest.push(pkgs.last().name@)
        } else {
            rest
        }
    }
}

/// The names the Installed tab lists under `filter`, sorted. Under Orphans
/// the list is `orphans`, and `None` while pacman has not been asked yet.
pub fn installed_names(index: &Index, filter: InstalledFilter, orphans: &Option<Vec<String>>) -> (r: Option<Vec<String>>)
    ensures
        filter == InstalledFilter::Orphans ==> match orphans {
            None => r is None,
            Some(o) => r is Some && string_views(r->0@).to_multiset() == string_views(o@).to_multiset(),
        },
        filter != InstalledFilter::Orphans ==> r is Some && string_views(r->0@).to_multiset() == kept_names(index@, filter).to_multiset(),
        r matches Some(v) ==> strings_sorted(string_views(v@)),
{
    if filter == InstalledFilter::Orphans {
        return match orphans {
            None => None,
            Some(o) => Some(sort_names(o.clone())),
        };
    }
    let mut names: Vec<String> = Vec::new();
    let mut i: usize = 0;
    while i < index.packages.len()
        invariant
            i <= index@.len(),
            string_views(names@) == kept_names(index@.take(i as int), filter),
        decreases index@.len() - i,
    {
        let p = &index.packages[i];
        assert(index@.take(i + 1).drop_last() =~= index@.take(i as int));
        let keep = match &p.installed {
            None => false,
            Some(inst) => match filter {
                InstalledFilter::All => true,
                InstalledFilter::Explicit => inst.explicit,
                InstalledFilter::Dependencies => !inst.explicit,
                InstalledFilter::Foreign => handled_by_helper(&p.source),
                InstalledFilter::Orphans => false,
            },
        };
        if keep {
            names.push(p.name.clone());
            assert(string_views(names@) =~= kept_names(index@.take(i as int), filter).push(p.name@));
        }
        i = i + 1;
    }
    assert(index@.take(index@.len() as int) =~= index@);
    Some(sort_names(names))
}

// ------------------------------------------------------------ run screen

/// How many output lines the run screen keeps.
pub const MAX_LINES: usize = 2000;

/// The last `MAX_LINES` of some lines.
pub open spec fn capped(l: Seq<Seq<char>>) -> Seq<Seq<char>> {
    if l.len() > MAX_LINES {
        l.skip(l.len() - MAX_LINES)
    } else {
        l
    }
}

/// A sequence of commands being run, shown full screen.
#[derive(Debug)]
pub struct RunScreen {
    pub title: String,
    pub steps: Vec<Step>,
    /// The step running or last run.
    pub current: usize,
    pub lines: Vec<String>,
    /// The unfinished line (progress bars redraw it).
    pub partial: String,
    pub finished: bool,
    pub failed: bool,
}

/// The run screen's state as values: current step, lines, partial line,
/// finished, failed.
pub type RunView = (nat, Seq<Seq<char>>, Seq<char>, bool, bool);

/// The state after one event of the running command, and whether the next
/// step is to be started: a line is kept (the last `MAX_LINES`), a partial
/// line replaces the previous one, the end of a step fails the run on a
/// non-zero code and otherwise moves on or finishes.
pub open spec fn after_event(st: RunView, steps: nat, ev: EventView) -> (RunView, bool) {
    match ev {
        EventView::Line(l) => ((st.0, capped(st.1.push(l)), Seq::empty(), st.3, st.4), false),
        EventView::Partial(p) => ((st.0, st.1, p, st.3, st.4), false),
        EventView::Done(code) => if code != 0 {
            ((st.0, st.1.push("✖ exited with "@ + decimal_i64(code as i64)), Seq::empty(), true, true), false)
        } else if st.0 + 1 < steps {
            ((st.0 + 1, st.1, Seq::empty(), st.3, st.4), true)
        } else {
            ((st.0, st.1.push("✔ done"@), Seq::empty(), true, st.4), false)
        },
    }
}

/// The header lines of a step: its title and its command line.
pub open spec fn step_header(s: StepView) -> Seq<Seq<char>> {
    seq!["▸ "@ + s.0, "  $ "@ + crate::queue::command_line(s.1, s.2)]
}

impl RunScreen {
    pub open spec fn state(&self) -> RunView {
        (self.current as nat, string_views(self.lines@), self.partial@, self.finished, self.failed)
    }

    /// A run of these steps, or none when there is nothing to run.
    pub fn start(title: &str, steps: Vec<Step>) -> (r: Option<Self>)
        ensures
            steps@.len() == 0 ==> r is None,
            steps@.len() > 0 ==> (r matches Some(run) && run.title@ == title@ && run.steps@ == steps@
                && run.state() == (0nat, Seq::<Seq<char>>::empty(), Seq::<char>::empty(), false, false)),
    {
        if steps.len() == 0 {
            return None;
        }
        let run = RunScreen {
            title: copy_str(title),
            steps,
            current: 0,
            lines: Vec::new(),
            partial: String::new(),
            finished: false,
            failed: false,
        };
        assert(string_views(run.lines@) =~= Seq::<Seq<char>>::empty());
        Some(run)
    }

    /// Shows which step starts: its title and command line.
    pub fn show_step(&mut self)
        requires
            old(self).current < old(self).steps@.len(),
        ensures
            final(self).steps@ == old(self).steps@,
            final(self).state() == (old(self).state().0, old(self).state().1 + step_header(
                old(self).steps@[old(self).current as int]@,
            ), old(self).state().2, old(self).state().3, old(self).state().4),
            final(self).title@ == old(self).title@,
    {
        let mut head = copy_str("▸ ");
        push_str(&mut head, self.steps[self.current].title.as_str());
        let mut cmd = copy_str("  $ ");
        push_str(&mut cmd, self.steps[self.current].command_line().as_str());
        let ghost before = self.lines@;
        self.lines.push(head);
        self.lines.push(cmd);
        assert(string_views(self.lines@) =~= string_views(before) + step_header(
            self.steps@[self.current as int]@,
        ));
    }

    /// The step could not be started: the run ends, failed.
    pub fn start_failed(&mut self, err: &str)
        ensures
            final(self).title@ == old(self).title@,
            final(self).steps@ == old(self).steps@,
            final(self).state() == (old(self).state().0, old(self).state().1.push("✖ "@ + err@),
                old(self).state().2, true, true),
    {
        let mut m = copy_str("✖ ");
        push_str(&mut m, err);
        let ghost before = self.lines@;
        let ghost mv = m@;
        self.lines.push(m);
        assert(string_views(self.lines@) =~= string_views(before).push(mv));
        self.finished = true;
        self.failed = true;
    }

    /// Takes in an event of the running command; true when the next step
    /// is to be started.
    pub fn on_event(&mut self, ev: ExecEvent) -> (next: bool)
        requires
            old(self).current < old(self).steps@.len(),
        ensures
            final(self).steps@ == old(self).steps@,
            final(self).title@ == old(self).title@,
            (final(self).state(), next) == after_event(old(self).state(), old(self).steps@.len(), ev@),
            final(self).current < final(self).steps@.len(),
    {
        match ev {
            ExecEvent::Line(l) => {
                self.partial = String::new();
                let ghost before = string_views(self.lines@);
                let ghost lv = l@;
                self.lines.push(l);
                assert(string_views(self.lines@) =~= before.push(lv));
                let ghost pushed = string_views(self.lines@);
                while self.lines.len() > MAX_LINES
                    invariant
                        self.steps@ == old(self).steps@,
                        self.title@ == old(self).title@,
                        self.partial@ == Seq::<char>::empty(),
                        self.current == old(self).current,
                        self.finished == old(self).finished,
                        self.failed == old(self).failed,
                        pushed.len() >= self.lines@.len(),
                        string_views(self.lines@) == pushed.skip(pushed.len() - self.lines@.len()),
                        self.lines@.len() >= MAX_LINES || self.lines@.len() == pushed.len(),
                    decreases self.lines@.len(),
                {
                    let ghost before = string_views(self.lines@);
                    self.lines.remove(0);
                    assert(string_views(self.lines@) =~= before.skip(1));
                    assert(pushed.skip(pushed.len() - self.lines@.len()) =~= before.skip(1));
                }
                assert(string_views(self.lines@) =~= capped(pushed));
                false
            },
            ExecEvent::Partial(p) => {
                self.partial = p;
                false
            },
            ExecEvent::Done(code) => {
                self.partial = String::new();
                if code != 0 {
                    let mut m = copy_str("✖ exited with ");
                    push_str(&mut m, i64_to_string(code as i64).as_str());
                    let ghost before = string_views(self.lines@);
                    let ghost mv = m@;
                    self.lines.push(m);
                    assert(string_views(self.lines@) =~= before.push(mv));
                    self.failed = true;
                    self.finished = true;
                    false
                } else if self.current < self.steps.len() - 1 {
                    self.current = self.current + 1;
                    true
                } else {
                    let ghost before = string_views(self.lines@);
                    self.lines.push(copy_str("✔ done"));
                    assert(string_views(self.lines@) =~= before.push("✔ done"@));
                    self.finished = true;
                    false
                }
            },
        }
    }

    /// Closing the screen: after a run that did not fail, the queue is done
    /// with and is cleared.
    pub fn clears_queue(&self) -> (r: bool)
        ensures
            r == !self.failed,
    {
        !self.failed
    }
}

// -------------------------------------------------------------- installed

/// Strings sorted (no one before a smaller one).
pub open spec fn strings_sorted(v: Seq<Seq<char>>) -> bool {
    forall|i: int, j: int| 0 <= i < j < v.len() ==> !crate::text::seq_less(#[trigger] v[j], #[trigger] v[i])
}

/// Sorts names (`[String]::sort`).
pub fn sort_names(v: Vec<String>) -> (r: Vec<String>)
    ensures
        strings_sorted(string_views(r@)),
        string_views(r@).to_multiset() == string_views(v@).to_multiset(),
{
    let mut out: Vec<String> = Vec::new();
    let mut rest = v;
    let ghost all = string_views(rest@);
    let mut i: usize = 0;
    let n = rest.len();
    assert(string_views(out@) =~= all.take(0));
    while i < n
        invariant
            n == all.len(),
            i <= n,
            string_views(rest@) == all.skip(i as int),
            strings_sorted(string_views(out@)),
            string_views(out@).to_multiset() == all.take(i as int).to_multiset(),
        decreases n - i,
    {
        let ghost old_rest = rest@;
        assert(string_views(old_rest).len() == old_rest.len());
        let x = rest.remove(0);
        assert(all[i as int] == x@) by {
            assert(all.skip(i as int)[0] == all[i as int]);
            assert(string_views(old_rest)[0] == old_rest[0]@);
        }
        assert(string_views(rest@) =~= all.skip(i + 1)) by {
            assert(rest@ == old_rest.remove(0));
            assert forall|j: int| 0 <= j < rest@.len() implies string_views(rest@)[j] == all.skip(i + 1)[j] by {
                assert(string_views(old_rest)[j + 1] == old_rest[j + 1]@);
            }
        }
        let ghost ov = string_views(out@);
        let mut k: usize = 0;
        while k < out.len() && !crate::text::str_less(x.as_str(), out[k].as_str())
            invariant
                ov == string_views(out@),
                k <= out@.len(),
                forall|j: int| 0 <= j < k ==> !crate::text::seq_less(x@, #[trigger] ov[j]),
            decreases out@.len() - k,
        {
            k = k + 1;
        }
        let ghost xv = x@;
        out.insert(k, x);
        proof {
            assert(string_views(out@) =~= ov.insert(k as int, xv));
            let nv = string_views(out@);
            assert forall|a: int, b: int| 0 <= a < b < nv.len() implies !crate::text::seq_less(
                #[trigger] nv[b],
                #[trigger] nv[a],
            ) by {
                if b < k {
                    assert(nv[a] == ov[a] && nv[b] == ov[b]);
                } else if a > k {
                    assert(nv[a] == ov[a - 1] && nv[b] == ov[b - 1]);
                } else if a == k {
                    let y = ov[b - 1];
                    let z = ov[k as int];
                    assert(crate::text::seq_less(xv, z));
                    crate::text::lemma_less_total(z, y);
                    if crate::text::seq_less(z, y) {
                        crate::text::lemma_less_transitive(xv, z, y);
                    }
                    crate::text::lemma_less_total(xv, y);
                } else if b == k {
                    assert(nv[a] == ov[a]);
                } else {
                    assert(nv[a] == ov[a] && nv[b] == ov[b - 1]);
                }
            }
            vstd::seq_lib::to_multiset_insert(ov, k as int, xv);
            assert(all.take(i + 1) =~= all.take(i as int).push(xv));
            vstd::seq_lib::to_multiset_build(all.take(i as int), xv);
        }
        i = i + 1;
    }
    assert(all.take(i as int) =~= all);
    out
}


// ------------------------------------------------------------------ laws

/// The AUR helper and administrator tool settings come back to where they
/// were after three presses: auto, paru, yay; auto, sudo, doas.
pub proof fn law_settings_cycle()
    ensures
        next_helper(next_helper(next_helper("auto"@))) == "auto"@,
        next_helper(next_helper(next_helper("paru"@))) == "paru"@,
        next_helper(next_helper(next_helper("yay"@))) == "yay"@,
        next_privilege(next_privilege(next_privilege("auto"@))) == "auto"@,
        next_privilege(next_privilege(next_privilege("sudo"@))) == "sudo"@,
        next_privilege(next_privilege(next_privilege("doas"@))) == "doas"@,
{
    reveal_strlit("auto");
    reveal_strlit("paru");
    reveal_strlit("yay");
    reveal_strlit("sudo");
    reveal_strlit("doas");
    assert("paru"@ != "auto"@) by { assert("paru"@[0] != "auto"@[0]); }
    assert("yay"@ != "auto"@) by { assert("yay"@.len() != "auto"@.len()); }
    assert("yay"@ != "paru"@) by { assert("yay"@.len() != "paru"@.len()); }
    assert("sudo"@ != "auto"@) by { assert("sudo"@[0] != "auto"@[0]); }
    assert("doas"@ != "auto"@) by { assert("doas"@[0] != "auto"@[0]); }
    assert("doas"@ != "sudo"@) by { assert("doas"@[0] != "sudo"@[0]); }
}

/// The detail tabs come back round after four presses.
pub proof fn law_detail_tabs_cycle(t: DetailTab)
    ensures
        detail_next(detail_next(detail_next(detail_next(t)))) == t,
{
}

/// A move never leaves a list that has rows.
pub proof fn law_selection_stays_in_list(sel: int, delta: int, len: int)
    requires
        len > 0,
    ensures
        0 <= moved(sel, delta, len) < len,
{
}

/// Across the events of a run, the step shown stays one of the steps, a
/// failed run is a finished one, and a next step starts only after the one
/// before exited with 0.
pub proof fn law_run_screen_invariants(st: RunView, steps: nat, ev: EventView)
    requires
        st.0 < steps,
        st.4 ==> st.3,
    ensures
        after_event(st, steps, ev).0.0 < steps,
        after_event(st, steps, ev).0.4 ==> after_event(st, steps, ev).0.3,
        after_event(st, steps, ev).1 ==> ev == EventView::Done(0),
{
}

/// The installed-package filters come back round after five presses of `f`.
pub proof fn law_filters_cycle(f: InstalledFilter)
    ensures
        filter_next(filter_next(filter_next(filter_next(filter_next(f))))) == f,
{
}

/// On a tab, the number keys open the tab at that place in the tab bar:
/// `1` the first, `7` the last.
pub proof fn law_number_keys_open_tabs(st: KeyState, t: Tab)
    requires
        !st.run_open,
        !st.help,
        !(st.tab == Tab::Search && st.typing),
    ensures
        key_command_spec(st, Key::Char(digit_char(tab_index(t) + 1)), false) == Command::SwitchTab(t),
        all_tabs()[tab_index(t) as int] == t,
{
}

/// Outside the run screen and the help, Ctrl-C and Ctrl-Q quit, whatever
/// the tab and whether the search field is typing.
pub proof fn law_ctrl_c_quits(st: KeyState)
    requires
        !st.run_open,
        !st.help,
    ensures
        key_command_spec(st, Key::Char('c'), true) == Command::Quit,
        key_command_spec(st, Key::Char('q'), true) == Command::Quit,
{
}

/// While a command runs, the keys typed go to it, and Ctrl-C stops it.
pub proof fn law_running_command_gets_keys(st: KeyState, c: char)
    requires
        st.run_open,
        !st.run_finished,
    ensures
        key_command_spec(st, Key::Char(c), false) == Command::Send(c),
        key_command_spec(st, Key::Char('c'), true) == Command::Interrupt,
{
}

/// While the search field is typing, a plain character goes into the query.
pub proof fn law_typing_takes_characters(st: KeyState, c: char)
    requires
        !st.run_open,
        !st.help,
        st.tab == Tab::Search,
        st.typing,
    ensures
        key_command_spec(st, Key::Char(c), false) == Command::TypeChar(c),
{
}


// -------------------------------------------------------------- darkside

/// The synthetic Darkside group of defensive and detection tools from any
/// repository (blue and red together, what Kali calls Purple).
pub const PURPLE_GROUP: &'static str = "purple team";

/// Its tools.
pub open spec fn purple_tools() -> Seq<Seq<char>> {
    seq![
        "suricata"@, "zeek"@, "yara"@, "osquery"@, "velociraptor"@, "wazuh-agent"@, "lynis"@,
        "rkhunter"@, "chkrootkit"@, "clamav"@, "fail2ban"@, "crowdsec"@, "wireshark-qt"@,
        "arkime"@, "volatility3"@, "sleuthkit"@, "autopsy"@, "chainsaw"@, "hayabusa"@,
        "sigma-cli"@,
    ]
}

pub fn purple_tool_list() -> (r: Vec<&'static str>)
    ensures
        r@.len() == purple_tools().len(),
        forall|i: int| 0 <= i < r@.len() ==> (#[trigger] r@[i])@ == purple_tools()[i],
{
    let r = vec![
        "suricata", "zeek", "yara", "osquery", "velociraptor", "wazuh-agent", "lynis", "rkhunter",
        "chkrootkit", "clamav", "fail2ban", "crowdsec", "wireshark-qt", "arkime", "volatility3",
        "sleuthkit", "autopsy", "chainsaw", "hayabusa", "sigma-cli",
    ];
    r
}

/// How many purple tools the index has, among the first `n`.
pub open spec fn purple_count(pkgs: Seq<crate::model::Package>, n: int) -> nat
    decreases n,
{
    if n <= 0 {
        0
    } else {
        purple_count(pkgs, n - 1) + if crate::index::find_name(pkgs, purple_tools()[n - 1]) is Some {
            1nat
        } else {
            0nat
        }
    }
}

/// The group prefix BlackArch uses.
pub open spec fn dark_prefix() -> Seq<char> {
    "blackarch-"@
}

/// A package of the BlackArch repository.
pub open spec fn from_blackarch(p: crate::model::Package) -> bool {
    p.source matches Source::Repo(r) && r@ == "blackarch"@
}

/// The group names of BlackArch's `blackarch-` groups, without the prefix.
pub open spec fn stripped_groups(gs: Seq<Seq<char>>) -> Seq<Seq<char>>
    decreases gs.len(),
{
    if gs.len() == 0 {
        Seq::empty()
    } else {
        stripped_groups(gs.drop_last()) + if crate::text::has_prefix(gs.last(), dark_prefix()) {
            seq![gs.last().skip(dark_prefix().len() as int)]
        } else {
            Seq::<Seq<char>>::empty()
        }
    }
}

/// Every time a BlackArch package names a `blackarch-` group: the group's
/// name, in index order.
pub open spec fn dark_names(pkgs: Seq<crate::model::Package>) -> Seq<Seq<char>>
    decreases pkgs.len(),
{
    if pkgs.len() == 0 {
        Seq::empty()
    } else {
        dark_names(pkgs.drop_last()) + if from_blackarch(pkgs.last()) {
            stripped_groups(string_views(pkgs.last().groups@))
        } else {
            Seq::<Seq<char>>::empty()
        }
    }
}

/// Names with how often they occur: strictly in order, each counted as
/// often as it occurs, every one of them there.
pub open spec fn is_tally(names: Seq<Seq<char>>, t: Seq<(Seq<char>, nat)>) -> bool {
    &&& forall|i: int, j: int| 0 <= i < j < t.len() ==> crate::text::seq_less(#[trigger] t[i].0, #[trigger] t[j].0)
    &&& forall|k: int| 0 <= k < t.len() ==> (#[trigger] t[k]).1 == names.to_multiset().count(t[k].0) && t[k].1 > 0
    &&& forall|x: Seq<char>| names.to_multiset().count(x) > 0 ==> exists|k: int| 0 <= k < t.len() && (#[trigger] t[k]).0 == x
}

pub open spec fn tally_view(t: Seq<(String, usize)>) -> Seq<(Seq<char>, nat)> {
    Seq::new(t.len(), |i: int| (t[i].0@, t[i].1 as nat))
}

fn is_blackarch(p: &crate::model::Package) -> (r: bool)
    ensures
        r == from_blackarch(*p),
{
    match &p.source {
        Source::Repo(r) => str_eq(r.as_str(), "blackarch"),
        _ => false,
    }
}

/// Every `blackarch-` group named by a BlackArch package, without the prefix.
pub fn dark_group_names(index: &Index) -> (r: Vec<String>)
    ensures
        string_views(r@) == dark_names(index@),
{
    proof {
        reveal_strlit("blackarch-");
    }
    let mut out: Vec<String> = Vec::new();
    let mut i: usize = 0;
    while i < index.packages.len()
        invariant
            i <= index@.len(),
            string_views(out@) == dark_names(index@.take(i as int)),
            dark_prefix().len() == 10,
        decreases index@.len() - i,
    {
        let p = &index.packages[i];
        assert(index@.take(i + 1).drop_last() =~= index@.take(i as int));
        assert(index@.take(i + 1).last() == *p);
        let ghost start = string_views(out@);
        if is_blackarch(p) {
            let ghost gv = string_views(p.groups@);
            let mut j: usize = 0;
            assert(gv.take(0) =~= Seq::<Seq<char>>::empty());
            assert(start + stripped_groups(gv.take(0)) =~= start);
            while j < p.groups.len()
                invariant
                    gv == string_views(p.groups@),
                    j <= p.groups@.len(),
                    string_views(out@) == start + stripped_groups(gv.take(j as int)),
                    dark_prefix().len() == 10,
                decreases p.groups@.len() - j,
            {
                assert(gv.take(j + 1).drop_last() =~= gv.take(j as int));
                assert(gv.take(j + 1).last() == p.groups@[j as int]@);
                let g = p.groups[j].as_str();
                let ghost before = string_views(out@);
                if crate::text::starts_with_str(g, "blackarch-") {
                    let v = crate::text::to_chars(g);
                    let name = crate::text::string_of(&v, 10, v.len());
                    assert(name@ =~= g@.skip(10));
                    out.push(name);
                    assert(string_views(out@) =~= before.push(g@.skip(10)));
                    assert(string_views(out@) =~= start + stripped_groups(gv.take(j + 1)));
                } else {
                    assert(start + stripped_groups(gv.take(j + 1)) =~= start + stripped_groups(gv.take(j as int)));
                }
                j = j + 1;
            }
            assert(gv.take(j as int) =~= gv);
        } else {
            assert(start + Seq::<Seq<char>>::empty() =~= start);
        }
        i = i + 1;
    }
    assert(index@.take(i as int) =~= index@);
    out
}

/// Sorted names counted: each name once, with how often it occurs.
#[verifier::spinoff_prover]
pub fn run_lengths(s: Vec<String>) -> (r: Vec<(String, usize)>)
    requires
        strings_sorted(string_views(s@)),
    ensures
        is_tally(string_views(s@), tally_view(r@)),
{
    broadcast use vstd::seq_lib::to_multiset_build, vstd::seq_lib::to_multiset_contains;

    let ghost sv = string_views(s@);
    let mut t: Vec<(String, usize)> = Vec::new();
    let mut i: usize = 0;
    assert(sv.take(0) =~= Seq::<Seq<char>>::empty());
    while i < s.len()
        invariant
            sv == string_views(s@),
            strings_sorted(sv),
            i <= s@.len(),
            is_tally(sv.take(i as int), tally_view(t@)),
            i > 0 ==> t@.len() > 0 && t@.last().0@ == sv[i - 1],
            forall|k: int| 0 <= k < t@.len() ==> (#[trigger] t@[k]).1 <= i,
        decreases s@.len() - i,
    {
        let y = s[i].as_str();
        let ghost pre = sv.take(i as int);
        let ghost post = sv.take(i + 1);
        assert(post =~= pre.push(y@));
        proof {
            vstd::seq_lib::to_multiset_build(pre, y@);
        }
        assert(post.to_multiset() =~= pre.to_multiset().insert(y@));
        let ghost tv = tally_view(t@);
        let n = t.len();
        if n > 0 && str_eq(t[n - 1].0.as_str(), y) {
            let c = t[n - 1].1;
            let name = copy_str(y);
            t.set(n - 1, (name, c + 1));
            proof {
                let nt = tally_view(t@);
                assert forall|a: int, b: int| 0 <= a < b < nt.len() implies crate::text::seq_less(#[trigger] nt[a].0, #[trigger] nt[b].0) by {
                    assert(nt[a].0 == tv[a].0 && nt[b].0 == tv[b].0);
                }
                assert forall|k: int| 0 <= k < nt.len() implies (#[trigger] nt[k]).1 == post.to_multiset().count(nt[k].0) && nt[k].1 > 0 by {
                    if k < n - 1 {
                        assert(nt[k] == tv[k]);
                        assert(crate::text::seq_less(tv[k].0, tv[n - 1].0));
                        crate::text::lemma_less_irreflexive(tv[k].0);
                    }
                }
                assert forall|x: Seq<char>| post.to_multiset().count(x) > 0 implies exists|k: int| 0 <= k < nt.len() && (#[trigger] nt[k]).0 == x by {
                    if x == y@ {
                        assert(nt[n - 1].0 == x);
                    } else {
                        let k = choose|k: int| 0 <= k < tv.len() && (#[trigger] tv[k]).0 == x;
                        assert(nt[k].0 == x);
                    }
                }
            }
        } else {
            proof {
                if i > 0 {
                    let last = sv[i - 1];
                    assert(!crate::text::seq_less(y@, last)) by {
                        assert(sv[i as int] == y@);
                    }
                    crate::text::lemma_less_total(last, y@);
                    assert(crate::text::seq_less(last, y@));
                    assert(pre.to_multiset().count(y@) == 0) by {
                        if pre.to_multiset().count(y@) > 0 {
                            assert(pre.contains(y@));
                            let j = choose|j: int| 0 <= j < pre.len() && pre[j] == y@;
                            if j < i - 1 {
                                assert(!crate::text::seq_less(sv[i - 1], sv[j]));
                            }
                            crate::text::lemma_less_irreflexive(y@);
                        }
                    }
                } else {
                    assert(pre.to_multiset().count(y@) == 0);
                }
            }
            let name = copy_str(y);
            t.push((name, 1));
            proof {
                let nt = tally_view(t@);
                assert(nt =~= tv.push((y@, 1nat)));
                assert forall|a: int, b: int| 0 <= a < b < nt.len() implies crate::text::seq_less(#[trigger] nt[a].0, #[trigger] nt[b].0) by {
                    if b == n {
                        assert(nt[b].0 == y@);
                        if a < n - 1 {
                            assert(crate::text::seq_less(tv[a].0, tv[n - 1].0));
                            crate::text::lemma_less_transitive(tv[a].0, tv[n - 1].0, y@);
                        }
                    } else {
                        assert(nt[a] == tv[a] && nt[b] == tv[b]);
                    }
                }
                assert forall|k: int| 0 <= k < nt.len() implies (#[trigger] nt[k]).1 == post.to_multiset().count(nt[k].0) && nt[k].1 > 0 by {
                    if k < n {
                        assert(nt[k] == tv[k]);
                        assert(tv[k].0 != y@) by {
                            if tv[k].0 == y@ {
                                assert(pre.to_multiset().count(y@) > 0);
                            }
                        }
                    }
                }
                assert forall|x: Seq<char>| post.to_multiset().count(x) > 0 implies exists|k: int| 0 <= k < nt.len() && (#[trigger] nt[k]).0 == x by {
                    if x == y@ {
                        assert(nt[n as int].0 == x);
                    } else {
                        let k = choose|k: int| 0 <= k < tv.len() && (#[trigger] tv[k]).0 == x;
                        assert(nt[k].0 == x);
                    }
                }
            }
        }
        i = i + 1;
    }
    assert(sv.take(i as int) =~= sv);
    t
}

/// How many purple tools the index has.
fn purple_found(index: &Index) -> (r: usize)
    ensures
        r == purple_count(index@, purple_tools().len() as int),
{
    let tools = purple_tool_list();
    let mut n: usize = 0;
    let mut i: usize = 0;
    while i < tools.len()
        invariant
            tools@.len() == purple_tools().len(),
            forall|k: int| 0 <= k < tools@.len() ==> (#[trigger] tools@[k])@ == purple_tools()[k],
            i <= tools@.len(),
            n == purple_count(index@, i as int),
            n <= i,
        decreases tools@.len() - i,
    {
        if index.get(tools[i]).is_some() {
            n = n + 1;
        }
        i = i + 1;
    }
    n
}

/// The Darkside shelves: once BlackArch is enabled, the purple group first
/// (with how many of its tools the index has), then BlackArch's groups by
/// name with how many tools each has; none without BlackArch groups.
pub fn dark_groups(index: &Index) -> (r: Vec<(String, usize)>)
    ensures
        dark_names(index@).len() == 0 ==> r@.len() == 0,
        dark_names(index@).len() > 0 ==> r@.len() > 0 && r@[0].0@ == PURPLE_GROUP@ && r@[0].1 == purple_count(
            index@,
            purple_tools().len() as int,
        ) && is_tally(dark_names(index@), tally_view(r@).skip(1)),
{
    let names = dark_group_names(index);
    if names.len() == 0 {
        return Vec::new();
    }
    let ghost nv = string_views(names@);
    let sorted = sort_names(names);
    let tally = run_lengths(sorted);
    proof {
        let sv = string_views(sorted@);
        assert(sv.to_multiset() == nv.to_multiset());
    }
    let mut r: Vec<(String, usize)> = Vec::new();
    r.push((copy_str(PURPLE_GROUP), purple_found(index)));
    let ghost tv = tally_view(tally@);
    let mut rest = tally;
    r.append(&mut rest);
    assert(tally_view(r@).skip(1) =~= tv);
    r
}


// ----------------------------------------------------------------- store

/// An application the Store can show on a shelf: its package is known, and
/// the Featured shelf shows only what is not installed yet; another shelf
/// shows the applications that belong on it.
pub open spec fn on_store_shelf(app: crate::sources::appstream::AppInfo, pkgs: Seq<crate::model::Package>, shelf: Seq<char>) -> bool {
    match crate::index::find_name(pkgs, app.pkgname@) {
        None => false,
        Some(i) => if shelf == "Featured"@ {
            pkgs[i].installed is None
        } else {
            crate::sources::appstream::shelf_of(crate::sources::appstream::strs(app.categories@)) == shelf
        },
    }
}

/// Where the applications a shelf shows stand in `apps`, in order; the
/// program orders them by popularity.
pub fn store_candidates(apps: &Vec<crate::sources::appstream::AppInfo>, index: &Index, shelf: &str) -> (r: Vec<usize>)
    ensures
        forall|k: int| 0 <= k < r@.len() ==> (#[trigger] r@[k]) < apps@.len() && on_store_shelf(apps@[r@[k] as int], index@, shelf@),
        forall|i: int| 0 <= i < apps@.len() && on_store_shelf(apps@[i], index@, shelf@) ==> r@.contains(i as usize),
        forall|a: int, b: int| 0 <= a < b < r@.len() ==> r@[a] < r@[b],
{
    proof {
        reveal_strlit("Featured");
    }
    let featured = str_eq(shelf, "Featured");
    let mut r: Vec<usize> = Vec::new();
    let mut i: usize = 0;
    while i < apps.len()
        invariant
            featured == (shelf@ == "Featured"@),
            i <= apps@.len(),
            forall|k: int| 0 <= k < r@.len() ==> (#[trigger] r@[k]) < i && on_store_shelf(apps@[r@[k] as int], index@, shelf@),
            forall|j: int| 0 <= j < i && on_store_shelf(apps@[j], index@, shelf@) ==> r@.contains(j as usize),
            forall|a: int, b: int| 0 <= a < b < r@.len() ==> r@[a] < r@[b],
        decreases apps@.len() - i,
    {
        let app = &apps[i];
        let keep = match index.get(app.pkgname.as_str()) {
            None => false,
            Some(p) => if featured {
                p.installed.is_none()
            } else {
                str_eq(app.shelf(), shelf)
            },
        };
        let ghost before = r@;
        if keep {
            r.push(i);
            assert(r@[before.len() as int] == i);
        }
        assert forall|j: int| 0 <= j < i + 1 && on_store_shelf(apps@[j], index@, shelf@) implies r@.contains(j as usize) by {
            if j < i {
                let w = choose|w: int| 0 <= w < before.len() && before[w] == j as usize;
                assert(r@[w] == j as usize);
            } else {
                assert(r@[before.len() as int] == i);
            }
        }
        i = i + 1;
    }
    r
}

/// The tools of a Darkside group: the purple tools the index has, or the
/// packages in the BlackArch group of that name; the program orders them by
/// popularity.
pub open spec fn in_dark_group(p: crate::model::Package, group: Seq<char>) -> bool {
    string_views(p.groups@).contains(dark_prefix() + group)
}

/// The packages in a BlackArch group, in index order.
pub open spec fn group_members(pkgs: Seq<crate::model::Package>, group: Seq<char>) -> Seq<crate::model::Package>
    decreases pkgs.len(),
{
    if pkgs.len() == 0 {
        Seq::empty()
    } else if in_dark_group(pkgs.last(), group) {
        group_members(pkgs.drop_last(), group).push(pkgs.last())
    } else {
        group_members(pkgs.drop_last(), group)
    }
}

pub fn dark_group_members<'a>(index: &'a Index, group: &str) -> (r: Vec<&'a crate::model::Package>)
    ensures
        group@ == PURPLE_GROUP@ ==> crate::commands::derefs(r@) == crate::commands::named(index@, purple_tools()),
        group@ != PURPLE_GROUP@ ==> crate::commands::derefs(r@) == group_members(index@, group@),
{
    let mut r: Vec<&'a crate::model::Package> = Vec::new();
    if str_eq(group, PURPLE_GROUP) {
        let tools = purple_tool_list();
        let ghost pv = purple_tools();
        let mut i: usize = 0;
        assert(pv.take(0) =~= Seq::<Seq<char>>::empty());
        while i < tools.len()
            invariant
                tools@.len() == pv.len(),
                pv == purple_tools(),
                forall|k: int| 0 <= k < tools@.len() ==> (#[trigger] tools@[k])@ == pv[k],
                i <= tools@.len(),
                crate::commands::derefs(r@) == crate::commands::named(index@, pv.take(i as int)),
            decreases tools@.len() - i,
        {
            assert(pv.take(i + 1).drop_last() =~= pv.take(i as int));
            let ghost before = r@;
            match index.get(tools[i]) {
                Some(p) => {
                    r.push(p);
                    assert(crate::commands::derefs(r@) =~= crate::commands::derefs(before).push(*p));
                },
                None => {},
            }
            i = i + 1;
        }
        assert(pv.take(i as int) =~= pv);
        return r;
    }
    proof {
        reveal_strlit("blackarch-");
    }
    let mut full = copy_str("blackarch-");
    push_str(&mut full, group);
    let mut i: usize = 0;
    while i < index.packages.len()
        invariant
            full@ == dark_prefix() + group@,
            i <= index@.len(),
            crate::commands::derefs(r@) == group_members(index@.take(i as int), group@),
        decreases index@.len() - i,
    {
        let p = &index.packages[i];
        assert(index@.take(i + 1).drop_last() =~= index@.take(i as int));
        assert(index@.take(i + 1).last() == *p);
        let ghost before = r@;
        if crate::commands::contains_name(&p.groups, full.as_str()) {
            r.push(p);
            assert(crate::commands::derefs(r@) =~= crate::commands::derefs(before).push(*p));
        }
        i = i + 1;
    }
    assert(index@.take(i as int) =~= index@);
    r
}

} // verus!
