//! AppStream catalog data (`archlinux-appstream-data`): human names, summaries,
//! categories and screenshots for graphical applications. This is what turns a
//! package list into a store.
//!
//! The XML is read into a list of events (see `xml`); what the catalog says
//! is decided here, event by event.

use vstd::prelude::*;

use crate::model::{copy_opt, copy_strings};
use crate::sources::xml::{attr_views, is_name, name_is, opt_view, xml_events, xml_events_of, xml_views, XmlEvent, XmlView};
use crate::text::{copy_str, str_eq, trim, trim_chars, to_chars, string_of_all};

verus! {

broadcast use vstd::string::group_string_axioms;

// ------------------------------------------------------------------ apps

/// One application of the catalog.
#[derive(Debug)]
pub struct AppInfo {
    pub id: String,
    pub pkgname: String,
    pub name: String,
    pub summary: String,
    pub categories: Vec<String>,
    pub keywords: Vec<String>,
    pub license: Option<String>,
    pub homepage: Option<String>,
    pub screenshots: Vec<String>,
}

/// An application as values.
pub struct AppView {
    pub id: Seq<char>,
    pub pkgname: Seq<char>,
    pub name: Seq<char>,
    pub summary: Seq<char>,
    pub categories: Seq<Seq<char>>,
    pub keywords: Seq<Seq<char>>,
    pub license: Option<Seq<char>>,
    pub homepage: Option<Seq<char>>,
    pub screenshots: Seq<Seq<char>>,
}

pub open spec fn strs(v: Seq<String>) -> Seq<Seq<char>> {
    Seq::new(v.len(), |i: int| v[i]@)
}

impl View for AppInfo {
    type V = AppView;

    open spec fn view(&self) -> AppView {
        AppView {
            id: self.id@,
            pkgname: self.pkgname@,
            name: self.name@,
            summary: self.summary@,
            categories: strs(self.categories@),
            keywords: strs(self.keywords@),
            license: opt_view(self.license),
            homepage: opt_view(self.homepage),
            screenshots: strs(self.screenshots@),
        }
    }
}

pub open spec fn app_views(v: Seq<AppInfo>) -> Seq<AppView> {
    Seq::new(v.len(), |i: int| v[i]@)
}

/// An application with nothing known yet.
pub open spec fn blank_app() -> AppView {
    AppView {
        id: Seq::empty(),
        pkgname: Seq::empty(),
        name: Seq::empty(),
        summary: Seq::empty(),
        categories: Seq::empty(),
        keywords: Seq::empty(),
        license: None,
        homepage: None,
        screenshots: Seq::empty(),
    }
}

fn blank() -> (r: AppInfo)
    ensures
        r@ == blank_app(),
{
    let r = AppInfo {
        id: String::new(),
        pkgname: String::new(),
        name: String::new(),
        summary: String::new(),
        categories: Vec::new(),
        keywords: Vec::new(),
        license: None,
        homepage: None,
        screenshots: Vec::new(),
    };
    assert(strs(r.categories@) =~= Seq::<Seq<char>>::empty());
    assert(strs(r.keywords@) =~= Seq::<Seq<char>>::empty());
    assert(strs(r.screenshots@) =~= Seq::<Seq<char>>::empty());
    r
}

impl Clone for AppInfo {
    fn clone(&self) -> (r: Self)
        ensures
            r@ == self@,
    {
        AppInfo {
            id: copy_str(self.id.as_str()),
            pkgname: copy_str(self.pkgname.as_str()),
            name: copy_str(self.name.as_str()),
            summary: copy_str(self.summary.as_str()),
            categories: copy_strings(&self.categories),
            keywords: copy_strings(&self.keywords),
            license: copy_opt(&self.license),
            homepage: copy_opt(&self.homepage),
            screenshots: copy_strings(&self.screenshots),
        }
    }
}

// --------------------------------------------------------------- shelves

/// The store's shelves: label, and the freedesktop categories that land on it.
pub open spec fn shelves() -> Seq<(Seq<char>, Seq<Seq<char>>)> {
    seq![
        ("Internet"@, seq![
            "Network"@, "WebBrowser"@, "Email"@, "Chat"@, "InstantMessaging"@, "FileTransfer"@,
            "P2P"@, "News"@, "Feed"@, "IRCClient"@, "RemoteAccess"@, "VideoConference"@,
        ]),
        ("Multimedia"@, seq![
            "AudioVideo"@, "Audio"@, "Video"@, "Player"@, "Recorder"@, "Music"@, "TV"@,
            "Midi"@, "Mixer"@, "Sequencer"@, "Tuner"@, "AudioVideoEditing"@, "DiscBurning"@,
        ]),
        ("Graphics"@, seq![
            "Graphics"@, "2DGraphics"@, "3DGraphics"@, "Photography"@, "RasterGraphics"@,
            "VectorGraphics"@, "Scanning"@, "OCR"@,
        ]),
        ("Office"@, seq![
            "Office"@, "WordProcessor"@, "Spreadsheet"@, "Presentation"@, "Calendar"@,
            "ContactManagement"@, "Finance"@, "Publishing"@, "ProjectManagement"@,
            "Dictionary"@, "Chart"@,
        ]),
        ("Development"@, seq![
            "Development"@, "IDE"@, "Debugger"@, "RevisionControl"@, "Building"@,
            "GUIDesigner"@, "WebDevelopment"@, "Profiling"@, "Translation"@, "Database"@,
        ]),
        ("Games"@, seq![
            "Game"@, "ActionGame"@, "AdventureGame"@, "ArcadeGame"@, "BoardGame"@,
            "BlocksGame"@, "CardGame"@, "Emulator"@, "KidsGame"@, "LogicGame"@,
            "RolePlaying"@, "Shooter"@, "Simulation"@, "SportsGame"@, "StrategyGame"@,
        ]),
        ("Education"@, seq![
            "Education"@, "Science"@, "Math"@, "Astronomy"@, "Chemistry"@, "Physics"@,
            "Biology"@, "Geography"@, "Geology"@, "Languages"@, "Electronics"@,
            "Engineering"@, "Medical"@, "Robotics"@,
        ]),
        ("System"@, seq![
            "System"@, "Settings"@, "DesktopSettings"@, "HardwareSettings"@,
            "PackageManager"@, "Security"@, "Monitor"@, "Filesystem"@, "TerminalEmulator"@,
            "Printing"@,
        ]),
        ("Utilities"@, seq![
            "Utility"@, "Accessibility"@, "Archiving"@, "Compression"@, "FileManager"@,
            "FileTools"@, "TextEditor"@, "TextTools"@, "Calculator"@, "Clock"@, "Viewer"@,
        ]),
    ]
}

/// The shelves, with their categories.
pub fn shelf_list() -> (r: Vec<(&'static str, Vec<&'static str>)>)
    ensures
        r@.len() == shelves().len(),
        forall|i: int|
            #![trigger r@[i]]
            0 <= i < r@.len() ==> r@[i].0@ == shelves()[i].0 && r@[i].1@.len()
                == shelves()[i].1.len() && forall|j: int|
                0 <= j < r@[i].1@.len() ==> (#[trigger] r@[i].1@[j])@ == shelves()[i].1[j],
{
    let mut r: Vec<(&'static str, Vec<&'static str>)> = Vec::new();
    r.push(("Internet", vec![
        "Network", "WebBrowser", "Email", "Chat", "InstantMessaging", "FileTransfer", "P2P",
        "News", "Feed", "IRCClient", "RemoteAccess", "VideoConference",
    ]));
    r.push(("Multimedia", vec![
        "AudioVideo", "Audio", "Video", "Player", "Recorder", "Music", "TV", "Midi", "Mixer",
        "Sequencer", "Tuner", "AudioVideoEditing", "DiscBurning",
    ]));
    r.push(("Graphics", vec![
        "Graphics", "2DGraphics", "3DGraphics", "Photography", "RasterGraphics",
        "VectorGraphics", "Scanning", "OCR",
    ]));
    r.push(("Office", vec![
        "Office", "WordProcessor", "Spreadsheet", "Presentation", "Calendar",
        "ContactManagement", "Finance", "Publishing", "ProjectManagement", "Dictionary",
        "Chart",
    ]));
    r.push(("Development", vec![
        "Development", "IDE", "Debugger", "RevisionControl", "Building", "GUIDesigner",
        "WebDevelopment", "Profiling", "Translation", "Database",
    ]));
    r.push(("Games", vec![
        "Game", "ActionGame", "AdventureGame", "ArcadeGame", "BoardGame", "BlocksGame",
        "CardGame", "Emulator", "KidsGame", "LogicGame", "RolePlaying", "Shooter",
        "Simulation", "SportsGame", "StrategyGame",
    ]));
    r.push(("Education", vec![
        "Education", "Science", "Math", "Astronomy", "Chemistry", "Physics", "Biology",
        "Geography", "Geology", "Languages", "Electronics", "Engineering", "Medical",
        "Robotics",
    ]));
    r.push(("System", vec![
        "System", "Settings", "DesktopSettings", "HardwareSettings", "PackageManager",
        "Security", "Monitor", "Filesystem", "TerminalEmulator", "Printing",
    ]));
    r.push(("Utilities", vec![
        "Utility", "Accessibility", "Archiving", "Compression", "FileManager", "FileTools",
        "TextEditor", "TextTools", "Calculator", "Clock", "Viewer",
    ]));
    r
}

/// Some category of `cats` is one of `shelf`.
pub open spec fn on_shelf(cats: Seq<Seq<char>>, shelf: Seq<Seq<char>>) -> bool {
    exists|i: int, j: int| 0 <= i < cats.len() && 0 <= j < shelf.len() && cats[i] == shelf[j]
}

/// The first shelf, from `k` on, that holds one of `cats`, or "Other".
pub open spec fn shelf_from(cats: Seq<Seq<char>>, k: int) -> Seq<char>
    decreases shelves().len() - k,
{
    if k < 0 || k >= shelves().len() {
        "Other"@
    } else if on_shelf(cats, shelves()[k].1) {
        shelves()[k].0
    } else {
        shelf_from(cats, k + 1)
    }
}

/// The shelf of an application with these categories.
pub open spec fn shelf_of(cats: Seq<Seq<char>>) -> Seq<char> {
    shelf_from(cats, 0)
}

fn any_on_shelf(cats: &Vec<String>, shelf: &Vec<&'static str>) -> (r: bool)
    ensures
        r == on_shelf(strs(cats@), shelf@.map_values(|s: &'static str| s@)),
{
    let ghost cv = strs(cats@);
    let ghost sv = shelf@.map_values(|s: &'static str| s@);
    let mut i: usize = 0;
    while i < cats.len()
        invariant
            cv == strs(cats@),
            sv == shelf@.map_values(|s: &'static str| s@),
            i <= cats@.len(),
            forall|a: int, b: int| 0 <= a < i && 0 <= b < sv.len() ==> cv[a] != sv[b],
        decreases cats@.len() - i,
    {
        let mut j: usize = 0;
        while j < shelf.len()
            invariant
                cv == strs(cats@),
                sv == shelf@.map_values(|s: &'static str| s@),
                i < cats@.len(),
                j <= shelf@.len(),
                forall|b: int| 0 <= b < j ==> cv[i as int] != sv[b],
            decreases shelf@.len() - j,
        {
            if str_eq(cats[i].as_str(), shelf[j]) {
                assert(cv[i as int] == sv[j as int]);
                return true;
            }
            j = j + 1;
        }
        i = i + 1;
    }
    false
}

impl AppInfo {
    /// The first shelf whose categories this app belongs to, in shelf order.
    pub fn shelf(&self) -> (r: &'static str)
        ensures
            r@ == shelf_of(strs(self.categories@)),
    {
        proof {
            reveal_strlit("Other");
        }
        let all = shelf_list();
        let mut k: usize = 0;
        while k < all.len()
            invariant
                all@.len() == shelves().len(),
                forall|i: int|
                    #![trigger all@[i]]
                    0 <= i < all@.len() ==> all@[i].0@ == shelves()[i].0 && all@[i].1@.len()
                        == shelves()[i].1.len() && forall|j: int|
                        0 <= j < all@[i].1@.len() ==> (#[trigger] all@[i].1@[j])@
                            == shelves()[i].1[j],
                k <= all@.len(),
                shelf_from(strs(self.categories@), k as int) == shelf_of(strs(self.categories@)),
            decreases all@.len() - k,
        {
            let found = any_on_shelf(&self.categories, &all[k as usize].1);
            assert(all@[k as int].1@.map_values(|s: &'static str| s@) =~= shelves()[k as int].1);
            if found {
                return all[k].0;
            }
            k = k + 1;
        }
        "Other"
    }
}

// ------------------------------------------------------------ the reader

/// Which element's text is being collected.
#[derive(Clone, Copy, Debug)]
pub enum Field {
    Unset,
    Id,
    Pkgname,
    Name,
    Summary,
    Category,
    Keyword,
    License,
    Homepage,
    Image,
}

/// Where reading a catalog stands.
pub struct ReadState {
    /// The applications kept so far.
    pub out: Seq<AppView>,
    /// The component being read, if inside one.
    pub cur: Option<AppView>,
    /// It is a desktop application.
    pub is_app: bool,
    pub field: Field,
    /// Inside `<screenshots>`.
    pub shots: bool,
}

pub open spec fn start_state() -> ReadState {
    ReadState { out: Seq::empty(), cur: None, is_app: false, field: Field::Unset, shots: false }
}

/// The value of the first attribute named `k`, from position `i` on.
pub open spec fn attr_from(a: Seq<(Seq<u8>, Option<Seq<char>>)>, k: Seq<char>, i: int) -> Option<Seq<char>>
    decreases a.len() - i,
{
    if i < 0 || i >= a.len() {
        None
    } else if is_name(a[i].0, k) {
        a[i].1
    } else {
        attr_from(a, k, i + 1)
    }
}

/// The value of the first attribute named `k`, where it unescapes.
pub open spec fn attr(a: Seq<(Seq<u8>, Option<Seq<char>>)>, k: Seq<char>) -> Option<Seq<char>> {
    attr_from(a, k, 0)
}

/// Some attribute is named `k`.
pub open spec fn has_attr(a: Seq<(Seq<u8>, Option<Seq<char>>)>, k: Seq<char>) -> bool {
    exists|i: int| 0 <= i < a.len() && is_name(a[i].0, k)
}

/// A component type that makes a desktop application.
pub open spec fn is_app_type(t: Option<Seq<char>>) -> bool {
    let s = match t {
        Some(v) => v,
        None => Seq::<char>::empty(),
    };
    s == "desktop-application"@ || s == "desktop"@
}

/// The field an opening tag inside a component starts; texts in another
/// language than the default one are not collected.
pub open spec fn start_field(st: ReadState, tag: Seq<u8>, a: Seq<(Seq<u8>, Option<Seq<char>>)>) -> Field {
    let lang = has_attr(a, "xml:lang"@);
    if is_name(tag, "id"@) {
        Field::Id
    } else if is_name(tag, "pkgname"@) {
        Field::Pkgname
    } else if is_name(tag, "name"@) && !lang {
        Field::Name
    } else if is_name(tag, "summary"@) && !lang {
        Field::Summary
    } else if is_name(tag, "category"@) {
        Field::Category
    } else if is_name(tag, "keyword"@) && !lang {
        Field::Keyword
    } else if is_name(tag, "project_license"@) {
        Field::License
    } else if is_name(tag, "url"@) && attr(a, "type"@) == Some("homepage"@) {
        Field::Homepage
    } else if is_name(tag, "image"@) && st.shots && attr(a, "type"@) != Some("thumbnail"@) {
        Field::Image
    } else {
        st.field
    }
}

pub open spec fn on_start(st: ReadState, tag: Seq<u8>, a: Seq<(Seq<u8>, Option<Seq<char>>)>) -> ReadState {
    if is_name(tag, "component"@) {
        ReadState { cur: Some(blank_app()), is_app: is_app_type(attr(a, "type"@)), ..st }
    } else if is_name(tag, "screenshots"@) {
        ReadState { shots: true, ..st }
    } else if st.cur is None {
        st
    } else {
        ReadState { field: start_field(st, tag, a), ..st }
    }
}

/// An application with one more text of `field`: single texts keep the first.
pub open spec fn with_text(app: AppView, field: Field, t: Seq<char>) -> AppView {
    match field {
        Field::Id => if app.id.len() == 0 { AppView { id: t, ..app } } else { app },
        Field::Pkgname => if app.pkgname.len() == 0 { AppView { pkgname: t, ..app } } else { app },
        Field::Name => if app.name.len() == 0 { AppView { name: t, ..app } } else { app },
        Field::Summary => if app.summary.len() == 0 { AppView { summary: t, ..app } } else { app },
        Field::Category => AppView { categories: app.categories.push(t), ..app },
        Field::Keyword => AppView { keywords: app.keywords.push(t), ..app },
        Field::License => if app.license is None { AppView { license: Some(t), ..app } } else { app },
        Field::Homepage => if app.homepage is None { AppView { homepage: Some(t), ..app } } else { app },
        Field::Image => AppView { screenshots: app.screenshots.push(t), ..app },
        Field::Unset => app,
    }
}

pub open spec fn on_text(st: ReadState, t: Option<Seq<char>>) -> ReadState {
    match (st.cur, t) {
        (Some(app), Some(text)) => ReadState { cur: Some(with_text(app, st.field, trim(text))), ..st },
        _ => st,
    }
}

/// A finished component is kept when it is a desktop application with a
/// package name and a name.
pub open spec fn keeps(st: ReadState) -> bool {
    st.cur is Some && st.is_app && st.cur->0.pkgname.len() > 0 && st.cur->0.name.len() > 0
}

pub open spec fn on_end(st: ReadState, tag: Seq<u8>) -> ReadState {
    let closed = if is_name(tag, "component"@) {
        ReadState {
            out: if keeps(st) { st.out.push(st.cur->0) } else { st.out },
            cur: None,
            is_app: false,
            ..st
        }
    } else if is_name(tag, "screenshots"@) {
        ReadState { shots: false, ..st }
    } else {
        st
    };
    ReadState { field: Field::Unset, ..closed }
}

pub open spec fn on_event(st: ReadState, ev: XmlView) -> ReadState {
    match ev {
        XmlView::Start(tag, a) => on_start(st, tag, a),
        XmlView::Text(t) => on_text(st, t),
        XmlView::End(tag) => on_end(st, tag),
        XmlView::Other => st,
    }
}

/// Where reading stands after some events.
pub open spec fn read_events(evs: Seq<XmlView>) -> ReadState
    decreases evs.len(),
{
    if evs.len() == 0 {
        start_state()
    } else {
        on_event(read_events(evs.drop_last()), evs.last())
    }
}

/// The desktop applications of a catalog, given its events.
pub open spec fn apps_of(evs: Seq<XmlView>) -> Seq<AppView> {
    read_events(evs).out
}

/// The reader's state as the program holds it.
struct Reading {
    out: Vec<AppInfo>,
    in_component: bool,
    app: AppInfo,
    is_app: bool,
    field: Field,
    shots: bool,
}

impl Reading {
    spec fn state(&self) -> ReadState {
        ReadState {
            out: app_views(self.out@),
            cur: if self.in_component { Some(self.app@) } else { None },
            is_app: self.is_app,
            field: self.field,
            shots: self.shots,
        }
    }
}

fn attr_value(a: &Vec<(Vec<u8>, Option<String>)>, k: &str) -> (r: Option<String>)
    ensures
        opt_view(r) == attr(attr_views(a@), k@),
{
    let ghost av = attr_views(a@);
    let mut i: usize = 0;
    while i < a.len()
        invariant
            av == attr_views(a@),
            i <= a@.len(),
            attr_from(av, k@, i as int) == attr(av, k@),
        decreases a@.len() - i,
    {
        if name_is(&a[i].0, k) {
            return copy_opt(&a[i].1);
        }
        i = i + 1;
    }
    None
}

fn any_attr(a: &Vec<(Vec<u8>, Option<String>)>, k: &str) -> (r: bool)
    ensures
        r == has_attr(attr_views(a@), k@),
{
    let ghost av = attr_views(a@);
    let mut i: usize = 0;
    while i < a.len()
        invariant
            av == attr_views(a@),
            i <= a@.len(),
            forall|j: int| 0 <= j < i ==> !is_name(av[j].0, k@),
        decreases a@.len() - i,
    {
        if name_is(&a[i].0, k) {
            assert(is_name(av[i as int].0, k@));
            return true;
        }
        i = i + 1;
    }
    false
}

fn opt_is(o: &Option<String>, v: &str) -> (r: bool)
    ensures
        r == (opt_view(*o) == Some(v@)),
{
    match o {
        Some(s) => str_eq(s.as_str(), v),
        None => false,
    }
}

impl Reading {
    fn start_tag(&mut self, tag: &Vec<u8>, a: &Vec<(Vec<u8>, Option<String>)>)
        ensures
            final(self).state() == on_start(old(self).state(), tag@, attr_views(a@)),
    {
        if name_is(tag, "component") {
            self.app = blank();
            self.in_component = true;
            let t = attr_value(a, "type");
            proof {
                reveal_strlit("");
            }
            self.is_app = opt_is(&t, "desktop-application") || opt_is(&t, "desktop");
            assert(self.is_app == is_app_type(attr(attr_views(a@), "type"@))) by {
                if t is None {
                    reveal_strlit("desktop-application");
                    reveal_strlit("desktop");
                    assert("desktop-application"@.len() > 0);
                    assert("desktop"@.len() > 0);
                }
            }
        } else if name_is(tag, "screenshots") {
            self.shots = true;
        } else if !self.in_component {
        } else {
            let lang = any_attr(a, "xml:lang");
            let t = attr_value(a, "type");
            if name_is(tag, "id") {
                self.field = Field::Id;
            } else if name_is(tag, "pkgname") {
                self.field = Field::Pkgname;
            } else if name_is(tag, "name") && !lang {
                self.field = Field::Name;
            } else if name_is(tag, "summary") && !lang {
                self.field = Field::Summary;
            } else if name_is(tag, "category") {
                self.field = Field::Category;
            } else if name_is(tag, "keyword") && !lang {
                self.field = Field::Keyword;
            } else if name_is(tag, "project_license") {
                self.field = Field::License;
            } else if name_is(tag, "url") && opt_is(&t, "homepage") {
                self.field = Field::Homepage;
            } else if name_is(tag, "image") && self.shots && !opt_is(&t, "thumbnail") {
                self.field = Field::Image;
            }
        }
    }

    fn text(&mut self, t: &Option<String>)
        ensures
            final(self).state() == on_text(old(self).state(), opt_view(*t)),
    {
        if !self.in_component {
            return;
        }
        let raw = match t {
            Some(raw) => raw,
            None => {
                return;
            },
        };
        let text = string_of_all(&trim_chars(&to_chars(raw.as_str())));
        let ghost tv = text@;
        match self.field {
            Field::Id => {
                if self.app.id.as_str().is_empty() {
                    self.app.id = text;
                }
            },
            Field::Pkgname => {
                if self.app.pkgname.as_str().is_empty() {
                    self.app.pkgname = text;
                }
            },
            Field::Name => {
                if self.app.name.as_str().is_empty() {
                    self.app.name = text;
                }
            },
            Field::Summary => {
                if self.app.summary.as_str().is_empty() {
                    self.app.summary = text;
                }
            },
            Field::Category => {
                let ghost before = self.app.categories@;
                self.app.categories.push(text);
                assert(strs(self.app.categories@) =~= strs(before).push(tv));
            },
            Field::Keyword => {
                let ghost before = self.app.keywords@;
                self.app.keywords.push(text);
                assert(strs(self.app.keywords@) =~= strs(before).push(tv));
            },
            Field::License => {
                if self.app.license.is_none() {
                    self.app.license = Some(text);
                }
            },
            Field::Homepage => {
                if self.app.homepage.is_none() {
                    self.app.homepage = Some(text);
                }
            },
            Field::Image => {
                let ghost before = self.app.screenshots@;
                self.app.screenshots.push(text);
                assert(strs(self.app.screenshots@) =~= strs(before).push(tv));
            },
            Field::Unset => {},
        }
    }

    fn end_tag(&mut self, tag: &Vec<u8>)
        ensures
            final(self).state() == on_end(old(self).state(), tag@),
    {
        if name_is(tag, "component") {
            if self.in_component && self.is_app && !self.app.pkgname.as_str().is_empty()
                && !self.app.name.as_str().is_empty() {
                let mut done = blank();
                std::mem::swap(&mut done, &mut self.app);
                let ghost before = self.out@;
                let ghost dv = done@;
                self.out.push(done);
                assert(app_views(self.out@) =~= app_views(before).push(dv));
            }
            self.in_component = false;
            self.is_app = false;
        } else if name_is(tag, "screenshots") {
            self.shots = false;
        }
        self.field = Field::Unset;
    }
}

/// The desktop applications a list of catalog events describes: a component
/// of type `desktop-application` or `desktop`, with a package name and a
/// name; only texts in the default language are collected.
pub fn apps_from_events(evs: &Vec<XmlEvent>) -> (r: Vec<AppInfo>)
    ensures
        app_views(r@) == apps_of(xml_views(evs@)),
{
    let ghost ev = xml_views(evs@);
    let mut st = Reading {
        out: Vec::new(),
        in_component: false,
        app: blank(),
        is_app: false,
        field: Field::Unset,
        shots: false,
    };
    assert(app_views(st.out@) =~= Seq::<AppView>::empty());
    let mut i: usize = 0;
    while i < evs.len()
        invariant
            ev == xml_views(evs@),
            i <= evs@.len(),
            st.state() == read_events(ev.take(i as int)),
        decreases evs@.len() - i,
    {
        assert(ev.take(i + 1).drop_last() =~= ev.take(i as int));
        assert(ev[i as int] == evs@[i as int]@);
        match &evs[i] {
            XmlEvent::Start(tag, a) => st.start_tag(tag, a),
            XmlEvent::Text(t) => st.text(t),
            XmlEvent::End(tag) => st.end_tag(tag),
            XmlEvent::Other => {},
        }
        i = i + 1;
    }
    assert(ev.take(i as int) =~= ev);
    st.out
}

/// Parses one catalog document. Only desktop applications are kept; only
/// untranslated (default language) texts are used.
pub fn parse(xml: &str) -> (r: Vec<AppInfo>)
    ensures
        app_views(r@) == apps_of(xml_events_of(xml@)),
{
    let evs = xml_events(xml);
    apps_from_events(&evs)
}


// ------------------------------------------------------------------ laws

/// Every application kept is a named package: it has a package name and a name.
pub open spec fn all_named(apps: Seq<AppView>) -> bool {
    forall|k: int| 0 <= k < apps.len() ==> (#[trigger] apps[k]).pkgname.len() > 0 && apps[k].name.len() > 0
}

/// Whatever the catalog holds, every application read from it has a
/// package name and a name.
pub proof fn law_kept_apps_are_named(evs: Seq<XmlView>)
    ensures
        all_named(apps_of(evs)),
    decreases evs.len(),
{
    if evs.len() > 0 {
        law_kept_apps_are_named(evs.drop_last());
        let st = read_events(evs.drop_last());
        let next = on_event(st, evs.last());
        assert(all_named(next.out)) by {
            assert forall|k: int| 0 <= k < next.out.len() implies (#[trigger] next.out[k]).pkgname.len() > 0 && next.out[k].name.len() > 0 by {
                if k < st.out.len() {
                    assert(next.out[k] == st.out[k]);
                }
            }
        }
    }
}


// ----------------------------------------------------------- catalog files

/// A catalog file: compressed or plain XML.
pub open spec fn is_catalog_name(name: Seq<char>) -> bool {
    crate::sources::pacman::has_suffix(name, ".xml.gz"@) || crate::sources::pacman::has_suffix(name, ".xml"@)
}

fn ends_with(s: &str, p: &str) -> (r: bool)
    ensures
        r == crate::sources::pacman::has_suffix(s@, p@),
{
    let v = to_chars(s);
    let pv = to_chars(p);
    if pv.len() > v.len() {
        return false;
    }
    let n = v.len();
    let from = n - pv.len();
    let mut i: usize = 0;
    while i < pv.len()
        invariant
            n == v@.len(),
            from + pv@.len() == v@.len(),
            v@ == s@,
            pv@ == p@,
            i <= pv@.len(),
            forall|j: int| 0 <= j < i ==> v@[from + j] == pv@[j],
        decreases pv@.len() - i,
    {
        if v[from + i] != pv[i] {
            assert(v@.skip(from as int)[i as int] != pv@[i as int]);
            return false;
        }
        i = i + 1;
    }
    assert(v@.skip(from as int) =~= pv@);
    true
}

/// Whether a file in a catalog directory is a catalog.
pub fn is_catalog_file(name: &str) -> (r: bool)
    ensures
        r == is_catalog_name(name@),
{
    ends_with(name, ".xml.gz") || ends_with(name, ".xml")
}

/// The text gzip-compressed bytes hold, if they decompress to UTF-8.
pub uninterp spec fn gunzip_of(bytes: Seq<u8>) -> Option<Seq<char>>;

/// flate2's `GzDecoder` over the bytes, read with `read_to_string`: the
/// text, or none when the bytes are not gzip data or not UTF-8 text. The
/// text is named by `gunzip_of`; nothing more of it is stated here.
#[verifier::external_body]
fn gunzip(bytes: &[u8]) -> (r: Option<String>)
    ensures
        match r {
            Some(s) => gunzip_of(bytes@) == Some(s@),
            None => gunzip_of(bytes@) is None,
        },
{
    let mut s = String::new();
    std::io::Read::read_to_string(&mut flate2::read::GzDecoder::new(bytes), &mut s).ok().map(|_| s)
}

/// The text of some bytes, invalid UTF-8 replaced (`String::from_utf8_lossy`).
pub uninterp spec fn lossy_of(bytes: Seq<u8>) -> Seq<char>;

/// `String::from_utf8_lossy`: valid UTF-8 decodes as it is; the text for
/// other bytes is named by `lossy_of`.
#[verifier::external_body]
fn utf8_lossy(bytes: &[u8]) -> (r: String)
    ensures
        r@ == lossy_of(bytes@),
        vstd::utf8::valid_utf8(bytes@) ==> r@ == vstd::utf8::decode_utf8(bytes@),
{
    String::from_utf8_lossy(bytes).into_owned()
}

/// The text of a catalog file: decompressed when its name ends in `.gz`
/// (for a catalog file, exactly when its extension is `gz`), read as UTF-8
/// otherwise; none when compressed data does not decompress.
pub fn catalog_text(name: &str, bytes: &[u8]) -> (r: Option<String>)
    ensures
        crate::sources::pacman::has_suffix(name@, ".gz"@) ==> match r {
            Some(s) => gunzip_of(bytes@) == Some(s@),
            None => gunzip_of(bytes@) is None,
        },
        !crate::sources::pacman::has_suffix(name@, ".gz"@) ==> (r matches Some(s) && s@ == lossy_of(bytes@)),
{
    if ends_with(name, ".gz") {
        gunzip(bytes)
    } else {
        Some(utf8_lossy(bytes))
    }
}

/// Some application of `apps` has this package name.
pub open spec fn has_pkgname(apps: Seq<AppView>, name: Seq<char>) -> bool {
    exists|i: int| 0 <= i < apps.len() && apps[i].pkgname == name
}

/// The catalog after reading more applications: a package already there
/// keeps its application.
pub open spec fn with_apps(apps: Seq<AppView>, more: Seq<AppView>) -> Seq<AppView>
    decreases more.len(),
{
    if more.len() == 0 {
        apps
    } else {
        let before = with_apps(apps, more.drop_last());
        if has_pkgname(before, more.last().pkgname) {
            before
        } else {
            before.push(more.last())
        }
    }
}

/// Adds the applications of one more catalog file; the first catalog that
/// names a package wins.
pub fn add_apps(apps: &mut Vec<AppInfo>, more: Vec<AppInfo>)
    ensures
        app_views(final(apps)@) == with_apps(app_views(old(apps)@), app_views(more@)),
{
    let ghost mv = app_views(more@);
    let ghost start = app_views(apps@);
    assert(mv.take(0) =~= Seq::<AppView>::empty());
    for a in it: more
        invariant
            mv == app_views(it.seq()),
            app_views(apps@) == with_apps(start, mv.take(it.index() as int)),
    {
        let ghost n = it.index() as int;
        assert(mv.take(n + 1).drop_last() =~= mv.take(n));
        assert(mv.take(n + 1).last() == a@);
        let ghost cur = app_views(apps@);
        let mut found = false;
        let mut j: usize = 0;
        while j < apps.len()
            invariant
                cur == app_views(apps@),
                j <= apps@.len(),
                found == exists|k: int| 0 <= k < j && cur[k].pkgname == a@.pkgname,
            decreases apps@.len() - j,
        {
            if str_eq(apps[j].pkgname.as_str(), a.pkgname.as_str()) {
                assert(cur[j as int].pkgname == a@.pkgname);
                found = true;
            }
            j = j + 1;
        }
        if !found {
            let ghost av = a@;
            apps.push(a);
            assert(app_views(apps@) =~= cur.push(av));
        }
    }
    assert(mv.take(mv.len() as int) =~= mv);
}

} // verus!
