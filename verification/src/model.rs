//! The one package type every source maps into.

use vstd::prelude::*;

verus! {

/// Where a package comes from.
#[derive(Debug, PartialEq, Eq, Hash)]
pub enum Source {
    /// A pacman repository: core, extra, multilib, chaotic-aur, a custom one…
    Repo(String),
    /// The Arch User Repository.
    Aur,
    /// Installed but in no repository and not on the AUR (a local build, an old AUR name).
    Local,
}

impl Clone for Source {
    fn clone(&self) -> (r: Self)
        ensures
            r == *self,
    {
        match self {
            Source::Repo(n) => Source::Repo(n.clone()),
            Source::Aur => Source::Aur,
            Source::Local => Source::Local,
        }
    }
}

/// The label a source is shown with: the repository's name, `aur` or `local`.
pub open spec fn source_label(s: Source) -> Seq<char> {
    match s {
        Source::Repo(r) => r@,
        Source::Aur => "aur"@,
        Source::Local => "local"@,
    }
}

impl Source {
    pub fn label(&self) -> (r: &str)
        ensures
            r@ == source_label(*self),
    {
        match self {
            Source::Repo(r) => r.as_str(),
            Source::Aur => "aur",
            Source::Local => "local",
        }
    }

    pub fn is_aur(&self) -> (r: bool)
        ensures
            r == (*self is Aur),
    {
        matches!(self, Source::Aur)
    }
}

/// What the local database knows about an installed package.
#[derive(Debug, Default)]
pub struct Installed {
    pub version: String,
    /// Installed on purpose (`pacman -S pkg`) rather than pulled in as a dependency.
    pub explicit: bool,
    /// Unix timestamp.
    pub install_date: Option<i64>,
    pub install_size: Option<u64>,
}

impl Clone for Installed {
    fn clone(&self) -> (r: Self)
        ensures
            r == *self,
    {
        Installed {
            version: self.version.clone(),
            explicit: self.explicit,
            install_date: self.install_date,
            install_size: self.install_size,
        }
    }
}

/// A package as shown in lists. Details that need another round trip live in [`Details`].
#[derive(Debug)]
pub struct Package {
    pub name: String,
    pub version: String,
    pub source: Source,
    pub description: String,
    pub groups: Vec<String>,
    pub licenses: Vec<String>,
    pub url: Option<String>,
    /// Bytes once installed (repos and local database).
    pub install_size: Option<u64>,
    /// Bytes to download (repos only).
    pub download_size: Option<u64>,
    /// AUR: votes.
    pub votes: Option<u32>,
    /// AUR: popularity score. pkgstats: percentage of systems with it installed.
    /// In millionths (a score of 1.5 is 1_500_000).
    pub popularity: Option<u64>,
    /// AUR: flagged out of date at this Unix timestamp.
    pub out_of_date: Option<i64>,
    pub maintainer: Option<String>,
    /// AUR: last modification, Unix timestamp.
    pub last_modified: Option<i64>,
    pub installed: Option<Installed>,
}

/// A copy of a list of strings.
pub fn copy_strings(v: &Vec<String>) -> (r: Vec<String>)
    ensures
        r@ == v@,
{
    let mut r: Vec<String> = Vec::new();
    let mut i: usize = 0;
    while i < v.len()
        invariant
            i <= v@.len(),
            r@ == v@.take(i as int),
        decreases v.len() - i,
    {
        r.push(v[i].clone());
        assert(v@.take(i + 1) =~= v@.take(i as int).push(v@[i as int]));
        i = i + 1;
    }
    assert(v@.take(i as int) =~= v@);
    r
}

/// A copy of an optional string.
pub fn copy_opt(v: &Option<String>) -> (r: Option<String>)
    ensures
        r == *v,
{
    match v {
        Some(s) => Some(s.clone()),
        None => None,
    }
}

/// Two packages hold the same values (lists compared by their contents).
pub open spec fn same_package(a: Package, b: Package) -> bool {
    &&& a.name == b.name
    &&& a.version == b.version
    &&& a.source == b.source
    &&& a.description == b.description
    &&& a.groups@ == b.groups@
    &&& a.licenses@ == b.licenses@
    &&& a.url == b.url
    &&& a.install_size == b.install_size
    &&& a.download_size == b.download_size
    &&& a.votes == b.votes
    &&& a.popularity == b.popularity
    &&& a.out_of_date == b.out_of_date
    &&& a.maintainer == b.maintainer
    &&& a.last_modified == b.last_modified
    &&& a.installed == b.installed
}

impl Clone for Package {
    fn clone(&self) -> (r: Self)
        ensures
            same_package(r, *self),
    {
        Package {
            name: self.name.clone(),
            version: self.version.clone(),
            source: self.source.clone(),
            description: self.description.clone(),
            groups: copy_strings(&self.groups),
            licenses: copy_strings(&self.licenses),
            url: copy_opt(&self.url),
            install_size: self.install_size,
            download_size: self.download_size,
            votes: self.votes,
            popularity: self.popularity,
            out_of_date: self.out_of_date,
            maintainer: copy_opt(&self.maintainer),
            last_modified: self.last_modified,
            installed: match &self.installed {
                Some(i) => Some(i.clone()),
                None => None,
            },
        }
    }
}

/// The installed version differs from the available one.
pub open spec fn package_has_update(p: Package) -> bool {
    match p.installed {
        Some(i) => i.version@ != p.version@,
        None => false,
    }
}

impl Package {
    pub fn is_installed(&self) -> (r: bool)
        ensures
            r == (self.installed is Some),
    {
        self.installed.is_some()
    }

    /// The installed version differs from the available one.
    pub fn has_update(&self) -> (r: bool)
        ensures
            r == package_has_update(*self),
    {
        match &self.installed {
            Some(i) => !crate::text::str_eq(i.version.as_str(), self.version.as_str()),
            None => false,
        }
    }
}

/// Everything else about one package, fetched on demand.
#[derive(Debug, Default)]
pub struct Details {
    pub depends: Vec<String>,
    pub opt_depends: Vec<String>,
    pub make_depends: Vec<String>,
    pub provides: Vec<String>,
    pub conflicts: Vec<String>,
    pub replaces: Vec<String>,
    pub required_by: Vec<String>,
    pub optional_for: Vec<String>,
    pub packager: Option<String>,
    pub build_date: Option<i64>,
    pub architecture: Option<String>,
    pub package_base: Option<String>,
    pub keywords: Vec<String>,
}

/// Two detail records hold the same values.
pub open spec fn same_details(a: Details, b: Details) -> bool {
    &&& a.depends@ == b.depends@
    &&& a.opt_depends@ == b.opt_depends@
    &&& a.make_depends@ == b.make_depends@
    &&& a.provides@ == b.provides@
    &&& a.conflicts@ == b.conflicts@
    &&& a.replaces@ == b.replaces@
    &&& a.required_by@ == b.required_by@
    &&& a.optional_for@ == b.optional_for@
    &&& a.packager == b.packager
    &&& a.build_date == b.build_date
    &&& a.architecture == b.architecture
    &&& a.package_base == b.package_base
    &&& a.keywords@ == b.keywords@
}

impl Clone for Details {
    fn clone(&self) -> (r: Self)
        ensures
            same_details(r, *self),
    {
        Details {
            depends: copy_strings(&self.depends),
            opt_depends: copy_strings(&self.opt_depends),
            make_depends: copy_strings(&self.make_depends),
            provides: copy_strings(&self.provides),
            conflicts: copy_strings(&self.conflicts),
            replaces: copy_strings(&self.replaces),
            required_by: copy_strings(&self.required_by),
            optional_for: copy_strings(&self.optional_for),
            packager: copy_opt(&self.packager),
            build_date: self.build_date,
            architecture: copy_opt(&self.architecture),
            package_base: copy_opt(&self.package_base),
            keywords: copy_strings(&self.keywords),
        }
    }
}

/// One line of `checkupdates` or an AUR version comparison.
#[derive(Debug)]
pub struct Update {
    pub name: String,
    pub current: String,
    pub new: String,
    pub source: Source,
}

impl Clone for Update {
    fn clone(&self) -> (r: Self)
        ensures
            r == *self,
    {
        Update {
            name: self.name.clone(),
            current: self.current.clone(),
            new: self.new.clone(),
            source: self.source.clone(),
        }
    }
}

} // verus!
