//! One in-memory index of every package Sanae knows about, with fuzzy search.

use vstd::prelude::*;

use crate::model::{Installed, Package, Source};
use crate::sources::pacman::LocalPackage;
use crate::text::str_eq;

verus! {

/// Every package, repository ones first. A name is looked up at its first
/// occurrence: two repositories may ship the same name (testing repos), and
/// pacman keeps the first too.
#[derive(Debug, Default)]
pub struct Index {
    pub packages: Vec<Package>,
}

impl View for Index {
    type V = Seq<Package>;

    open spec fn view(&self) -> Seq<Package> {
        self.packages@
    }
}

/// Where the first package called `name` stands.
pub open spec fn find_name(pkgs: Seq<Package>, name: Seq<char>) -> Option<int>
    decreases pkgs.len(),
{
    if pkgs.len() == 0 {
        None
    } else {
        match find_name(pkgs.drop_last(), name) {
            Some(i) => Some(i),
            None => if pkgs.last().name@ == name {
                Some(pkgs.len() - 1)
            } else {
                None
            },
        }
    }
}

/// An installed package that no repository has: an AUR build or a local one.
pub open spec fn local_as_package(l: LocalPackage) -> Package {
    Package {
        name: l.name,
        version: l.installed.version,
        source: Source::Local,
        description: l.description,
        groups: l.groups,
        licenses: l.licenses,
        url: l.url,
        install_size: l.installed.install_size,
        download_size: None,
        votes: None,
        popularity: None,
        out_of_date: None,
        maintainer: None,
        last_modified: None,
        installed: Some(l.installed),
    }
}

/// The sync packages with the local database merged in, one local package
/// at a time: a known name gets marked installed, an unknown one is added.
pub open spec fn built(sync: Seq<Package>, local: Seq<LocalPackage>) -> Seq<Package>
    decreases local.len(),
{
    if local.len() == 0 {
        sync
    } else {
        let prev = built(sync, local.drop_last());
        let l = local.last();
        match find_name(prev, l.name@) {
            Some(i) => prev.update(i, Package { installed: Some(l.installed), ..prev[i] }),
            None => prev.push(local_as_package(l)),
        }
    }
}

/// A package that an AUR record may replace: one that no repository has.
pub open spec fn replaceable(p: Package) -> bool {
    p.source is Local || p.source is Aur
}

/// The packages with AUR records merged in, one at a time: a new name is added;
/// a local or AUR package is replaced, keeping its installed state; a repository
/// package with the same name wins and stays.
pub open spec fn merged(pkgs: Seq<Package>, aur: Seq<Package>) -> Seq<Package>
    decreases aur.len(),
{
    if aur.len() == 0 {
        pkgs
    } else {
        let prev = merged(pkgs, aur.drop_last());
        let a = aur.last();
        match find_name(prev, a.name@) {
            Some(i) => if replaceable(prev[i]) {
                prev.update(i, Package { installed: prev[i].installed, ..a })
            } else {
                prev
            },
            None => prev.push(a),
        }
    }
}

/// The installed packages (`explicit` given: only those installed with that reason), in index order.
pub open spec fn installed_where(pkgs: Seq<Package>, explicit: Option<bool>) -> Seq<Package>
    decreases pkgs.len(),
{
    if pkgs.len() == 0 {
        pkgs
    } else {
        let p = pkgs.last();
        let keep = match p.installed {
            Some(i) => match explicit {
                Some(e) => i.explicit == e,
                None => true,
            },
            None => false,
        };
        if keep {
            installed_where(pkgs.drop_last(), explicit).push(p)
        } else {
            installed_where(pkgs.drop_last(), explicit)
        }
    }
}

pub proof fn lemma_find_name(pkgs: Seq<Package>, name: Seq<char>)
    ensures
        match find_name(pkgs, name) {
            Some(i) => 0 <= i < pkgs.len() && pkgs[i].name@ == name && forall|j: int|
                0 <= j < i ==> pkgs[j].name@ != name,
            None => forall|j: int| 0 <= j < pkgs.len() ==> pkgs[j].name@ != name,
        },
    decreases pkgs.len(),
{
    if pkgs.len() > 0 {
        let init = pkgs.drop_last();
        lemma_find_name(init, name);
        assert forall|j: int| 0 <= j < init.len() implies init[j] == pkgs[j] by {}
    }
}

/// `find_name` is the first position with that name.
pub proof fn lemma_find_name_at(pkgs: Seq<Package>, name: Seq<char>, i: int)
    requires
        0 <= i < pkgs.len(),
        pkgs[i].name@ == name,
        forall|j: int| 0 <= j < i ==> pkgs[j].name@ != name,
    ensures
        find_name(pkgs, name) == Some(i),
{
    lemma_find_name(pkgs, name);
    match find_name(pkgs, name) {
        Some(k) => {
            if k < i {
                assert(pkgs[k].name@ != name);
            } else if k > i {
                assert(pkgs[i].name@ != name);
            }
        },
        None => {
            assert(pkgs[i].name@ != name);
        },
    }
}

impl Index {
    /// Where the first package called `name` stands.
    pub fn position(&self, name: &str) -> (r: Option<usize>)
        ensures
            match r {
                Some(i) => find_name(self@, name@) == Some(i as int),
                None => find_name(self@, name@) is None,
            },
    {
        let mut i: usize = 0;
        while i < self.packages.len()
            invariant
                i <= self@.len(),
                forall|j: int| 0 <= j < i ==> self@[j].name@ != name@,
            decreases self.packages.len() - i,
        {
            if str_eq(self.packages[i].name.as_str(), name) {
                proof {
                    lemma_find_name_at(self@, name@, i as int);
                }
                return Some(i);
            }
            i = i + 1;
        }
        proof {
            lemma_find_name(self@, name@);
            match find_name(self@, name@) {
                Some(k) => {
                    assert(self@[k].name@ != name@);
                },
                None => {},
            }
        }
        None
    }

    /// Merge the sync repositories with the local database.
    pub fn build(sync: Vec<Package>, local: Vec<LocalPackage>) -> (r: Self)
        ensures
            r@ == built(sync@, local@),
    {
        let mut index = Index { packages: sync };
        let ghost all = local@;
        for l in it: local
            invariant
                it.seq() == all,
                index@ == built(sync@, all.take(it.index() as int)),
        {
            let ghost n = it.index();
            assert(all.take(n + 1).drop_last() =~= all.take(n as int));
            assert(all.take(n + 1).last() == l);
            match index.position(l.name.as_str()) {
                Some(i) => {
                    let ghost prev = index@;
                    proof {
                        lemma_find_name(prev, l.name@);
                    }
                    index.packages[i].installed = Some(l.installed);
                    assert(index@ =~= prev.update(
                        i as int,
                        Package { installed: Some(l.installed), ..prev[i as int] },
                    ));
                },
                None => {
                    let p = Package {
                        name: l.name,
                        version: l.installed.version.clone(),
                        source: Source::Local,
                        description: l.description,
                        groups: l.groups,
                        licenses: l.licenses,
                        url: l.url,
                        install_size: l.installed.install_size,
                        download_size: None,
                        votes: None,
                        popularity: None,
                        out_of_date: None,
                        maintainer: None,
                        last_modified: None,
                        installed: Some(l.installed),
                    };
                    index.packages.push(p);
                },
            }
        }
        assert(all.take(all.len() as int) =~= all);
        index
    }

    pub fn get(&self, name: &str) -> (r: Option<&Package>)
        ensures
            match find_name(self@, name@) {
                Some(i) => r == Some(&self@[i]),
                None => r is None,
            },
    {
        match self.position(name) {
            Some(i) => {
                proof {
                    lemma_find_name(self@, name@);
                }
                Some(&self.packages[i])
            },
            None => None,
        }
    }

    pub fn get_mut(&mut self, name: &str) -> (r: Option<&mut Package>)
        ensures
            match find_name(old(self)@, name@) {
                Some(i) => r is Some && *r->0 == old(self)@[i] && final(self)@ == old(self)@.update(
                    i,
                    *final(r->0),
                ),
                None => r is None && final(self)@ == old(self)@,
            },
    {
        match self.position(name) {
            Some(i) => {
                proof {
                    lemma_find_name(self@, name@);
                }
                Some(&mut self.packages[i])
            },
            None => None,
        }
    }

    pub fn len(&self) -> (r: usize)
        ensures
            r == self@.len(),
    {
        self.packages.len()
    }

    pub fn is_empty(&self) -> (r: bool)
        ensures
            r == (self@.len() == 0),
    {
        self.packages.len() == 0
    }

    /// Records a pkgstats popularity (in millionths) on a package of the
    /// repositories. An AUR package keeps the AUR's own score, and a name the
    /// index does not hold changes nothing.
    pub fn set_popularity(&mut self, name: &str, popularity: u64)
        ensures
            match find_name(old(self)@, name@) {
                Some(i) => if old(self)@[i].source is Aur {
                    final(self)@ == old(self)@
                } else {
                    final(self)@ == old(self)@.update(i, Package { popularity: Some(popularity), ..old(self)@[i] })
                },
                None => final(self)@ == old(self)@,
            },
    {
        match self.position(name) {
            Some(i) => {
                proof {
                    lemma_find_name(self@, name@);
                }
                if !self.packages[i].source.is_aur() {
                    self.packages[i].popularity = Some(popularity);
                }
            },
            None => {},
        }
    }

    /// Add or refresh AUR packages (search results, info on foreign packages).
    pub fn merge_aur(&mut self, aur: Vec<Package>)
        ensures
            final(self)@ == merged(old(self)@, aur@),
    {
        let ghost start = self@;
        let ghost all = aur@;
        for mut a in it: aur
            invariant
                it.seq() == all,
                self@ == merged(start, all.take(it.index() as int)),
        {
            let ghost n = it.index();
            assert(all.take(n + 1).drop_last() =~= all.take(n as int));
            assert(all.take(n + 1).last() == a);
            let ghost prev = self@;
            match self.position(a.name.as_str()) {
                Some(i) => {
                    proof {
                        lemma_find_name(prev, a.name@);
                    }
                    let keep = match &self.packages[i].source {
                        Source::Local | Source::Aur => true,
                        _ => false,
                    };
                    if keep {
                        a.installed = self.packages[i].installed.take();
                        self.packages.set(i, a);
                        assert(self@ =~= prev.update(
                            i as int,
                            Package { installed: prev[i as int].installed, ..all[n as int] },
                        ));
                    }
                },
                None => {
                    self.packages.push(a);
                },
            }
        }
        assert(all.take(all.len() as int) =~= all);
    }

    /// The installed packages, in index order.
    pub fn installed(&self) -> (r: Vec<&Package>)
        ensures
            r@ == installed_where(self@, None).map_values(|p: Package| &p),
    {
        self.installed_where(None)
    }

    /// Installed with `explicit` reason, or as dependencies.
    pub fn installed_by_reason(&self, explicit: bool) -> (r: Vec<&Package>)
        ensures
            r@ == installed_where(self@, Some(explicit)).map_values(|p: Package| &p),
    {
        self.installed_where(Some(explicit))
    }

    fn installed_where(&self, explicit: Option<bool>) -> (r: Vec<&Package>)
        ensures
            r@ == installed_where(self@, explicit).map_values(|p: Package| &p),
    {
        let mut out: Vec<&Package> = Vec::new();
        let mut i: usize = 0;
        while i < self.packages.len()
            invariant
                i <= self@.len(),
                out@ == installed_where(self@.take(i as int), explicit).map_values(|p: Package| &p),
            decreases self.packages.len() - i,
        {
            assert(self@.take(i + 1).drop_last() =~= self@.take(i as int));
            let p = &self.packages[i];
            let keep = match &p.installed {
                Some(inst) => match explicit {
                    Some(e) => inst.explicit == e,
                    None => true,
                },
                None => false,
            };
            let ghost before = out@;
            if keep {
                out.push(p);
            }
            assert(out@ =~= installed_where(self@.take(i + 1), explicit).map_values(|p: Package| &p));
            i = i + 1;
        }
        assert(self@.take(i as int) =~= self@);
        out
    }
}


/// The same package but for its installed state.
pub open spec fn same_but_installed(a: Package, b: Package) -> bool {
    a == Package { installed: a.installed, ..b }
}

/// A package from the local database only, installed.
pub open spec fn is_installed_local(p: Package) -> bool {
    p.source is Local && p.installed is Some
}

proof fn lemma_find_push(pkgs: Seq<Package>, x: Package, name: Seq<char>)
    ensures
        find_name(pkgs.push(x), name) == match find_name(pkgs, name) {
            Some(j) => Some(j),
            None => if x.name@ == name {
                Some(pkgs.len() as int)
            } else {
                None
            },
        },
{
    assert(pkgs.push(x).drop_last() =~= pkgs);
}

proof fn lemma_find_update(pkgs: Seq<Package>, i: int, x: Package, name: Seq<char>)
    requires
        0 <= i < pkgs.len(),
        x.name@ == pkgs[i].name@,
    ensures
        find_name(pkgs.update(i, x), name) == find_name(pkgs, name),
{
    let u = pkgs.update(i, x);
    lemma_find_name(pkgs, name);
    lemma_find_name(u, name);
    assert forall|j: int| 0 <= j < pkgs.len() implies u[j].name@ == pkgs[j].name@ by {}
    match find_name(pkgs, name) {
        Some(k) => {
            lemma_find_name_at(u, name, k);
        },
        None => {
            match find_name(u, name) {
                Some(k) => {
                    assert(pkgs[k].name@ == name);
                },
                None => {},
            }
        },
    }
}

/// Merging the local database keeps every sync package where it was, with
/// only its installed state changed; what is added after them is a local
/// package, installed.
pub proof fn law_build_keeps_sync(sync: Seq<Package>, local: Seq<LocalPackage>)
    ensures
        built(sync, local).len() >= sync.len(),
        forall|i: int|
            0 <= i < sync.len() ==> same_but_installed(#[trigger] built(sync, local)[i], sync[i]),
        forall|i: int|
            sync.len() <= i < built(sync, local).len() ==> is_installed_local(
                #[trigger] built(sync, local)[i],
            ),
    decreases local.len(),
{
    if local.len() > 0 {
        law_build_keeps_sync(sync, local.drop_last());
        let prev = built(sync, local.drop_last());
        lemma_find_name(prev, local.last().name@);
    }
}

/// Every package of the local database can be found by name in the index,
/// and what is found is installed.
pub proof fn law_build_finds_every_local(sync: Seq<Package>, local: Seq<LocalPackage>)
    ensures
        forall|k: int|
            0 <= k < local.len() ==> match #[trigger] find_name(built(sync, local), local[k].name@) {
                Some(j) => built(sync, local)[j].installed is Some,
                None => false,
            },
    decreases local.len(),
{
    if local.len() > 0 {
        let init = local.drop_last();
        law_build_finds_every_local(sync, init);
        let prev = built(sync, init);
        let l = local.last();
        let b = built(sync, local);
        lemma_find_name(prev, l.name@);
        assert forall|k: int| 0 <= k < local.len() implies match #[trigger] find_name(
            b,
            local[k].name@,
        ) {
            Some(j) => b[j].installed is Some,
            None => false,
        } by {
            let n = local[k].name@;
            if k < local.len() - 1 {
                assert(local[k] == init[k]);
                assert(find_name(prev, init[k].name@) is Some);
            } else {
                assert(local[k] == l);
            }
            match find_name(prev, l.name@) {
                Some(i) => {
                    let x = Package { installed: Some(l.installed), ..prev[i] };
                    lemma_find_update(prev, i, x, n);
                    lemma_find_name(prev, n);
                },
                None => {
                    lemma_find_push(prev, local_as_package(l), n);
                    lemma_find_name(prev, n);
                },
            }
        }
    }
}

/// Merging AUR records never changes what is installed at any position, and
/// never touches a package that a repository ships.
pub proof fn law_merge_keeps_repo_and_installed(pkgs: Seq<Package>, aur: Seq<Package>)
    ensures
        merged(pkgs, aur).len() >= pkgs.len(),
        forall|i: int|
            0 <= i < pkgs.len() ==> (#[trigger] merged(pkgs, aur)[i]).installed == pkgs[i].installed,
        forall|i: int|
            0 <= i < pkgs.len() && !replaceable(pkgs[i]) ==> #[trigger] merged(pkgs, aur)[i]
                == pkgs[i],
    decreases aur.len(),
{
    if aur.len() > 0 {
        law_merge_keeps_repo_and_installed(pkgs, aur.drop_last());
        let prev = merged(pkgs, aur.drop_last());
        lemma_find_name(prev, aur.last().name@);
    }
}

/// After merging, every AUR record's name can be found in the index.
pub proof fn law_merge_finds_every_aur(pkgs: Seq<Package>, aur: Seq<Package>)
    ensures
        forall|k: int|
            0 <= k < aur.len() ==> (#[trigger] find_name(merged(pkgs, aur), aur[k].name@) is Some),
    decreases aur.len(),
{
    if aur.len() > 0 {
        let init = aur.drop_last();
        law_merge_finds_every_aur(pkgs, init);
        let prev = merged(pkgs, init);
        let a = aur.last();
        let m = merged(pkgs, aur);
        lemma_find_name(prev, a.name@);
        assert forall|k: int| 0 <= k < aur.len() implies #[trigger] find_name(m, aur[k].name@) is Some by {
            let n = aur[k].name@;
            if k < aur.len() - 1 {
                assert(aur[k] == init[k]);
            } else {
                assert(aur[k] == a);
            }
            match find_name(prev, a.name@) {
                Some(i) => {
                    if replaceable(prev[i]) {
                        let x = Package { installed: prev[i].installed, ..a };
                        lemma_find_update(prev, i, x, n);
                    }
                },
                None => {
                    lemma_find_push(prev, a, n);
                },
            }
        }
    }
}

/// `p` is what the index shows of local package `l`: its name, version,
/// description, url, licenses and groups, from the local database, installed.
pub open spec fn shows_local(p: Package, l: LocalPackage) -> bool {
    &&& p.name@ == l.name@
    &&& p.version@ == l.installed.version@
    &&& p.source is Local
    &&& p.description@ == l.description@
    &&& p.url == l.url
    &&& p.licenses@ == l.licenses@
    &&& p.groups@ == l.groups@
    &&& p.installed is Some
}

/// A name found in the built index comes from the sync packages or the
/// local database.
proof fn lemma_built_names(sync: Seq<Package>, local: Seq<LocalPackage>, n: Seq<char>)
    requires
        find_name(sync, n) is None,
        forall|m: int| 0 <= m < local.len() ==> (#[trigger] local[m]).name@ != n,
    ensures
        find_name(built(sync, local), n) is None,
    decreases local.len(),
{
    if local.len() > 0 {
        let init = local.drop_last();
        assert forall|m: int| 0 <= m < init.len() implies (#[trigger] init[m]).name@ != n by {
            assert(init[m] == local[m]);
        }
        lemma_built_names(sync, init, n);
        let prev = built(sync, init);
        let l = local.last();
        lemma_find_name(prev, l.name@);
        match find_name(prev, l.name@) {
            Some(i) => {
                lemma_find_update(prev, i, Package { installed: Some(l.installed), ..prev[i] }, n);
            },
            None => {
                lemma_find_push(prev, local_as_package(l), n);
            },
        }
    }
}

proof fn lemma_local_shown(sync: Seq<Package>, local: Seq<LocalPackage>, k: int)
    requires
        0 <= k < local.len(),
        find_name(sync, local[k].name@) is None,
        forall|m: int| 0 <= m < k ==> (#[trigger] local[m]).name@ != local[k].name@,
    ensures
        match find_name(built(sync, local), local[k].name@) {
            Some(j) => shows_local(built(sync, local)[j], local[k]),
            None => false,
        },
    decreases local.len(),
{
    let n = local[k].name@;
    let init = local.drop_last();
    let prev = built(sync, init);
    let l = local.last();
    lemma_find_name(prev, l.name@);
    if k == local.len() - 1 {
        assert forall|m: int| 0 <= m < init.len() implies (#[trigger] init[m]).name@ != n by {
            assert(init[m] == local[m]);
        }
        lemma_built_names(sync, init, n);
        assert(l == local[k]);
        lemma_find_push(prev, local_as_package(l), n);
    } else {
        assert(init[k] == local[k]);
        assert forall|m: int| 0 <= m < k implies (#[trigger] init[m]).name@ != init[k].name@ by {
            assert(init[m] == local[m]);
        }
        lemma_local_shown(sync, init, k);
        let j = find_name(prev, n)->0;
        lemma_find_name(prev, n);
        match find_name(prev, l.name@) {
            Some(i) => {
                let x = Package { installed: Some(l.installed), ..prev[i] };
                lemma_find_update(prev, i, x, n);
            },
            None => {
                lemma_find_push(prev, local_as_package(l), n);
            },
        }
    }
}

/// A package that only the local database has (an AUR build, a local
/// package) is in the index as the local database describes it: its name,
/// version, description, url, licenses and groups are the local package's own,
/// its source is local and it is installed.
pub proof fn law_build_shows_local_packages(sync: Seq<Package>, local: Seq<LocalPackage>, k: int)
    requires
        0 <= k < local.len(),
        find_name(sync, local[k].name@) is None,
        forall|m: int| 0 <= m < k ==> (#[trigger] local[m]).name@ != local[k].name@,
    ensures
        match find_name(built(sync, local), local[k].name@) {
            Some(j) => shows_local(built(sync, local)[j], local[k]),
            None => false,
        },
{
    lemma_local_shown(sync, local, k);
}

/// Where the last AUR record called `n` stands, if there is one.
pub open spec fn last_record(aur: Seq<Package>, n: Seq<char>) -> Option<int>
    decreases aur.len(),
{
    if aur.len() == 0 {
        None
    } else if aur.last().name@ == n {
        Some(aur.len() - 1)
    } else {
        last_record(aur.drop_last(), n)
    }
}

proof fn lemma_last_record(aur: Seq<Package>, n: Seq<char>)
    ensures
        match last_record(aur, n) {
            Some(m) => 0 <= m < aur.len() && aur[m].name@ == n,
            None => true,
        },
    decreases aur.len(),
{
    if aur.len() > 0 && aur.last().name@ != n {
        lemma_last_record(aur.drop_last(), n);
    }
}

/// An AUR record refreshes what the index knows of a package that no
/// repository ships (one built from the AUR or locally): after merging, the
/// package stands where it stood and equals the last record of its name, but
/// for its installed state, which it keeps. With no record of its name it is
/// unchanged.
pub proof fn law_merge_refreshes_aur_packages(pkgs: Seq<Package>, aur: Seq<Package>, i: int)
    requires
        0 <= i < pkgs.len(),
        find_name(pkgs, pkgs[i].name@) == Some(i),
        pkgs[i].source is Aur || pkgs[i].source is Local,
        forall|m: int| 0 <= m < aur.len() ==> (#[trigger] aur[m]).source is Aur,
    ensures
        find_name(merged(pkgs, aur), pkgs[i].name@) == Some(i),
        merged(pkgs, aur)[i] == match last_record(aur, pkgs[i].name@) {
            Some(m) => Package { installed: pkgs[i].installed, ..aur[m] },
            None => pkgs[i],
        },
    decreases aur.len(),
{
    let n = pkgs[i].name@;
    if aur.len() > 0 {
        let init = aur.drop_last();
        assert forall|m: int| 0 <= m < init.len() implies (#[trigger] init[m]).source is Aur by {
            assert(init[m] == aur[m]);
        }
        law_merge_refreshes_aur_packages(pkgs, init, i);
        law_merge_keeps_repo_and_installed(pkgs, init);
        lemma_last_record(init, n);
        let prev = merged(pkgs, init);
        let a = aur.last();
        assert(a.source is Aur);
        lemma_find_name(prev, a.name@);
        lemma_find_name(prev, n);
        assert(prev[i].name@ == n);
        assert(replaceable(prev[i]));
        match last_record(init, n) {
            Some(m) => {
                assert(init[m] == aur[m]);
            },
            None => {},
        }
        match find_name(prev, a.name@) {
            Some(j) => {
                if replaceable(prev[j]) {
                    let x = Package { installed: prev[j].installed, ..a };
                    lemma_find_update(prev, j, x, n);
                }
            },
            None => {
                lemma_find_push(prev, a, n);
            },
        }
    }
}

} // verus!
