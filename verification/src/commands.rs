//! What the command line decides: which recipes to apply and in what order,
//! what to queue for an install, which AUR packages have updates, which
//! packages a listing shows. The program runs the tools and prints.

use vstd::prelude::*;

use crate::index::Index;
use crate::model::{copy_strings, Details, Package, Source, Update};
use crate::queue::{step_views, Action, Queue, Step, StepView};
use crate::recipes::{find, recipe_index, spec_recipe_plan, ApplyOptions, Recipe};
use crate::text::{
    copy_str, lemma_less_irreflexive, lemma_less_total, lemma_less_transitive, push_str, seq_less, str_eq, str_less,
    string_views,
};

verus! {

broadcast use vstd::string::group_string_axioms;

/// Whether `v` holds `s`.
pub fn contains_name(v: &Vec<String>, s: &str) -> (r: bool)
    ensures
        r == string_views(v@).contains(s@),
{
    let mut i: usize = 0;
    while i < v.len()
        invariant
            i <= v@.len(),
            forall|j: int| 0 <= j < i ==> v@[j]@ != s@,
        decreases v@.len() - i,
    {
        if str_eq(v[i].as_str(), s) {
            assert(string_views(v@)[i as int] == s@);
            return true;
        }
        i = i + 1;
    }
    assert(!string_views(v@).contains(s@)) by {
        if string_views(v@).contains(s@) {
            let k = choose|k: int| 0 <= k < string_views(v@).len() && string_views(v@)[k] == s@;
            assert(v@[k]@ == s@);
        }
    }
    false
}

// ----------------------------------------------------------------- apply

/// The steps planned so far and the recipes already taken care of.
pub type Planned = (Seq<StepView>, Seq<Seq<char>>);

/// A needed recipe: taken care of once; its steps come when it exists.
pub open spec fn after_need(all: Seq<Recipe>, opts: ApplyOptions, st: Planned, need: Seq<char>) -> Planned {
    if st.1.contains(need) {
        st
    } else {
        match recipe_index(all, need) {
            Some(k) => (st.0 + spec_recipe_plan(all[k], opts), st.1.push(need)),
            None => (st.0, st.1.push(need)),
        }
    }
}

/// The needs of a recipe, in order.
pub open spec fn after_needs(all: Seq<Recipe>, opts: ApplyOptions, st: Planned, needs: Seq<Seq<char>>) -> Planned
    decreases needs.len(),
{
    if needs.len() == 0 {
        st
    } else {
        after_need(all, opts, after_needs(all, opts, st, needs.drop_last()), needs.last())
    }
}

/// A recipe asked for: first what it needs, then itself, each once.
pub open spec fn after_recipe(all: Seq<Recipe>, opts: ApplyOptions, st: Planned, k: int, id: Seq<char>) -> Planned {
    let st2 = after_needs(all, opts, st, string_views(all[k].needs@));
    if st2.1.contains(id) {
        st2
    } else {
        (st2.0 + spec_recipe_plan(all[k], opts), st2.1.push(id))
    }
}

/// What applying the recipes `ids` plans, or the first id that names no recipe.
pub open spec fn planned(all: Seq<Recipe>, opts: ApplyOptions, ids: Seq<Seq<char>>) -> Result<Planned, Seq<char>>
    decreases ids.len(),
{
    if ids.len() == 0 {
        Ok((Seq::<StepView>::empty(), Seq::<Seq<char>>::empty()))
    } else {
        match planned(all, opts, ids.drop_last()) {
            Err(e) => Err(e),
            Ok(st) => match recipe_index(all, ids.last()) {
                Some(k) => Ok(after_recipe(all, opts, st, k, ids.last())),
                None => Err(ids.last()),
            },
        }
    }
}

/// Why nothing can be applied.
#[derive(Debug)]
pub enum ApplyError {
    /// No recipe was asked for.
    NothingAsked,
    /// This id names no recipe.
    Unknown(String),
}

impl ApplyError {
    pub fn message(&self) -> (r: String)
        ensures
            r@ == apply_message(*self),
    {
        match self {
            ApplyError::NothingAsked => copy_str(
                "say which recipes: sanae apply fonts docker …  (sanae recipes lists them)",
            ),
            ApplyError::Unknown(id) => {
                let mut m = copy_str("no recipe named ");
                push_str(&mut m, id.as_str());
                m
            },
        }
    }
}

pub open spec fn apply_message(e: ApplyError) -> Seq<char> {
    match e {
        ApplyError::NothingAsked => "say which recipes: sanae apply fonts docker …  (sanae recipes lists them)"@,
        ApplyError::Unknown(id) => "no recipe named "@ + id@,
    }
}

fn push_steps(v: &mut Vec<Step>, more: Vec<Step>)
    ensures
        step_views(final(v)@) == step_views(old(v)@) + step_views(more@),
{
    let mut more = more;
    let ghost mv = more@;
    v.append(&mut more);
    assert(step_views(v@) =~= step_views(old(v)@) + step_views(mv));
}

/// Plans what a recipe needs, in order, each once.
fn plan_needs(all: &Vec<Recipe>, opts: &ApplyOptions, needs: &Vec<String>, steps: &mut Vec<Step>, done: &mut Vec<String>)
    ensures
        (step_views(final(steps)@), string_views(final(done)@)) == after_needs(
            all@,
            *opts,
            (step_views(old(steps)@), string_views(old(done)@)),
            string_views(needs@),
        ),
{
    let ghost nv = string_views(needs@);
    let ghost start = (step_views(steps@), string_views(done@));
    let mut i: usize = 0;
    assert(nv.take(0) =~= Seq::<Seq<char>>::empty());
    while i < needs.len()
        invariant
            nv == string_views(needs@),
            i <= needs@.len(),
            (step_views(steps@), string_views(done@)) == after_needs(all@, *opts, start, nv.take(i as int)),
        decreases needs@.len() - i,
    {
        assert(nv.take(i + 1).drop_last() =~= nv.take(i as int));
        assert(nv.take(i + 1).last() == needs@[i as int]@);
        let need = needs[i].as_str();
        if !contains_name(done, need) {
            let ghost before = done@;
            done.push(copy_str(need));
            assert(string_views(done@) =~= string_views(before).push(need@));
            match find(all.as_slice(), need) {
                Some(dep) => {
                    let more = dep.plan(opts);
                    push_steps(steps, more);
                },
                None => {},
            }
        }
        i = i + 1;
    }
    assert(nv.take(i as int) =~= nv);
}

/// The steps that apply the recipes `ids`, in order: for each, first the
/// recipes it needs, then itself; a recipe already planned is not planned
/// again. An error when no recipe is asked for or an id names none.
pub fn apply_plan(all: &Vec<Recipe>, ids: &Vec<String>, opts: &ApplyOptions) -> (r: Result<Vec<Step>, ApplyError>)
    ensures
        ids@.len() == 0 ==> r matches Err(ApplyError::NothingAsked),
        ids@.len() > 0 ==> match planned(all@, *opts, string_views(ids@)) {
            Ok(st) => r matches Ok(steps) && step_views(steps@) == st.0,
            Err(id) => r matches Err(ApplyError::Unknown(m)) && m@ == id,
        },
{
    if ids.len() == 0 {
        return Err(ApplyError::NothingAsked);
    }
    let ghost iv = string_views(ids@);
    let mut steps: Vec<Step> = Vec::new();
    let mut done: Vec<String> = Vec::new();
    assert(step_views(steps@) =~= Seq::<StepView>::empty());
    assert(string_views(done@) =~= Seq::<Seq<char>>::empty());
    assert(iv.take(0) =~= Seq::<Seq<char>>::empty());
    let mut i: usize = 0;
    while i < ids.len()
        invariant
            iv == string_views(ids@),
            i <= ids@.len(),
            planned(all@, *opts, iv.take(i as int)) == Ok::<Planned, Seq<char>>(
                (step_views(steps@), string_views(done@)),
            ),
        decreases ids@.len() - i,
    {
        assert(iv.take(i + 1).drop_last() =~= iv.take(i as int));
        assert(iv.take(i + 1).last() == ids@[i as int]@);
        let id = ids[i].as_str();
        match find(all.as_slice(), id) {
            None => {
                proof {
                    lemma_planned_stops(all@, *opts, iv, i as int);
                }
                return Err(ApplyError::Unknown(copy_str(id)));
            },
            Some(r) => {
                plan_needs(all, opts, &r.needs, &mut steps, &mut done);
                if !contains_name(&done, id) {
                    let ghost before = done@;
                    done.push(copy_str(id));
                    assert(string_views(done@) =~= string_views(before).push(id@));
                    let more = r.plan(opts);
                    push_steps(&mut steps, more);
                }
            },
        }
        i = i + 1;
    }
    assert(iv.take(i as int) =~= iv);
    Ok(steps)
}

/// Once an id names no recipe, the later ones do not matter.
proof fn lemma_planned_stops(all: Seq<Recipe>, opts: ApplyOptions, ids: Seq<Seq<char>>, i: int)
    requires
        0 <= i < ids.len(),
        planned(all, opts, ids.take(i)) is Ok,
        recipe_index(all, ids[i]) is None,
    ensures
        planned(all, opts, ids) == Err::<Planned, Seq<char>>(ids[i]),
    decreases ids.len() - i,
{
    assert(ids.take(i + 1).drop_last() =~= ids.take(i));
    assert(planned(all, opts, ids.take(i + 1)) == Err::<Planned, Seq<char>>(ids[i]));
    lemma_planned_err_stays(all, opts, ids, i + 1);
}

proof fn lemma_planned_err_stays(all: Seq<Recipe>, opts: ApplyOptions, ids: Seq<Seq<char>>, n: int)
    requires
        0 < n <= ids.len(),
        planned(all, opts, ids.take(n)) is Err,
    ensures
        planned(all, opts, ids) == planned(all, opts, ids.take(n)),
    decreases ids.len() - n,
{
    if n == ids.len() {
        assert(ids.take(n) =~= ids);
    } else {
        assert(ids.take(n + 1).drop_last() =~= ids.take(n));
        lemma_planned_err_stays(all, opts, ids, n + 1);
    }
}

// ---------------------------------------------------------------- search

/// A search result the flags let through.
pub open spec fn listed(p: Package, aur_only: bool, repos_only: bool, installed_only: bool) -> bool {
    &&& (!aur_only || p.source is Aur)
    &&& (!repos_only || p.source is Repo)
    &&& (!installed_only || p.installed is Some)
}

/// The results the flags let through, in order.
pub open spec fn listed_only(v: Seq<&Package>, aur_only: bool, repos_only: bool, installed_only: bool) -> Seq<&Package>
    decreases v.len(),
{
    if v.len() == 0 {
        v
    } else if listed(*v.last(), aur_only, repos_only, installed_only) {
        listed_only(v.drop_last(), aur_only, repos_only, installed_only).push(v.last())
    } else {
        listed_only(v.drop_last(), aur_only, repos_only, installed_only)
    }
}

/// At most the first `n` of `v`.
pub open spec fn at_most(v: Seq<&Package>, n: nat) -> Seq<&Package> {
    if v.len() <= n {
        v
    } else {
        v.take(n as int)
    }
}

/// The search results shown: those the flags let through, at most `limit`.
pub fn filter_results<'a>(found: Vec<&'a Package>, aur_only: bool, repos_only: bool, installed_only: bool, limit: usize) -> (r: Vec<&'a Package>)
    ensures
        r@ == at_most(listed_only(found@, aur_only, repos_only, installed_only), limit as nat),
{
    let ghost all = listed_only(found@, aur_only, repos_only, installed_only);
    let mut out: Vec<&'a Package> = Vec::new();
    let mut i: usize = 0;
    while i < found.len() && out.len() < limit
        invariant
            i <= found@.len(),
            all == listed_only(found@, aur_only, repos_only, installed_only),
            out@ == listed_only(found@.take(i as int), aur_only, repos_only, installed_only),
            out@.len() <= limit,
        decreases found@.len() - i,
    {
        assert(found@.take(i + 1).drop_last() =~= found@.take(i as int));
        let p = found[i];
        let keep = (!aur_only || p.source.is_aur()) && (!repos_only || matches!(p.source, Source::Repo(_)))
            && (!installed_only || p.installed.is_some());
        if keep {
            out.push(p);
        }
        i = i + 1;
    }
    proof {
        lemma_listed_prefix(found@, aur_only, repos_only, installed_only, i as int);
        if i == found@.len() {
            assert(found@.take(i as int) =~= found@);
        }
    }
    out
}

/// Filtering a prefix gives a prefix of the filtered whole.
proof fn lemma_listed_prefix(v: Seq<&Package>, a: bool, r: bool, inst: bool, i: int)
    requires
        0 <= i <= v.len(),
    ensures
        listed_only(v.take(i), a, r, inst).len() <= listed_only(v, a, r, inst).len(),
        listed_only(v, a, r, inst).take(listed_only(v.take(i), a, r, inst).len() as int) == listed_only(
            v.take(i),
            a,
            r,
            inst,
        ),
    decreases v.len() - i,
{
    if i == v.len() {
        assert(v.take(i) =~= v);
    } else {
        lemma_listed_prefix(v, a, r, inst, i + 1);
        assert(v.take(i + 1).drop_last() =~= v.take(i));
        let small = listed_only(v.take(i), a, r, inst);
        let big = listed_only(v.take(i + 1), a, r, inst);
        let whole = listed_only(v, a, r, inst);
        assert(whole.take(big.len() as int).take(small.len() as int) =~= whole.take(small.len() as int));
        assert(big.take(small.len() as int) =~= small);
    }
}

// ------------------------------------------------------------------ info

/// Whether the databases are asked for a package's details, and which one:
/// a repository package or an installed one is (the local database when it
/// is installed); others are not.
pub open spec fn local_details_query(p: Option<Package>) -> Option<bool> {
    match p {
        Some(p) => if p.source is Repo || p.installed is Some {
            Some(p.installed is Some)
        } else {
            None
        },
        None => None,
    }
}

/// Whether the AUR is asked: for anything that is not a repository package.
pub open spec fn asks_aur(p: Option<Package>) -> bool {
    match p {
        Some(p) => !(p.source is Repo),
        None => true,
    }
}

pub open spec fn opt_pkg(p: Option<&Package>) -> Option<Package> {
    match p {
        Some(p) => Some(*p),
        None => None,
    }
}

/// Where the details of a package come from: the local or sync database
/// (`Some(installed)`), and whether the AUR is asked too.
pub fn details_sources(p: Option<&Package>) -> (r: (Option<bool>, bool))
    ensures
        r.0 == local_details_query(opt_pkg(p)),
        r.1 == asks_aur(opt_pkg(p)),
{
    match p {
        Some(p) => {
            let installed = p.installed.is_some();
            let repo = matches!(p.source, Source::Repo(_));
            (if repo || installed { Some(installed) } else { None }, !repo)
        },
        None => (None, true),
    }
}

/// The details shown: the AUR's record where there is one, keeping the
/// databases' details but for the keywords, which only the AUR knows.
pub open spec fn merged_details(local: Option<Details>, aur: Option<Details>) -> Option<Details> {
    match aur {
        Some(d) => Some(
            match local {
                Some(l) => Details { keywords: d.keywords, ..l },
                None => d,
            },
        ),
        None => local,
    }
}

pub fn merge_details(local: Option<Details>, aur: Option<Details>) -> (r: Option<Details>)
    ensures
        r == merged_details(local, aur),
{
    match aur {
        Some(d) => Some(
            match local {
                Some(l) => Details { keywords: d.keywords, ..l },
                None => d,
            },
        ),
        None => local,
    }
}

// --------------------------------------------------------------- updates

/// The AUR records that are installed, as updates to compare: installed
/// version against the AUR's.
pub open spec fn aur_candidates(pkgs: Seq<Package>, found: Seq<crate::sources::aur::RpcPackage>) -> Seq<(Seq<char>, Seq<char>, Seq<char>)>
    decreases found.len(),
{
    if found.len() == 0 {
        Seq::empty()
    } else {
        let r = found.last();
        let before = aur_candidates(pkgs, found.drop_last());
        match crate::index::find_name(pkgs, r.name@) {
            Some(i) => match pkgs[i].installed {
                Some(inst) => before.push((r.name@, inst.version@, r.version@)),
                None => before,
            },
            None => before,
        }
    }
}

pub open spec fn update_views(v: Seq<Update>) -> Seq<(Seq<char>, Seq<char>, Seq<char>)> {
    Seq::new(v.len(), |i: int| (v[i].name@, v[i].current@, v[i].new@))
}

/// The AUR packages that are installed, with their installed and their
/// AUR versions; which are newer is for `vercmp` to say.
pub fn aur_update_candidates(index: &Index, found: &Vec<crate::sources::aur::RpcPackage>) -> (r: Vec<Update>)
    ensures
        update_views(r@) == aur_candidates(index@, found@),
        forall|i: int| 0 <= i < r@.len() ==> (#[trigger] r@[i]).source == Source::Aur,
{
    let mut out: Vec<Update> = Vec::new();
    let mut i: usize = 0;
    while i < found.len()
        invariant
            i <= found@.len(),
            update_views(out@) == aur_candidates(index@, found@.take(i as int)),
            forall|k: int| 0 <= k < out@.len() ==> (#[trigger] out@[k]).source == Source::Aur,
        decreases found@.len() - i,
    {
        assert(found@.take(i + 1).drop_last() =~= found@.take(i as int));
        let r = &found[i];
        match index.get(r.name.as_str()) {
            Some(p) => match &p.installed {
                Some(inst) => {
                    let ghost before = out@;
                    let u = Update {
                        name: copy_str(r.name.as_str()),
                        current: copy_str(inst.version.as_str()),
                        new: copy_str(r.version.as_str()),
                        source: Source::Aur,
                    };
                    out.push(u);
                    assert(update_views(out@) =~= update_views(before).push(
                        (r.name@, inst.version@, r.version@),
                    ));
                },
                None => {},
            },
            None => {},
        }
        i = i + 1;
    }
    assert(found@.take(i as int) =~= found@);
    out
}

/// The candidates whose installed version sorts before the AUR's.
pub open spec fn older_only(c: Seq<Update>, older: Seq<bool>) -> Seq<Update>
    decreases c.len(),
{
    if c.len() == 0 || older.len() == 0 {
        Seq::empty()
    } else if older.last() {
        older_only(c.drop_last(), older.drop_last()).push(c.last())
    } else {
        older_only(c.drop_last(), older.drop_last())
    }
}

/// Keeps the candidates that `vercmp` found older than the AUR:
/// `older[i]` says it of `candidates[i]`.
pub fn keep_older(candidates: Vec<Update>, older: &Vec<bool>) -> (r: Vec<Update>)
    requires
        older@.len() == candidates@.len(),
    ensures
        r@ == older_only(candidates@, older@),
{
    let mut out: Vec<Update> = Vec::new();
    let mut rest = candidates;
    let ghost all = rest@;
    let mut i: usize = 0;
    while i < older.len()
        invariant
            older@.len() == all.len(),
            i <= all.len(),
            rest@ == all.skip(i as int),
            out@ == older_only(all.take(i as int), older@.take(i as int)),
        decreases all.len() - i,
    {
        assert(all.take(i + 1).drop_last() =~= all.take(i as int));
        assert(older@.take(i + 1).drop_last() =~= older@.take(i as int));
        let u = rest.remove(0);
        assert(rest@ =~= all.skip(i + 1));
        if older[i] {
            out.push(u);
        }
        i = i + 1;
    }
    assert(all.take(i as int) =~= all);
    assert(older@.take(i as int) =~= older@);
    out
}

// --------------------------------------------------------------- install

/// Queueing the packages the index knows, in order: each for install, from
/// the AUR when that is where it comes from; the others are left for the AUR.
pub open spec fn queued_known(pkgs: Seq<Package>, items: Seq<crate::queue::ItemView>, names: Seq<Seq<char>>) -> (Seq<crate::queue::ItemView>, Seq<Seq<char>>)
    decreases names.len(),
{
    if names.len() == 0 {
        (items, Seq::empty())
    } else {
        let before = queued_known(pkgs, items, names.drop_last());
        let n = names.last();
        match crate::index::find_name(pkgs, n) {
            Some(i) => (crate::queue::toggled(before.0, n, Action::Install, pkgs[i].source is Aur), before.1),
            None => (before.0, before.1.push(n)),
        }
    }
}

/// Queues for install the packages the index knows and returns the others,
/// in order.
pub fn queue_known(index: &Index, packages: &Vec<String>, q: &mut Queue) -> (unknown: Vec<String>)
    ensures
        (final(q)@, string_views(unknown@)) == queued_known(index@, old(q)@, string_views(packages@)),
{
    let ghost pv = string_views(packages@);
    let ghost start = q@;
    let mut unknown: Vec<String> = Vec::new();
    let mut i: usize = 0;
    assert(pv.take(0) =~= Seq::<Seq<char>>::empty());
    while i < packages.len()
        invariant
            pv == string_views(packages@),
            i <= packages@.len(),
            (q@, string_views(unknown@)) == queued_known(index@, start, pv.take(i as int)),
        decreases packages@.len() - i,
    {
        assert(pv.take(i + 1).drop_last() =~= pv.take(i as int));
        assert(pv.take(i + 1).last() == packages@[i as int]@);
        let name = packages[i].as_str();
        match index.get(name) {
            Some(p) => {
                q.toggle(name, Action::Install, p.source.is_aur());
            },
            None => {
                let ghost before = unknown@;
                unknown.push(copy_str(name));
                assert(string_views(unknown@) =~= string_views(before).push(name@));
            },
        }
        i = i + 1;
    }
    assert(pv.take(i as int) =~= pv);
    unknown
}

/// The names of `names` that a press on a Darkside shelf queues: known to
/// the index, not installed, and not in the queue `items`.
pub open spec fn missing_names(pkgs: Seq<Package>, items: Seq<crate::queue::ItemView>, names: Seq<Seq<char>>) -> Seq<Seq<char>>
    decreases names.len(),
{
    if names.len() == 0 {
        Seq::empty()
    } else {
        let rest = missing_names(pkgs, items, names.drop_last());
        let n = names.last();
        let missing = match crate::index::find_name(pkgs, n) {
            Some(i) => pkgs[i].installed is None,
            None => false,
        };
        if missing && crate::queue::find_item(items, n) is None {
            rest.push(n)
        } else {
            rest
        }
    }
}

/// Toggling each of `names` for install in turn, from the AUR where the
/// index has the package from there.
pub open spec fn install_each(pkgs: Seq<Package>, items: Seq<crate::queue::ItemView>, names: Seq<Seq<char>>) -> Seq<crate::queue::ItemView>
    decreases names.len(),
{
    if names.len() == 0 {
        items
    } else {
        let n = names.last();
        let aur = match crate::index::find_name(pkgs, n) {
            Some(i) => pkgs[i].source is Aur,
            None => false,
        };
        crate::queue::toggled(install_each(pkgs, items, names.drop_last()), n, Action::Install, aur)
    }
}

/// Queues for install the packages of `names` that the index has, that are
/// not installed and not queued already (a Darkside shelf's tools); how many.
pub fn queue_missing(index: &Index, names: &Vec<String>, q: &mut Queue) -> (count: usize)
    ensures
        count == missing_names(index@, old(q)@, string_views(names@)).len(),
        final(q)@ == install_each(index@, old(q)@, missing_names(index@, old(q)@, string_views(names@))),
{
    let ghost nv = string_views(names@);
    let ghost start = q@;
    let mut chosen: Vec<String> = Vec::new();
    let mut i: usize = 0;
    assert(nv.take(0) =~= Seq::<Seq<char>>::empty());
    while i < names.len()
        invariant
            nv == string_views(names@),
            start == q@,
            i <= names@.len(),
            string_views(chosen@) == missing_names(index@, start, nv.take(i as int)),
        decreases names@.len() - i,
    {
        assert(nv.take(i + 1).drop_last() =~= nv.take(i as int));
        assert(nv.take(i + 1).last() == names@[i as int]@);
        let name = names[i].as_str();
        let missing = match index.get(name) {
            Some(p) => !p.is_installed(),
            None => false,
        };
        if missing && q.get(name).is_none() {
            let ghost before = chosen@;
            chosen.push(copy_str(name));
            assert(string_views(chosen@) =~= string_views(before).push(name@));
        }
        i = i + 1;
    }
    assert(nv.take(i as int) =~= nv);
    let ghost cv = string_views(chosen@);
    let mut k: usize = 0;
    assert(cv.take(0) =~= Seq::<Seq<char>>::empty());
    while k < chosen.len()
        invariant
            cv == string_views(chosen@),
            k <= chosen@.len(),
            q@ == install_each(index@, start, cv.take(k as int)),
        decreases chosen@.len() - k,
    {
        assert(cv.take(k + 1).drop_last() =~= cv.take(k as int));
        assert(cv.take(k + 1).last() == chosen@[k as int]@);
        let name = chosen[k].as_str();
        let aur = match index.get(name) {
            Some(p) => p.source.is_aur(),
            None => false,
        };
        q.toggle(name, Action::Install, aur);
        k = k + 1;
    }
    assert(cv.take(k as int) =~= cv);
    chosen.len()
}

/// The steps of the recipes `needs` names, in order; names no recipe has are
/// skipped.
pub open spec fn needs_plans(all: Seq<Recipe>, needs: Seq<Seq<char>>, opts: ApplyOptions) -> Seq<StepView>
    decreases needs.len(),
{
    if needs.len() == 0 {
        Seq::empty()
    } else {
        needs_plans(all, needs.drop_last(), opts) + match recipe_index(all, needs.last()) {
            Some(k) => spec_recipe_plan(all[k], opts),
            None => Seq::empty(),
        }
    }
}

/// The steps that apply a recipe from the Recipes tab: first those of the
/// recipes it needs, each as it stands, then its own.
pub fn recipe_steps(all: &Vec<Recipe>, r: &Recipe, opts: &ApplyOptions) -> (steps: Vec<Step>)
    ensures
        step_views(steps@) == needs_plans(all@, string_views(r.needs@), *opts) + spec_recipe_plan(*r, *opts),
{
    let ghost nv = string_views(r.needs@);
    let mut steps: Vec<Step> = Vec::new();
    let mut i: usize = 0;
    assert(nv.take(0) =~= Seq::<Seq<char>>::empty());
    assert(step_views(steps@) =~= Seq::<StepView>::empty());
    while i < r.needs.len()
        invariant
            nv == string_views(r.needs@),
            i <= r.needs@.len(),
            step_views(steps@) == needs_plans(all@, nv.take(i as int), *opts),
        decreases r.needs@.len() - i,
    {
        assert(nv.take(i + 1).drop_last() =~= nv.take(i as int));
        assert(nv.take(i + 1).last() == r.needs@[i as int]@);
        match find(all.as_slice(), r.needs[i].as_str()) {
            Some(dep) => {
                let more = dep.plan(opts);
                append_steps(&mut steps, more);
            },
            None => {
                assert(step_views(steps@) =~= needs_plans(all@, nv.take(i as int), *opts) + Seq::<StepView>::empty());
            },
        }
        i = i + 1;
    }
    assert(nv.take(i as int) =~= nv);
    let own = r.plan(opts);
    append_steps(&mut steps, own);
    steps
}

/// `more` appended to `steps`.
fn append_steps(steps: &mut Vec<Step>, more: Vec<Step>)
    ensures
        step_views(final(steps)@) == step_views(old(steps)@) + step_views(more@),
{
    let ghost before = steps@;
    let mut more = more;
    let ghost added = more@;
    steps.append(&mut more);
    assert(step_views(steps@) =~= step_views(before) + step_views(added));
}

/// Queueing the names the AUR found, in order, or the first it did not.
pub open spec fn queued_from_aur(items: Seq<crate::queue::ItemView>, names: Seq<Seq<char>>, found: Seq<Seq<char>>) -> Result<Seq<crate::queue::ItemView>, Seq<char>>
    decreases names.len(),
{
    if names.len() == 0 {
        Ok(items)
    } else {
        match queued_from_aur(items, names.drop_last(), found) {
            Err(n) => Err(n),
            Ok(before) => if found.contains(names.last()) {
                Ok(crate::queue::toggled(before, names.last(), Action::Install, true))
            } else {
                Err(names.last())
            },
        }
    }
}

proof fn lemma_aur_err_stays(items: Seq<crate::queue::ItemView>, names: Seq<Seq<char>>, found: Seq<Seq<char>>, n: int)
    requires
        0 < n <= names.len(),
        queued_from_aur(items, names.take(n), found) is Err,
    ensures
        queued_from_aur(items, names, found) == queued_from_aur(items, names.take(n), found),
    decreases names.len() - n,
{
    if n == names.len() {
        assert(names.take(n) =~= names);
    } else {
        assert(names.take(n + 1).drop_last() =~= names.take(n));
        lemma_aur_err_stays(items, names, found, n + 1);
    }
}

/// Queues for install from the AUR the names it found (`found`: the names of
/// the records it gave); the first name it does not have is an error.
pub fn queue_from_aur(q: &mut Queue, unknown: &Vec<String>, found: &Vec<String>) -> (r: Result<(), String>)
    ensures
        match queued_from_aur(old(q)@, string_views(unknown@), string_views(found@)) {
            Ok(items) => r is Ok && final(q)@ == items,
            Err(n) => r matches Err(m) && m@ == "no package named "@ + n + " in the repositories or the AUR"@,
        },
{
    let ghost uv = string_views(unknown@);
    let ghost fv = string_views(found@);
    let ghost start = q@;
    let mut i: usize = 0;
    assert(uv.take(0) =~= Seq::<Seq<char>>::empty());
    while i < unknown.len()
        invariant
            uv == string_views(unknown@),
            fv == string_views(found@),
            i <= unknown@.len(),
            queued_from_aur(start, uv.take(i as int), fv) == Ok::<Seq<crate::queue::ItemView>, Seq<char>>(q@),
            start == old(q)@,
        decreases unknown@.len() - i,
    {
        assert(uv.take(i + 1).drop_last() =~= uv.take(i as int));
        assert(uv.take(i + 1).last() == unknown@[i as int]@);
        let name = unknown[i].as_str();
        if contains_name(found, name) {
            q.toggle(name, Action::Install, true);
        } else {
            assert(queued_from_aur(start, uv.take(i + 1), fv) == Err::<Seq<crate::queue::ItemView>, Seq<char>>(name@));
            proof {
                lemma_aur_err_stays(start, uv, fv, i + 1);
            }
            let mut m = copy_str("no package named ");
            push_str(&mut m, name);
            push_str(&mut m, " in the repositories or the AUR");
            assert(m@ == "no package named "@ + name@ + " in the repositories or the AUR"@);
            return Err(m);
        }
        i = i + 1;
    }
    assert(uv.take(i as int) =~= uv);
    Ok(())
}

// ------------------------------------------------------------- listings

/// `a` comes no later than `b` by name.
pub open spec fn name_le(a: &Package, b: &Package) -> bool {
    !seq_less(b.name@, a.name@)
}

/// Sorted by name.
pub open spec fn sorted_by_name(v: Seq<&Package>) -> bool {
    forall|i: int, j: int| 0 <= i < j < v.len() ==> name_le(#[trigger] v[i], #[trigger] v[j])
}

/// The packages a list of references points at.
pub open spec fn derefs(v: Seq<&Package>) -> Seq<Package> {
    Seq::new(v.len(), |i: int| *v[i])
}

/// `r` holds the items of `v`, each once, and items with the same name in
/// the order they have in `v`: item `k` of `r` is item `idx[k]` of `v`.
pub open spec fn same_items_stable(v: Seq<&Package>, r: Seq<&Package>, idx: Seq<int>) -> bool {
    &&& idx.len() == r.len() == v.len()
    &&& forall|k: int| 0 <= k < r.len() ==> 0 <= #[trigger] idx[k] < v.len() && r[k] == v[idx[k]]
    &&& forall|a: int, b: int| 0 <= a < b < r.len() ==> #[trigger] idx[a] != #[trigger] idx[b]
    &&& forall|a: int, b: int|
        0 <= a < b < r.len() && (#[trigger] r[a]).name@ == (#[trigger] r[b]).name@ ==> idx[a] < idx[b]
}

/// The packages sorted by name; packages with the same name keep their order.
pub fn sort_by_name<'a>(v: Vec<&'a Package>) -> (r: Vec<&'a Package>)
    ensures
        sorted_by_name(r@),
        derefs(r@).to_multiset() == derefs(v@).to_multiset(),
        exists|idx: Seq<int>| same_items_stable(v@, r@, idx),
{
    broadcast use vstd::seq_lib::to_multiset_insert;

    let mut out: Vec<&'a Package> = Vec::new();
    let ghost mut idx: Seq<int> = Seq::empty();
    let mut i: usize = 0;
    assert(derefs(out@) =~= derefs(v@.take(0)));
    while i < v.len()
        invariant
            i <= v@.len(),
            sorted_by_name(out@),
            derefs(out@).to_multiset() == derefs(v@.take(i as int)).to_multiset(),
            idx.len() == out@.len() == i,
            forall|k: int| 0 <= k < out@.len() ==> 0 <= #[trigger] idx[k] < i && out@[k] == v@[idx[k]],
            forall|a: int, b: int| 0 <= a < b < out@.len() ==> #[trigger] idx[a] != #[trigger] idx[b],
            forall|a: int, b: int|
                0 <= a < b < out@.len() && (#[trigger] out@[a]).name@ == (#[trigger] out@[b]).name@
                    ==> idx[a] < idx[b],
        decreases v@.len() - i,
    {
        let x = v[i];
        let mut k: usize = 0;
        while k < out.len() && !str_less(x.name.as_str(), out[k].name.as_str())
            invariant
                k <= out@.len(),
                forall|j: int| 0 <= j < k ==> !seq_less(x.name@, (#[trigger] out@[j]).name@),
            decreases out@.len() - k,
        {
            k = k + 1;
        }
        let ghost before = out@;
        let ghost before_idx = idx;
        out.insert(k, x);
        proof {
            idx = before_idx.insert(k as int, i as int);
            assert(out@ == before.insert(k as int, x));
            assert forall|q: int| 0 <= q < out@.len() implies 0 <= #[trigger] idx[q] < i + 1 && out@[q] == v@[idx[q]] by {
                if q > k {
                    assert(idx[q] == before_idx[q - 1]);
                } else if q < k {
                    assert(idx[q] == before_idx[q]);
                }
            }
            assert forall|a: int, b: int| 0 <= a < b < out@.len() implies #[trigger] idx[a] != #[trigger] idx[b] by {
                if a != k && b != k {
                    let a0 = if a < k { a } else { a - 1 };
                    let b0 = if b < k { b } else { b - 1 };
                    assert(idx[a] == before_idx[a0] && idx[b] == before_idx[b0]);
                } else if a == k {
                    assert(idx[b] == before_idx[b - 1]);
                } else {
                    assert(idx[a] == before_idx[a]);
                }
            }
            assert forall|a: int, b: int|
                0 <= a < b < out@.len() && (#[trigger] out@[a]).name@ == (#[trigger] out@[b]).name@
                implies idx[a] < idx[b] by {
                if a != k && b != k {
                    let a0 = if a < k { a } else { a - 1 };
                    let b0 = if b < k { b } else { b - 1 };
                    assert(idx[a] == before_idx[a0] && idx[b] == before_idx[b0]);
                    assert(out@[a] == before[a0] && out@[b] == before[b0]);
                } else if a == k {
                    let y = before[b - 1];
                    let z = before[k as int];
                    assert(seq_less(x.name@, z.name@));
                    if b - 1 > k {
                        assert(name_le(before[k as int], before[b - 1]));
                    }
                    lemma_less_total(z.name@, y.name@);
                    if seq_less(z.name@, y.name@) {
                        lemma_less_transitive(x.name@, z.name@, y.name@);
                    }
                    lemma_less_irreflexive(x.name@);
                    assert(out@[b] == y);
                } else {
                    assert(idx[a] == before_idx[a]);
                }
            }
            assert forall|a: int, b: int| 0 <= a < b < out@.len() implies name_le(
                #[trigger] out@[a],
                #[trigger] out@[b],
            ) by {
                if b < k {
                    assert(out@[a] == before[a] && out@[b] == before[b]);
                } else if a > k {
                    assert(out@[a] == before[a - 1] && out@[b] == before[b - 1]);
                } else if a == k {
                    let y = before[b - 1];
                    assert(out@[b] == y);
                    assert(k < before.len());
                    let z = before[k as int];
                    assert(seq_less(x.name@, z.name@));
                    if b - 1 > k {
                        assert(name_le(before[k as int], before[b - 1]));
                    }
                    lemma_less_total(z.name@, y.name@);
                    if seq_less(z.name@, y.name@) {
                        lemma_less_transitive(x.name@, z.name@, y.name@);
                    }
                    lemma_less_total(x.name@, y.name@);
                } else if b == k {
                    assert(out@[a] == before[a]);
                    assert(!seq_less(x.name@, before[a].name@));
                } else {
                    assert(out@[a] == before[a] && out@[b] == before[b - 1]);
                }
            }
            assert(derefs(out@) =~= derefs(before).insert(k as int, *x));
            assert(derefs(v@.take(i + 1)) =~= derefs(v@.take(i as int)).push(*x));
            vstd::seq_lib::to_multiset_build(derefs(v@.take(i as int)), *x);
            vstd::seq_lib::to_multiset_insert(derefs(before), k as int, *x);
        }
        i = i + 1;
    }
    assert(v@.take(i as int) =~= v@);
    assert(same_items_stable(v@, out@, idx));
    out
}

/// The packages of `pkgs` that `names` name, in the order of `names`;
/// names the index does not know are skipped.
pub open spec fn named(pkgs: Seq<Package>, names: Seq<Seq<char>>) -> Seq<Package>
    decreases names.len(),
{
    if names.len() == 0 {
        Seq::empty()
    } else {
        match crate::index::find_name(pkgs, names.last()) {
            Some(i) => named(pkgs, names.drop_last()).push(pkgs[i]),
            None => named(pkgs, names.drop_last()),
        }
    }
}

/// Installed on purpose, not as a dependency.
pub open spec fn explicit_only(v: Seq<Package>) -> Seq<Package>
    decreases v.len(),
{
    if v.len() == 0 {
        v
    } else if v.last().installed matches Some(i) && i.explicit {
        explicit_only(v.drop_last()).push(v.last())
    } else {
        explicit_only(v.drop_last())
    }
}

/// What `sanae installed` lists before sorting: the installed packages, or
/// those `names` name (orphans, foreign), only the explicit ones on request.
pub open spec fn installed_choice(pkgs: Seq<Package>, names: Option<Seq<Seq<char>>>, explicit: bool) -> Seq<Package> {
    let all = match names {
        Some(ns) => named(pkgs, ns),
        None => crate::index::installed_where(pkgs, None),
    };
    if explicit {
        explicit_only(all)
    } else {
        all
    }
}

pub open spec fn opt_names(n: Option<&Vec<String>>) -> Option<Seq<Seq<char>>> {
    match n {
        Some(v) => Some(string_views(v@)),
        None => None,
    }
}

/// The packages `sanae installed` lists, sorted by name.
pub fn installed_listing<'a>(index: &'a Index, names: Option<&Vec<String>>, explicit: bool) -> (r: Vec<&'a Package>)
    ensures
        sorted_by_name(r@),
        derefs(r@).to_multiset() == installed_choice(index@, opt_names(names), explicit).to_multiset(),
{
    let all: Vec<&'a Package> = match names {
        Some(ns) => {
            let ghost nv = string_views(ns@);
            let mut out: Vec<&'a Package> = Vec::new();
            let mut i: usize = 0;
            assert(nv.take(0) =~= Seq::<Seq<char>>::empty());
            while i < ns.len()
                invariant
                    nv == string_views(ns@),
                    i <= ns@.len(),
                    derefs(out@) == named(index@, nv.take(i as int)),
                decreases ns@.len() - i,
            {
                assert(nv.take(i + 1).drop_last() =~= nv.take(i as int));
                assert(nv.take(i + 1).last() == ns@[i as int]@);
                let ghost before = out@;
                match index.get(ns[i].as_str()) {
                    Some(p) => {
                        out.push(p);
                        assert(derefs(out@) =~= derefs(before).push(*p));
                    },
                    None => {},
                }
                i = i + 1;
            }
            assert(nv.take(i as int) =~= nv);
            out
        },
        None => {
            let v = index.installed();
            assert(derefs(v@) =~= crate::index::installed_where(index@, None));
            v
        },
    };
    assert(derefs(all@) == match names {
        Some(ns) => named(index@, string_views(ns@)),
        None => crate::index::installed_where(index@, None),
    });
    let chosen: Vec<&'a Package> = if explicit {
        let mut out: Vec<&'a Package> = Vec::new();
        let mut i: usize = 0;
        while i < all.len()
            invariant
                i <= all@.len(),
                derefs(out@) == explicit_only(derefs(all@).take(i as int)),
            decreases all@.len() - i,
        {
            assert(derefs(all@).take(i + 1).drop_last() =~= derefs(all@).take(i as int));
            let p = all[i];
            let ghost before = out@;
            let keep = match &p.installed {
                Some(inst) => inst.explicit,
                None => false,
            };
            if keep {
                out.push(p);
                assert(derefs(out@) =~= derefs(before).push(*p));
            }
            i = i + 1;
        }
        assert(derefs(all@).take(i as int) =~= derefs(all@));
        out
    } else {
        all
    };
    sort_by_name(chosen)
}


// ------------------------------------------------------------------ laws

/// No recipe is taken care of twice.
pub open spec fn no_repeats(done: Seq<Seq<char>>) -> bool {
    forall|i: int, j: int| 0 <= i < j < done.len() ==> done[i] != done[j]
}

proof fn lemma_push_new(done: Seq<Seq<char>>, x: Seq<char>)
    requires
        no_repeats(done),
        !done.contains(x),
    ensures
        no_repeats(done.push(x)),
{
    assert forall|i: int, j: int| 0 <= i < j < done.push(x).len() implies done.push(x)[i] != done.push(x)[j] by {
        if j == done.len() {
            assert(done.push(x)[i] == done[i]);
        } else {
            assert(done.push(x)[i] == done[i] && done.push(x)[j] == done[j]);
        }
    }
}

proof fn lemma_needs_no_repeats(all: Seq<Recipe>, opts: ApplyOptions, st: Planned, needs: Seq<Seq<char>>)
    requires
        no_repeats(st.1),
    ensures
        no_repeats(after_needs(all, opts, st, needs).1),
        forall|k: int| 0 <= k < st.1.len() ==> after_needs(all, opts, st, needs).1.contains(#[trigger] st.1[k]),
        forall|k: int| 0 <= k < needs.len() ==> after_needs(all, opts, st, needs).1.contains(#[trigger] needs[k]),
    decreases needs.len(),
{
    if needs.len() > 0 {
        let init = needs.drop_last();
        lemma_needs_no_repeats(all, opts, st, init);
        let mid = after_needs(all, opts, st, init);
        let n = needs.last();
        if !mid.1.contains(n) {
            lemma_push_new(mid.1, n);
        }
        let fin = after_need(all, opts, mid, n);
        assert forall|k: int| 0 <= k < st.1.len() implies fin.1.contains(#[trigger] st.1[k]) by {
            let w = choose|w: int| 0 <= w < mid.1.len() && mid.1[w] == st.1[k];
            if !mid.1.contains(n) {
                assert(fin.1[w] == mid.1[w]);
            }
        }
        assert forall|k: int| 0 <= k < needs.len() implies fin.1.contains(#[trigger] needs[k]) by {
            if k < init.len() {
                assert(init[k] == needs[k]);
                let w = choose|w: int| 0 <= w < mid.1.len() && mid.1[w] == init[k];
                if !mid.1.contains(n) {
                    assert(fin.1[w] == mid.1[w]);
                }
            } else if !mid.1.contains(n) {
                assert(fin.1[mid.1.len() as int] == n);
            }
        }
    }
}

/// Applying recipes takes care of each recipe once: the recipes planned
/// never repeat, and every recipe asked for is among them.
pub proof fn law_each_recipe_once(all: Seq<Recipe>, opts: ApplyOptions, ids: Seq<Seq<char>>)
    ensures
        planned(all, opts, ids) matches Ok(st) ==> no_repeats(st.1) && forall|k: int|
            0 <= k < ids.len() ==> st.1.contains(#[trigger] ids[k]),
    decreases ids.len(),
{
    if ids.len() > 0 {
        let init = ids.drop_last();
        law_each_recipe_once(all, opts, init);
        match planned(all, opts, init) {
            Ok(st) => match recipe_index(all, ids.last()) {
                Some(k) => {
                    let id = ids.last();
                    let needs = string_views(all[k].needs@);
                    lemma_needs_no_repeats(all, opts, st, needs);
                    let st2 = after_needs(all, opts, st, needs);
                    if !st2.1.contains(id) {
                        lemma_push_new(st2.1, id);
                    }
                    let fin = after_recipe(all, opts, st, k, id);
                    assert forall|q: int| 0 <= q < ids.len() implies fin.1.contains(#[trigger] ids[q]) by {
                        if q < init.len() {
                            assert(init[q] == ids[q]);
                            assert(st.1.contains(init[q]));
                            let w = choose|w: int| 0 <= w < st.1.len() && st.1[w] == init[q];
                            assert(st2.1.contains(st.1[w]));
                            let v = choose|v: int| 0 <= v < st2.1.len() && st2.1[v] == st.1[w];
                            if !st2.1.contains(id) {
                                assert(fin.1[v] == st2.1[v]);
                            }
                        } else if !st2.1.contains(id) {
                            assert(fin.1[st2.1.len() as int] == id);
                        }
                    }
                },
                None => {},
            },
            Err(_) => {},
        }
    }
}

/// Every result shown passes the flags, and there are at most `limit`.
pub proof fn law_results_pass_filters(found: Seq<&Package>, aur_only: bool, repos_only: bool, installed_only: bool, limit: nat)
    ensures
        at_most(listed_only(found, aur_only, repos_only, installed_only), limit).len() <= limit,
        forall|k: int|
            0 <= k < at_most(listed_only(found, aur_only, repos_only, installed_only), limit).len()
                ==> listed(
                *#[trigger] at_most(listed_only(found, aur_only, repos_only, installed_only), limit)[k],
                aur_only,
                repos_only,
                installed_only,
            ),
{
    lemma_listed_all(found, aur_only, repos_only, installed_only);
}

proof fn lemma_listed_all(v: Seq<&Package>, a: bool, r: bool, inst: bool)
    ensures
        forall|k: int| 0 <= k < listed_only(v, a, r, inst).len() ==> listed(*#[trigger] listed_only(v, a, r, inst)[k], a, r, inst),
    decreases v.len(),
{
    if v.len() > 0 {
        lemma_listed_all(v.drop_last(), a, r, inst);
        let prev = listed_only(v.drop_last(), a, r, inst);
        assert forall|k: int| 0 <= k < listed_only(v, a, r, inst).len() implies listed(*#[trigger] listed_only(v, a, r, inst)[k], a, r, inst) by {
            if k < prev.len() {
                assert(listed_only(v, a, r, inst)[k] == prev[k]);
            }
        }
    }
}


// ------------------------------------------------------------ sanae info

/// An optional line as a list of none or one.
pub open spec fn opt_line(o: Option<Seq<char>>) -> Seq<Seq<char>> {
    match o {
        Some(l) => seq![l],
        None => Seq::empty(),
    }
}

pub open spec fn text_opt(o: Option<String>) -> Option<Seq<char>> {
    match o {
        Some(s) => Some(s@),
        None => None,
    }
}

/// A labelled line of `sanae info`: two spaces, the label in 12 columns, a
/// space, the value.
pub open spec fn info_field(label: Seq<char>, value: Seq<char>) -> Seq<char> {
    "  "@ + crate::screens::padded(label, 12) + " "@ + value
}

pub open spec fn field_opt(label: Seq<char>, v: Option<Seq<char>>) -> Seq<Seq<char>> {
    match v {
        Some(x) => seq![info_field(label, x)],
        None => Seq::empty(),
    }
}

pub open spec fn list_field(label: Seq<char>, v: Seq<Seq<char>>) -> Seq<Seq<char>> {
    field_opt(label, crate::screens::joined(v, ", "@))
}

pub open spec fn status_line(p: Package) -> Seq<char> {
    match p.installed {
        Some(i) => info_field("status"@, "installed "@ + i.version@ + " ("@
            + (if i.explicit { "explicitly"@ } else { "as a dependency"@ }) + ")"@ + match i.install_date {
            Some(d) => ", on "@ + crate::screens::date_text(d),
            None => ""@,
        }),
        None => info_field("status"@, "not installed"@),
    }
}

pub open spec fn votes_line(p: Package) -> Option<Seq<char>> {
    match p.votes {
        Some(v) => Some(info_field("votes"@, crate::text::decimal(v as nat) + "   popularity "@ + crate::screens::fixed(
            match p.popularity {
                Some(m) => m as nat,
                None => 0nat,
            },
            2,
        ))),
        None => None,
    }
}

/// What `sanae info` prints of a package: name, version and source, the
/// description, what is known of it, its status, and from the details its
/// relations, packager and build day.
pub open spec fn info_view(p: Package, d: Option<Details>) -> Seq<Seq<char>> {
    seq![p.name@ + "  "@ + p.version@ + "  ["@ + crate::model::source_label(p.source) + "]"@, "  "@ + p.description@]
        + field_opt("url"@, text_opt(p.url))
        + list_field("licenses"@, string_views(p.licenses@))
        + list_field("groups"@, string_views(p.groups@))
        + field_opt("installed"@, match p.install_size {
            Some(s) => Some(crate::show::human_text(s as nat)),
            None => None,
        })
        + field_opt("download"@, match p.download_size {
            Some(s) => Some(crate::show::human_text(s as nat)),
            None => None,
        })
        + opt_line(votes_line(p))
        + field_opt("maintainer"@, text_opt(p.maintainer))
        + opt_line(match p.out_of_date {
            Some(t) => Some("  OUT OF DATE  since "@ + crate::screens::date_text(t)),
            None => None,
        })
        + seq![status_line(p)]
        + match d {
            Some(d) => details_view(d),
            None => Seq::empty(),
        }
}

pub open spec fn details_view(d: Details) -> Seq<Seq<char>> {
    list_field("depends on"@, string_views(d.depends@))
        + list_field("optional"@, string_views(d.opt_depends@))
        + list_field("build needs"@, string_views(d.make_depends@))
        + list_field("provides"@, string_views(d.provides@))
        + list_field("conflicts"@, string_views(d.conflicts@))
        + list_field("required by"@, string_views(d.required_by@))
        + list_field("keywords"@, string_views(d.keywords@))
        + field_opt("packager"@, text_opt(d.packager))
        + field_opt("built"@, match d.build_date {
            Some(b) => Some(crate::screens::date_text(b)),
            None => None,
        })
}

fn info_line(label: &str, value: &str) -> (r: String)
    ensures
        r@ == info_field(label@, value@),
{
    let mut r = copy_str("  ");
    let l = crate::screens::pad(label, 12);
    push_str(&mut r, l.as_str());
    push_str(&mut r, " ");
    push_str(&mut r, value);
    r
}

fn push_opt(out: &mut Vec<String>, label: &str, v: Option<String>)
    ensures
        string_views(final(out)@) == string_views(old(out)@) + field_opt(label@, text_opt(v)),
{
    let ghost before = string_views(out@);
    match v {
        Some(x) => {
            let l = info_line(label, x.as_str());
            out.push(l);
        },
        None => {},
    }
    assert(string_views(out@) =~= before + field_opt(label@, text_opt(v)));
}

fn push_list_field(out: &mut Vec<String>, label: &str, v: &Vec<String>)
    ensures
        string_views(final(out)@) == string_views(old(out)@) + list_field(label@, string_views(v@)),
{
    let j = if v.len() > 0 { Some(crate::text::join_strings(v, ", ")) } else { None };
    push_opt(out, label, j);
}

fn push_plain(out: &mut Vec<String>, v: Option<String>)
    ensures
        string_views(final(out)@) == string_views(old(out)@) + opt_line(text_opt(v)),
{
    let ghost before = string_views(out@);
    match v {
        Some(x) => out.push(x),
        None => {},
    }
    assert(string_views(out@) =~= before + opt_line(text_opt(v)));
}

fn status_text(p: &Package) -> (r: String)
    ensures
        r@ == status_line(*p),
{
    proof {
        reveal_strlit("");
    }
    match &p.installed {
        Some(i) => {
            let mut v = copy_str("installed ");
            push_str(&mut v, i.version.as_str());
            push_str(&mut v, " (");
            push_str(&mut v, if i.explicit { "explicitly" } else { "as a dependency" });
            push_str(&mut v, ")");
            match i.install_date {
                Some(d) => {
                    push_str(&mut v, ", on ");
                    let day = crate::show::date(d);
                    push_str(&mut v, day.as_str());
                },
                None => {},
            }
            let r = info_line("status", v.as_str());
            assert(r@ =~= status_line(*p));
            r
        },
        None => info_line("status", "not installed"),
    }
}

fn votes_text(p: &Package) -> (r: Option<String>)
    ensures
        text_opt(r) == votes_line(*p),
{
    match p.votes {
        Some(v) => {
            let mut t = crate::text::u64_to_string(v as u64);
            push_str(&mut t, "   popularity ");
            let m: u64 = match p.popularity {
                Some(m) => m,
                None => 0,
            };
            let f = crate::screens::fixed_text(m, 2);
            push_str(&mut t, f.as_str());
            Some(info_line("votes", t.as_str()))
        },
        None => None,
    }
}

fn push_details(out: &mut Vec<String>, d: &Details)
    ensures
        string_views(final(out)@) == string_views(old(out)@) + details_view(*d),
{
    let ghost g = string_views(out@);
    let mut part: Vec<String> = Vec::new();
    push_list_field(&mut part, "depends on", &d.depends);
    push_list_field(&mut part, "optional", &d.opt_depends);
    push_list_field(&mut part, "build needs", &d.make_depends);
    push_list_field(&mut part, "provides", &d.provides);
    push_list_field(&mut part, "conflicts", &d.conflicts);
    push_list_field(&mut part, "required by", &d.required_by);
    push_list_field(&mut part, "keywords", &d.keywords);
    push_opt(&mut part, "packager", match &d.packager {
        Some(x) => Some(x.clone()),
        None => None,
    });
    push_opt(&mut part, "built", match d.build_date {
        Some(b) => Some(crate::show::date(b)),
        None => None,
    });
    assert(Seq::<Seq<char>>::empty() + details_view(*d) =~= details_view(*d));
    let ghost pv = string_views(part@);
    out.append(&mut part);
    assert(string_views(out@) =~= g + pv);
}

fn info_head(p: &Package) -> (out: Vec<String>)
    ensures
        string_views(out@) == seq![p.name@ + "  "@ + p.version@ + "  ["@ + crate::model::source_label(p.source) + "]"@, "  "@ + p.description@],
{
    let mut head = p.name.clone();
    push_str(&mut head, "  ");
    push_str(&mut head, p.version.as_str());
    push_str(&mut head, "  [");
    push_str(&mut head, p.source.label());
    push_str(&mut head, "]");
    let mut desc = copy_str("  ");
    push_str(&mut desc, p.description.as_str());
    let ghost (hv, dv) = (head@, desc@);
    let out = vec![head, desc];
    assert(string_views(out@) =~= seq![hv, dv]);
    out
}

/// What `sanae info` prints of a package and, when they were found, its details.
#[verifier::rlimit(40)]
pub fn info_text(p: &Package, details: Option<&Details>) -> (out: Vec<String>)
    ensures
        string_views(out@) == info_view(*p, match details {
            Some(d) => Some(*d),
            None => None,
        }),
{
    let mut out = info_head(p);
    push_opt(&mut out, "url", match &p.url {
        Some(u) => Some(u.clone()),
        None => None,
    });
    push_list_field(&mut out, "licenses", &p.licenses);
    push_list_field(&mut out, "groups", &p.groups);
    push_opt(&mut out, "installed", match p.install_size {
        Some(s) => Some(crate::show::human(s)),
        None => None,
    });
    push_opt(&mut out, "download", match p.download_size {
        Some(s) => Some(crate::show::human(s)),
        None => None,
    });
    push_plain(&mut out, votes_text(p));
    push_opt(&mut out, "maintainer", match &p.maintainer {
        Some(m) => Some(m.clone()),
        None => None,
    });
    let flagged = match p.out_of_date {
        Some(t) => {
            let mut l = copy_str("  OUT OF DATE  since ");
            let day = crate::show::date(t);
            push_str(&mut l, day.as_str());
            Some(l)
        },
        None => None,
    };
    push_plain(&mut out, flagged);
    let ghost g2 = string_views(out@);
    out.push(status_text(p));
    assert(string_views(out@) =~= g2 + seq![status_line(*p)]);
    let ghost g3 = string_views(out@);
    match details {
        Some(d) => push_details(&mut out, d),
        None => {
            assert(string_views(out@) =~= g3 + Seq::<Seq<char>>::empty());
        },
    }
    out
}

} // verus!
