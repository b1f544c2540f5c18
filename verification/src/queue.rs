//! The queue of changes and the commands that apply it.

use vstd::prelude::*;

use crate::config::{spec_aur_helper, spec_privilege, Config, Tools};
use crate::text::{
    char_views, copy_str, join, join_strings, lines, lines_of, parse_u64, parse_u64_chars, push_char,
    push_range, push_str, str_eq, string_of_all, string_views, to_chars, trim, trim_chars, words,
    words_of,
};

verus! {

#[derive(Clone, Copy, Debug, PartialEq, Eq, Structural)]
pub enum Action {
    Install,
    Remove,
}

#[derive(Debug, PartialEq, Eq)]
pub struct QueueItem {
    pub name: String,
    pub action: Action,
    pub aur: bool,
}

/// An item as values: name, action, whether it comes from the AUR.
pub type ItemView = (Seq<char>, Action, bool);

impl View for QueueItem {
    type V = ItemView;

    open spec fn view(&self) -> ItemView {
        (self.name@, self.action, self.aur)
    }
}

/// The values of a list of queue items.
pub open spec fn item_views(v: Seq<QueueItem>) -> Seq<ItemView> {
    Seq::new(v.len(), |i: int| v[i]@)
}

impl Clone for QueueItem {
    fn clone(&self) -> (r: Self)
        ensures
            r == *self,
    {
        QueueItem { name: self.name.clone(), action: self.action, aur: self.aur }
    }
}

/// One command to run, with a title for the screen.
#[derive(Debug, PartialEq, Eq)]
pub struct Step {
    pub title: String,
    pub program: String,
    pub args: Vec<String>,
}

/// A step as text: title, program, arguments.
pub type StepView = (Seq<char>, Seq<char>, Seq<Seq<char>>);

impl View for Step {
    type V = StepView;

    open spec fn view(&self) -> StepView {
        (self.title@, self.program@, string_views(self.args@))
    }
}

/// The texts of a list of steps.
pub open spec fn step_views(v: Seq<Step>) -> Seq<StepView> {
    Seq::new(v.len(), |i: int| v[i]@)
}

/// How a command line is shown: the program and its arguments, separated by spaces.
pub open spec fn command_line(program: Seq<char>, args: Seq<Seq<char>>) -> Seq<char> {
    join(seq![program] + args, " "@)
}

/// The strings of a list of literals.
pub open spec fn str_views(v: Seq<&str>) -> Seq<Seq<char>> {
    Seq::new(v.len(), |i: int| v[i]@)
}

/// Owned copies of a list of texts.
pub fn to_strings(v: &[&str]) -> (r: Vec<String>)
    ensures
        string_views(r@) == str_views(v@),
{
    let mut r: Vec<String> = Vec::new();
    let mut i: usize = 0;
    while i < v.len()
        invariant
            i <= v@.len(),
            string_views(r@) == str_views(v@).take(i as int),
        decreases v.len() - i,
    {
        let ghost before = r@;
        r.push(copy_str(v[i]));
        assert(string_views(r@) =~= string_views(before).push(v@[i as int]@));
        assert(str_views(v@).take(i + 1) =~= str_views(v@).take(i as int).push(v@[i as int]@));
        i = i + 1;
    }
    assert(str_views(v@).take(i as int) =~= str_views(v@));
    r
}

/// Appends copies of `extra` to `v`.
pub fn push_all(v: &mut Vec<String>, extra: &Vec<String>)
    ensures
        string_views(final(v)@) == string_views(old(v)@) + string_views(extra@),
{
    let mut i: usize = 0;
    while i < extra.len()
        invariant
            i <= extra@.len(),
            string_views(v@) == string_views(old(v)@) + string_views(extra@).take(i as int),
        decreases extra.len() - i,
    {
        let ghost before = v@;
        v.push(extra[i].clone());
        assert(string_views(v@) =~= string_views(before).push(extra@[i as int]@));
        assert(string_views(extra@).take(i + 1) =~= string_views(extra@).take(i as int).push(
            extra@[i as int]@,
        ));
        i = i + 1;
    }
    assert(string_views(extra@).take(i as int) =~= string_views(extra@));
}

impl Step {
    pub fn new(title: &str, program: &str, args: &[&str]) -> (r: Self)
        ensures
            r@ == (title@, program@, str_views(args@)),
    {
        Step { title: copy_str(title), program: copy_str(program), args: to_strings(args) }
    }

    pub fn command_line(&self) -> (r: String)
        ensures
            r@ == command_line(self.program@, string_views(self.args@)),
    {
        let mut s = self.program.clone();
        let ghost all = seq![self.program@] + string_views(self.args@);
        let mut i: usize = 0;
        assert(all.take(1) =~= seq![self.program@]);
        while i < self.args.len()
            invariant
                i <= self.args@.len(),
                all == seq![self.program@] + string_views(self.args@),
                s@ == join(all.take(i + 1), " "@),
            decreases self.args.len() - i,
        {
            push_char(&mut s, ' ');
            push_str(&mut s, self.args[i].as_str());
            proof {
                reveal_strlit(" ");
            }
            assert(all.take(i + 2).drop_last() =~= all.take(i + 1));
            assert(all.take(i + 2).last() == self.args@[i as int]@);
            assert(s@ =~= join(all.take(i + 2), " "@));
            i = i + 1;
        }
        assert(all.take(i + 1) =~= all);
        s
    }
}

#[derive(Debug, Default)]
pub struct Queue {
    pub items: Vec<QueueItem>,
}

impl View for Queue {
    type V = Seq<ItemView>;

    open spec fn view(&self) -> Seq<ItemView> {
        item_views(self.items@)
    }
}

impl Clone for Queue {
    fn clone(&self) -> (r: Self)
        ensures
            r@ == self@,
    {
        let mut items: Vec<QueueItem> = Vec::new();
        let mut i: usize = 0;
        while i < self.items.len()
            invariant
                i <= self.items@.len(),
                items@ == self.items@.take(i as int),
            decreases self.items.len() - i,
        {
            items.push(self.items[i].clone());
            assert(self.items@.take(i + 1) =~= self.items@.take(i as int).push(self.items@[i as int]));
            i = i + 1;
        }
        assert(self.items@.take(i as int) =~= self.items@);
        let r = Queue { items };
        assert(r@ =~= self@);
        r
    }
}

/// Where the first item for `name` stands, if there is one.
pub open spec fn find_item(items: Seq<ItemView>, name: Seq<char>) -> Option<int>
    decreases items.len(),
{
    if items.len() == 0 {
        None
    } else {
        match find_item(items.drop_last(), name) {
            Some(i) => Some(i),
            None => if items.last().0 == name {
                Some(items.len() - 1)
            } else {
                None
            },
        }
    }
}

/// The queue after toggling `name`: an item with the same action is taken out,
/// one with another action is replaced, a new one goes at the end.
pub open spec fn toggled(items: Seq<ItemView>, name: Seq<char>, action: Action, aur: bool) -> Seq<
    ItemView,
> {
    match find_item(items, name) {
        Some(p) => if items[p].1 == action {
            items.remove(p)
        } else {
            items.remove(p).push((name, action, aur))
        },
        None => items.push((name, action, aur)),
    }
}

/// The items whose name is not `name`, in order.
pub open spec fn without(items: Seq<ItemView>, name: Seq<char>) -> Seq<ItemView>
    decreases items.len(),
{
    if items.len() == 0 {
        items
    } else if items.last().0 == name {
        without(items.drop_last(), name)
    } else {
        without(items.drop_last(), name).push(items.last())
    }
}

/// The names of the items with this action and origin, in order.
pub open spec fn names_of(items: Seq<ItemView>, action: Action, aur: bool) -> Seq<Seq<char>>
    decreases items.len(),
{
    if items.len() == 0 {
        Seq::<Seq<char>>::empty()
    } else if items.last().1 == action && items.last().2 == aur {
        names_of(items.drop_last(), action, aur).push(items.last().0)
    } else {
        names_of(items.drop_last(), action, aur)
    }
}

/// No name is queued twice.
pub open spec fn names_unique(items: Seq<ItemView>) -> bool {
    forall|i: int, j: int|
        0 <= i < items.len() && 0 <= j < items.len() && i != j ==> #[trigger] items[i].0
            != #[trigger] items[j].0
}

/// The removal step, when something is to be removed (repository and AUR packages alike).
pub open spec fn plan_removals(items: Seq<ItemView>, sudo: Seq<char>) -> Seq<StepView> {
    let removes = names_of(items, Action::Remove, false) + names_of(items, Action::Remove, true);
    if removes.len() > 0 {
        seq![
            ("Removing "@ + join(removes, " "@), sudo, seq!["pacman"@, "-Rs"@, "--noconfirm"@]
                + removes),
        ]
    } else {
        seq![]
    }
}

/// The repository install step, when something is to be installed from the repositories.
pub open spec fn plan_repo(items: Seq<ItemView>, sudo: Seq<char>) -> Seq<StepView> {
    let repo = names_of(items, Action::Install, false);
    if repo.len() > 0 {
        seq![
            ("Installing "@ + join(repo, " "@), sudo, seq![
                "pacman"@,
                "-S"@,
                "--needed"@,
                "--noconfirm"@,
            ] + repo),
        ]
    } else {
        seq![]
    }
}

/// The AUR step, when something is to be built from the AUR: through the
/// helper, or a step that fails and says why when there is none.
pub open spec fn plan_aur(items: Seq<ItemView>, helper: Option<Seq<char>>) -> Seq<StepView> {
    let aur = names_of(items, Action::Install, true);
    if aur.len() > 0 {
        match helper {
            Some(h) => seq![
                ("Building from the AUR: "@ + join(aur, " "@), h, seq![
                    "-S"@,
                    "--needed"@,
                    "--noconfirm"@,
                ] + (if h == "paru"@ {
                    seq!["--skipreview"@]
                } else {
                    Seq::<Seq<char>>::empty()
                }) + aur),
            ],
            None => seq![
                ("No AUR helper (paru or yay) for: "@ + join(aur, " "@), "false"@, Seq::<
                    Seq<char>,
                >::empty()),
            ],
        }
    } else {
        seq![]
    }
}

proof fn lemma_names_of_contains(items: Seq<ItemView>, action: Action, aur: bool, n: Seq<char>)
    ensures
        names_of(items, action, aur).contains(n) <==> exists|i: int|
            0 <= i < items.len() && (#[trigger] items[i]).0 == n && items[i].1 == action && items[i].2 == aur,
    decreases items.len(),
{
    if items.len() > 0 {
        let init = items.drop_last();
        lemma_names_of_contains(init, action, aur, n);
        let rest = names_of(init, action, aur);
        if exists|i: int| 0 <= i < init.len() && (#[trigger] init[i]).0 == n && init[i].1 == action && init[i].2 == aur {
            let i = choose|i: int| 0 <= i < init.len() && (#[trigger] init[i]).0 == n && init[i].1 == action && init[i].2 == aur;
            assert(items[i] == init[i]);
            let j = choose|j: int| 0 <= j < rest.len() && rest[j] == n;
            if items.last().1 == action && items.last().2 == aur {
                assert(rest.push(items.last().0)[j] == n);
            }
        }
        if names_of(items, action, aur).contains(n) {
            let j = choose|j: int| 0 <= j < names_of(items, action, aur).len() && names_of(items, action, aur)[j] == n;
            if items.last().1 == action && items.last().2 == aur && j == rest.len() {
                assert(items[items.len() - 1].0 == n);
            } else {
                assert(rest.contains(n));
                let i = choose|i: int| 0 <= i < init.len() && (#[trigger] init[i]).0 == n && init[i].1 == action && init[i].2 == aur;
                assert(items[i] == init[i]);
            }
        } else {
            assert forall|i: int| 0 <= i < items.len() && (#[trigger] items[i]).0 == n && items[i].1 == action implies items[i].2 != aur by {
                if i < init.len() {
                    assert(items[i] == init[i]);
                    if items[i].2 == aur {
                        assert(rest.contains(n));
                        let j = choose|j: int| 0 <= j < rest.len() && rest[j] == n;
                        if items.last().1 == action && items.last().2 == aur {
                            assert(rest.push(items.last().0)[j] == n);
                        }
                    }
                } else if items[i].2 == aur {
                    assert(names_of(items, action, aur) == rest.push(items.last().0));
                    assert(names_of(items, action, aur)[rest.len() as int] == n);
                }
            }
        }
    }
}

/// Each queued name goes to exactly one step: the removal step, the
/// repository step or the AUR step, as its action and origin say (names
/// queued once, as the queue keeps them).
pub proof fn law_each_name_in_one_step(items: Seq<ItemView>, k: int, action: Action, aur: bool)
    requires
        names_unique(items),
        0 <= k < items.len(),
    ensures
        names_of(items, action, aur).contains(items[k].0) <==> (items[k].1 == action && items[k].2 == aur),
{
    lemma_names_of_contains(items, action, aur, items[k].0);
}

/// How many times `x` occurs in `s`.
pub open spec fn occurrences(s: Seq<Seq<char>>, x: Seq<char>) -> nat
    decreases s.len(),
{
    if s.len() == 0 {
        0
    } else {
        occurrences(s.drop_last(), x) + if s.last() == x {
            1nat
        } else {
            0nat
        }
    }
}

/// How many times `x` occurs among the arguments of all the steps.
pub open spec fn in_arguments(plan: Seq<StepView>, x: Seq<char>) -> nat
    decreases plan.len(),
{
    if plan.len() == 0 {
        0
    } else {
        in_arguments(plan.drop_last(), x) + occurrences(plan.last().2, x)
    }
}

/// The words a plan's steps hold besides package names.
pub open spec fn is_fixed_word(w: Seq<char>) -> bool {
    w == "pacman"@ || w == "-Rs"@ || w == "-S"@ || w == "--needed"@ || w == "--noconfirm"@ || w == "--skipreview"@
}

/// How many of the queue's three groups are not empty: removals, repository
/// installs, AUR installs.
pub open spec fn groups_in_use(items: Seq<ItemView>) -> nat {
    (if names_of(items, Action::Remove, false).len() + names_of(items, Action::Remove, true).len() > 0 {
        1nat
    } else {
        0nat
    }) + (if names_of(items, Action::Install, false).len() > 0 {
        1nat
    } else {
        0nat
    }) + (if names_of(items, Action::Install, true).len() > 0 {
        1nat
    } else {
        0nat
    })
}

proof fn lemma_occurrences_concat(a: Seq<Seq<char>>, b: Seq<Seq<char>>, x: Seq<char>)
    ensures
        occurrences(a + b, x) == occurrences(a, x) + occurrences(b, x),
    decreases b.len(),
{
    if b.len() == 0 {
        assert(a + b =~= a);
    } else {
        lemma_occurrences_concat(a, b.drop_last(), x);
        assert((a + b).drop_last() =~= a + b.drop_last());
        assert((a + b).last() == b.last());
    }
}

proof fn lemma_in_arguments_concat(a: Seq<StepView>, b: Seq<StepView>, x: Seq<char>)
    ensures
        in_arguments(a + b, x) == in_arguments(a, x) + in_arguments(b, x),
    decreases b.len(),
{
    if b.len() == 0 {
        assert(a + b =~= a);
    } else {
        lemma_in_arguments_concat(a, b.drop_last(), x);
        assert((a + b).drop_last() =~= a + b.drop_last());
        assert((a + b).last() == b.last());
    }
}

proof fn lemma_occurrences_contains(s: Seq<Seq<char>>, x: Seq<char>)
    ensures
        occurrences(s, x) > 0 <==> s.contains(x),
    decreases s.len(),
{
    if s.len() > 0 {
        lemma_occurrences_contains(s.drop_last(), x);
        if s.drop_last().contains(x) {
            let j = choose|j: int| 0 <= j < s.drop_last().len() && s.drop_last()[j] == x;
            assert(s[j] == x);
        }
        if s.contains(x) && s.last() != x {
            let j = choose|j: int| 0 <= j < s.len() && s[j] == x;
            assert(s.drop_last()[j] == x);
        }
    }
}

/// With names queued once, a name occurs at most once in a group, and once
/// exactly in the group of its action and origin.
proof fn lemma_names_of_once(items: Seq<ItemView>, action: Action, aur: bool, n: Seq<char>)
    requires
        names_unique(items),
    ensures
        occurrences(names_of(items, action, aur), n) <= 1,
    decreases items.len(),
{
    if items.len() > 0 {
        let init = items.drop_last();
        assert(names_unique(init)) by {
            assert forall|i: int, j: int| 0 <= i < init.len() && 0 <= j < init.len() && i != j implies #[trigger] init[i].0
                != #[trigger] init[j].0 by {
                assert(init[i] == items[i] && init[j] == items[j]);
            }
        }
        lemma_names_of_once(init, action, aur, n);
        if items.last().1 == action && items.last().2 == aur && items.last().0 == n {
            lemma_names_of_contains(init, action, aur, n);
            if names_of(init, action, aur).contains(n) {
                let i = choose|i: int| 0 <= i < init.len() && (#[trigger] init[i]).0 == n && init[i].1 == action && init[i].2 == aur;
                assert(items[i] == init[i]);
                assert(items[i].0 != items[items.len() - 1].0);
            }
            lemma_occurrences_contains(names_of(init, action, aur), n);
            assert(names_of(items, action, aur).drop_last() =~= names_of(init, action, aur));
        } else if items.last().1 == action && items.last().2 == aur {
            assert(names_of(items, action, aur).drop_last() =~= names_of(init, action, aur));
        }
    }
}

proof fn lemma_group_count(items: Seq<ItemView>, k: int, action: Action, aur: bool)
    requires
        names_unique(items),
        0 <= k < items.len(),
    ensures
        occurrences(names_of(items, action, aur), items[k].0) == (if items[k].1 == action && items[k].2 == aur {
            1nat
        } else {
            0nat
        }),
{
    law_each_name_in_one_step(items, k, action, aur);
    lemma_names_of_once(items, action, aur, items[k].0);
    lemma_occurrences_contains(names_of(items, action, aur), items[k].0);
}

proof fn lemma_fixed_absent(w: Seq<Seq<char>>, n: Seq<char>)
    requires
        forall|i: int| 0 <= i < w.len() ==> is_fixed_word(#[trigger] w[i]),
        !is_fixed_word(n),
    ensures
        occurrences(w, n) == 0,
    decreases w.len(),
{
    if w.len() > 0 {
        lemma_fixed_absent(w.drop_last(), n);
        assert(is_fixed_word(w[w.len() - 1]));
    }
}

/// With an AUR helper and names queued once, every queued name that is not
/// one of the plan's fixed words occurs exactly once among the arguments of
/// all the steps (so in one step only); every other argument is a fixed word
/// or a queued name; there is one step per group in use, and an empty queue
/// gives no steps.
pub proof fn law_plan_names_once(items: Seq<ItemView>, sudo: Seq<char>, h: Seq<char>)
    requires
        names_unique(items),
    ensures
        forall|k: int| 0 <= k < items.len() && !is_fixed_word(items[k].0) ==> in_arguments(
            spec_plan(items, sudo, Some(h)),
            #[trigger] items[k].0,
        ) == 1,
        forall|j: int, i: int|
            0 <= j < spec_plan(items, sudo, Some(h)).len() && 0 <= i < spec_plan(items, sudo, Some(h))[j].2.len()
                ==> is_fixed_word(#[trigger] spec_plan(items, sudo, Some(h))[j].2[i]) || exists|k: int|
                0 <= k < items.len() && items[k].0 == spec_plan(items, sudo, Some(h))[j].2[i],
        spec_plan(items, sudo, Some(h)).len() == groups_in_use(items),
        items.len() == 0 ==> spec_plan(items, sudo, Some(h)).len() == 0,
{
    reveal_strlit("pacman");
    reveal_strlit("-Rs");
    reveal_strlit("-S");
    reveal_strlit("--needed");
    reveal_strlit("--noconfirm");
    reveal_strlit("--skipreview");
    let rm = names_of(items, Action::Remove, false) + names_of(items, Action::Remove, true);
    let repo = names_of(items, Action::Install, false);
    let aur = names_of(items, Action::Install, true);
    let wr: Seq<Seq<char>> = seq!["pacman"@, "-Rs"@, "--noconfirm"@];
    let wi: Seq<Seq<char>> = seq!["pacman"@, "-S"@, "--needed"@, "--noconfirm"@];
    let wa: Seq<Seq<char>> = seq!["-S"@, "--needed"@, "--noconfirm"@] + (if h == "paru"@ {
        seq!["--skipreview"@]
    } else {
        Seq::<Seq<char>>::empty()
    });
    let pr = plan_removals(items, sudo);
    let pi = plan_repo(items, sudo);
    let pa = plan_aur(items, Some(h));
    let plan = spec_plan(items, sudo, Some(h));
    assert forall|i: int| 0 <= i < wa.len() implies is_fixed_word(#[trigger] wa[i]) by {
        if i < 3 {
            assert(wa[i] == seq!["-S"@, "--needed"@, "--noconfirm"@][i]);
        }
    }
    // Each queued name, once.
    assert forall|k: int| 0 <= k < items.len() && !is_fixed_word(items[k].0) implies in_arguments(plan, #[trigger] items[k].0) == 1 by {
        let n = items[k].0;
        lemma_group_count(items, k, Action::Remove, false);
        lemma_group_count(items, k, Action::Remove, true);
        lemma_group_count(items, k, Action::Install, false);
        lemma_group_count(items, k, Action::Install, true);
        lemma_occurrences_concat(names_of(items, Action::Remove, false), names_of(items, Action::Remove, true), n);
        lemma_fixed_absent(wr, n);
        lemma_fixed_absent(wi, n);
        lemma_fixed_absent(wa, n);
        lemma_occurrences_concat(wr, rm, n);
        lemma_occurrences_concat(wi, repo, n);
        lemma_occurrences_concat(wa, aur, n);
        lemma_in_arguments_concat(pr, pi, n);
        lemma_in_arguments_concat(pr + pi, pa, n);
        if rm.len() > 0 {
            assert(in_arguments(pr, n) == occurrences(wr + rm, n)) by {
                assert(pr.drop_last() =~= Seq::<StepView>::empty());
                assert(in_arguments(Seq::<StepView>::empty(), n) == 0);
                assert(pr.last().2 == wr + rm);
            }
        } else {
            lemma_occurrences_contains(rm, n);
        }
        if repo.len() > 0 {
            assert(in_arguments(pi, n) == occurrences(wi + repo, n)) by {
                assert(pi.drop_last() =~= Seq::<StepView>::empty());
                assert(in_arguments(Seq::<StepView>::empty(), n) == 0);
                assert(pi.last().2 == wi + repo);
            }
        } else {
            lemma_occurrences_contains(repo, n);
        }
        if aur.len() > 0 {
            assert(in_arguments(pa, n) == occurrences(wa + aur, n)) by {
                assert(pa.drop_last() =~= Seq::<StepView>::empty());
                assert(in_arguments(Seq::<StepView>::empty(), n) == 0);
                assert(pa.last().2 == wa + aur);
            }
        } else {
            lemma_occurrences_contains(aur, n);
        }
    }
    // Every argument: a fixed word or a queued name.
    assert forall|j: int, i: int| 0 <= j < plan.len() && 0 <= i < plan[j].2.len() implies is_fixed_word(#[trigger] plan[j].2[i])
        || exists|k: int| 0 <= k < items.len() && items[k].0 == plan[j].2[i] by {
        let st = plan[j];
        let w = st.2[i];
        if !is_fixed_word(w) {
            if j < pr.len() {
                assert(st == pr[j]);
                assert(st.2 == wr + rm);
                assert(i >= 3);
                assert(rm.contains(w)) by {
                    assert(rm[i - 3] == w);
                }
                let nr = names_of(items, Action::Remove, false);
                if nr.contains(w) {
                    lemma_names_of_contains(items, Action::Remove, false, w);
                } else {
                    let q = choose|q: int| 0 <= q < rm.len() && rm[q] == w;
                    if q < nr.len() {
                        assert(nr[q] == w);
                    }
                    assert(names_of(items, Action::Remove, true)[q - nr.len()] == w);
                    lemma_names_of_contains(items, Action::Remove, true, w);
                }
            } else if j < pr.len() + pi.len() {
                assert(plan[j] == (pr + pi)[j]);
                assert(st == pi[j - pr.len()]);
                assert(st.2 == wi + repo);
                assert(i >= 4);
                assert(repo[i - 4] == w);
                lemma_names_of_contains(items, Action::Install, false, w);
            } else {
                assert(st == pa[j - pr.len() - pi.len()]);
                assert(st.2 == wa + aur);
                assert(i >= wa.len()) by {
                    if i < wa.len() {
                        assert(is_fixed_word(wa[i]));
                    }
                }
                assert(aur[i - wa.len()] == w);
                lemma_names_of_contains(items, Action::Install, true, w);
            }
        }
    }
    if items.len() == 0 {
        assert(names_of(items, Action::Remove, false).len() == 0);
    }
}

/// A queued package named like one of the plan's fixed words (`pacman`)
/// occurs more than once among the arguments when it is removed or installed
/// from the repositories: once as the word, once as the name.
pub proof fn law_fixed_word_name_repeats(items: Seq<ItemView>, sudo: Seq<char>, h: Seq<char>, k: int)
    requires
        names_unique(items),
        0 <= k < items.len(),
        items[k].0 == "pacman"@,
        !(items[k].1 == Action::Install && items[k].2),
    ensures
        in_arguments(spec_plan(items, sudo, Some(h)), items[k].0) >= 2,
{
    let n = items[k].0;
    let rm = names_of(items, Action::Remove, false) + names_of(items, Action::Remove, true);
    let repo = names_of(items, Action::Install, false);
    let wr: Seq<Seq<char>> = seq!["pacman"@, "-Rs"@, "--noconfirm"@];
    let wi: Seq<Seq<char>> = seq!["pacman"@, "-S"@, "--needed"@, "--noconfirm"@];
    let pr = plan_removals(items, sudo);
    let pi = plan_repo(items, sudo);
    let pa = plan_aur(items, Some(h));
    lemma_group_count(items, k, Action::Remove, false);
    lemma_group_count(items, k, Action::Remove, true);
    lemma_group_count(items, k, Action::Install, false);
    lemma_occurrences_concat(names_of(items, Action::Remove, false), names_of(items, Action::Remove, true), n);
    lemma_in_arguments_concat(pr, pi, n);
    lemma_in_arguments_concat(pr + pi, pa, n);
    assert(occurrences(seq!["pacman"@], n) == 1) by {
        assert(seq!["pacman"@].drop_last() =~= Seq::<Seq<char>>::empty());
        assert(occurrences(Seq::<Seq<char>>::empty(), n) == 0);
    }
    if items[k].1 == Action::Remove {
        lemma_occurrences_contains(rm, n);
        assert(wr =~= seq!["pacman"@] + seq!["-Rs"@, "--noconfirm"@]);
        lemma_occurrences_concat(seq!["pacman"@], seq!["-Rs"@, "--noconfirm"@], n);
        lemma_occurrences_concat(wr, rm, n);
        assert(in_arguments(pr, n) == occurrences(wr + rm, n)) by {
            assert(pr.drop_last() =~= Seq::<StepView>::empty());
            assert(in_arguments(Seq::<StepView>::empty(), n) == 0);
            assert(pr.last().2 == wr + rm);
        }
    } else {
        lemma_occurrences_contains(repo, n);
        assert(wi =~= seq!["pacman"@] + seq!["-S"@, "--needed"@, "--noconfirm"@]);
        lemma_occurrences_concat(seq!["pacman"@], seq!["-S"@, "--needed"@, "--noconfirm"@], n);
        lemma_occurrences_concat(wi, repo, n);
        assert(in_arguments(pi, n) == occurrences(wi + repo, n)) by {
            assert(pi.drop_last() =~= Seq::<StepView>::empty());
            assert(in_arguments(Seq::<StepView>::empty(), n) == 0);
            assert(pi.last().2 == wi + repo);
        }
    }
}

/// Removals first, then repository installs, then AUR builds.
pub open spec fn spec_plan(items: Seq<ItemView>, sudo: Seq<char>, helper: Option<Seq<char>>) -> Seq<
    StepView,
> {
    plan_removals(items, sudo) + plan_repo(items, sudo) + plan_aur(items, helper)
}

/// The repositories, then (when there is a helper) the AUR.
pub open spec fn spec_update_plan(sudo: Seq<char>, helper: Option<Seq<char>>) -> Seq<StepView> {
    let repos: StepView = (
        "Updating the repositories"@,
        sudo,
        seq!["pacman"@, "-Syu"@, "--noconfirm"@],
    );
    match helper {
        Some(h) => seq![
            repos,
            ("Updating AUR packages"@, h, seq!["-Sua"@, "--noconfirm"@] + (if h == "paru"@ {
                seq!["--skipreview"@]
            } else {
                Seq::<Seq<char>>::empty()
            })),
        ],
        None => seq![repos],
    }
}

/// A full system update first syncs and upgrades everything from the
/// repositories through the privilege tool (`pacman -Syu`: the operation
/// asks for the upgrade, `u`, not only the database refresh), then, when
/// there is a helper, upgrades the AUR packages with it (`-Sua`); without a
/// helper that is the only step.
pub proof fn law_update_upgrades_everything(sudo: Seq<char>, helper: Option<Seq<char>>)
    ensures
        spec_update_plan(sudo, helper).len() == if helper is Some { 2nat } else { 1nat },
        spec_update_plan(sudo, helper)[0].1 == sudo,
        spec_update_plan(sudo, helper)[0].2 == seq!["pacman"@, "-Syu"@, "--noconfirm"@],
        spec_update_plan(sudo, helper)[0].2[1].contains('u'),
        spec_update_plan(sudo, helper)[0].2[1].contains('y'),
        helper matches Some(h) ==> spec_update_plan(sudo, helper)[1].1 == h
            && spec_update_plan(sudo, helper)[1].2[0] == "-Sua"@
            && spec_update_plan(sudo, helper)[1].2[1] == "--noconfirm"@,
{
    reveal_strlit("-Syu");
    assert("-Syu"@[3] == 'u');
    assert("-Syu"@[2] == 'y');
}

/// Appends an owned copy of a literal.
pub fn push_lit(v: &mut Vec<String>, lit: &str)
    ensures
        string_views(final(v)@) == string_views(old(v)@).push(lit@),
{
    v.push(copy_str(lit));
    assert(string_views(v@) =~= string_views(old(v)@).push(lit@));
}

/// A step from owned parts.
fn step_of(title: String, program: String, args: Vec<String>) -> (r: Step)
    ensures
        r@ == (title@, program@, string_views(args@)),
{
    Step { title, program, args }
}

/// A title: `prefix` then the names joined by spaces.
fn title_of(prefix: &str, names: &Vec<String>) -> (r: String)
    ensures
        r@ == prefix@ + join(string_views(names@), " "@),
{
    let mut t = copy_str(prefix);
    let j = join_strings(names, " ");
    push_str(&mut t, j.as_str());
    t
}

impl Queue {
    pub fn len(&self) -> (r: usize)
        ensures
            r == self.items@.len(),
    {
        self.items.len()
    }

    pub fn is_empty(&self) -> (r: bool)
        ensures
            r == (self.items@.len() == 0),
    {
        self.items.len() == 0
    }

    /// Where the item for `name` stands.
    pub fn position(&self, name: &str) -> (r: Option<usize>)
        ensures
            match r {
                Some(i) => find_item(self@, name@) == Some(i as int),
                None => find_item(self@, name@) is None,
            },
    {
        let mut i: usize = 0;
        while i < self.items.len()
            invariant
                i <= self.items@.len(),
                find_item(self@.take(i as int), name@) is None,
            decreases self.items.len() - i,
        {
            proof {
                lemma_find_item_prefix(self@, i as int, name@);
            }
            if str_eq(self.items[i].name.as_str(), name) {
                return Some(i);
            }
            i = i + 1;
        }
        assert(self@.take(i as int) =~= self@);
        None
    }

    pub fn get(&self, name: &str) -> (r: Option<&QueueItem>)
        ensures
            match find_item(self@, name@) {
                Some(i) => r is Some && r->0@ == self@[i],
                None => r is None,
            },
    {
        match self.position(name) {
            Some(i) => {
                proof {
                    lemma_find_item_bounds(self@, name@);
                }
                Some(&self.items[i])
            },
            None => None,
        }
    }

    /// Mark for install/remove, or unmark if already marked with the same action.
    pub fn toggle(&mut self, name: &str, action: Action, aur: bool)
        ensures
            final(self)@ == toggled(old(self)@, name@, action, aur),
    {
        proof {
            lemma_find_item_bounds(self@, name@);
        }
        let item = QueueItem { name: copy_str(name), action, aur };
        let ghost before = self.items@;
        match self.position(name) {
            Some(pos) => {
                let same = self.items[pos].action == action;
                self.items.remove(pos);
                assert(item_views(self.items@) =~= item_views(before).remove(pos as int));
                if same {
                    return;
                }
                let ghost mid = self.items@;
                self.items.push(item);
                assert(item_views(self.items@) =~= item_views(mid).push(item@));
            },
            None => {
                self.items.push(item);
                assert(item_views(self.items@) =~= item_views(before).push(item@));
            },
        }
    }

    /// Take `name` out of the queue, whatever its action.
    pub fn remove(&mut self, name: &str)
        ensures
            final(self)@ == without(old(self)@, name@),
    {
        let mut kept: Vec<QueueItem> = Vec::new();
        let mut i: usize = 0;
        while i < self.items.len()
            invariant
                i <= self.items@.len(),
                item_views(kept@) == without(self@.take(i as int), name@),
            decreases self.items.len() - i,
        {
            assert(self@.take(i + 1).drop_last() =~= self@.take(i as int));
            if !str_eq(self.items[i].name.as_str(), name) {
                let ghost before = kept@;
                kept.push(self.items[i].clone());
                assert(item_views(kept@) =~= item_views(before).push(self@[i as int]));
            }
            i = i + 1;
        }
        assert(self@.take(i as int) =~= self@);
        self.items = kept;
    }

    pub fn clear(&mut self)
        ensures
            final(self)@.len() == 0,
    {
        self.items.clear();
    }

    /// The queued names with this action and origin, in queue order.
    pub fn names(&self, action: Action, aur: bool) -> (r: Vec<String>)
        ensures
            string_views(r@) == names_of(self@, action, aur),
    {
        let mut out: Vec<String> = Vec::new();
        let mut i: usize = 0;
        while i < self.items.len()
            invariant
                i <= self.items@.len(),
                string_views(out@) == names_of(self@.take(i as int), action, aur),
            decreases self.items.len() - i,
        {
            assert(self@.take(i + 1).drop_last() =~= self@.take(i as int));
            if self.items[i].action == action && self.items[i].aur == aur {
                let ghost before = out@;
                out.push(self.items[i].name.clone());
                assert(string_views(out@) =~= string_views(before).push(self.items@[i as int].name@));
            }
            i = i + 1;
        }
        assert(self@.take(i as int) =~= self@);
        out
    }

    /// The commands that apply this queue, in order: removals, repo installs, AUR installs.
    pub fn plan(&self, cfg: &Config, tools: &Tools) -> (r: Vec<Step>)
        ensures
            step_views(r@) == spec_plan(
                self@,
                spec_privilege(cfg.general.privilege@, *tools),
                spec_aur_helper(cfg.general.aur_helper@, *tools),
            ),
    {
        let sudo = cfg.privilege(tools);
        let mut steps: Vec<Step> = Vec::new();
        let mut removes = self.names(Action::Remove, false);
        let more = self.names(Action::Remove, true);
        push_all(&mut removes, &more);
        let ghost s1: Seq<StepView> = seq![];
        if removes.len() > 0 {
            let mut args: Vec<String> = Vec::new();
            push_lit(&mut args, "pacman");
            push_lit(&mut args, "-Rs");
            push_lit(&mut args, "--noconfirm");
            assert(string_views(args@) =~= seq!["pacman"@, "-Rs"@, "--noconfirm"@]);
            push_all(&mut args, &removes);
            let st = step_of(title_of("Removing ", &removes), sudo.clone(), args);
            proof {
                s1 = seq![st@];
            }
            steps.push(st);
        }
        assert(s1 =~= plan_removals(self@, sudo@));
        assert(step_views(steps@) =~= s1);
        let repo = self.names(Action::Install, false);
        let ghost s2: Seq<StepView> = seq![];
        if repo.len() > 0 {
            let mut args: Vec<String> = Vec::new();
            push_lit(&mut args, "pacman");
            push_lit(&mut args, "-S");
            push_lit(&mut args, "--needed");
            push_lit(&mut args, "--noconfirm");
            assert(string_views(args@) =~= seq!["pacman"@, "-S"@, "--needed"@, "--noconfirm"@]);
            push_all(&mut args, &repo);
            let st = step_of(title_of("Installing ", &repo), sudo.clone(), args);
            proof {
                s2 = seq![st@];
            }
            steps.push(st);
        }
        assert(s2 =~= plan_repo(self@, sudo@));
        assert(step_views(steps@) =~= s1 + s2);
        let aur = self.names(Action::Install, true);
        let ghost s3: Seq<StepView> = seq![];
        if aur.len() > 0 {
            match cfg.aur_helper(tools) {
                Some(helper) => {
                    let mut args: Vec<String> = Vec::new();
                    push_lit(&mut args, "-S");
                    push_lit(&mut args, "--needed");
                    push_lit(&mut args, "--noconfirm");
                    assert(string_views(args@) =~= seq!["-S"@, "--needed"@, "--noconfirm"@]);
                    let ghost base = string_views(args@);
                    if str_eq(helper.as_str(), "paru") {
                        push_lit(&mut args, "--skipreview");
                    }
                    assert(string_views(args@) =~= base + (if helper@ == "paru"@ {
                        seq!["--skipreview"@]
                    } else {
                        Seq::<Seq<char>>::empty()
                    }));
                    push_all(&mut args, &aur);
                    let st = step_of(title_of("Building from the AUR: ", &aur), helper, args);
                    proof {
                        s3 = seq![st@];
                    }
                    assert(s3 =~= plan_aur(self@, spec_aur_helper(cfg.general.aur_helper@, *tools)));
                    steps.push(st);
                },
                None => {
                    let no_args: Vec<String> = Vec::new();
                    assert(string_views(no_args@) =~= Seq::<Seq<char>>::empty());
                    let st = step_of(
                        title_of("No AUR helper (paru or yay) for: ", &aur),
                        copy_str("false"),
                        no_args,
                    );
                    proof {
                        s3 = seq![st@];
                    }
                    assert(s3 =~= plan_aur(self@, spec_aur_helper(cfg.general.aur_helper@, *tools)));
                    steps.push(st);
                },
            }
        }
        assert(s3 =~= plan_aur(self@, spec_aur_helper(cfg.general.aur_helper@, *tools)));
        assert(step_views(steps@) =~= s1 + s2 + s3);
        steps
    }

    /// The commands for a full system update: repositories, then the AUR.
    pub fn update_plan(cfg: &Config, tools: &Tools) -> (r: Vec<Step>)
        ensures
            step_views(r@) == spec_update_plan(
                spec_privilege(cfg.general.privilege@, *tools),
                spec_aur_helper(cfg.general.aur_helper@, *tools),
            ),
    {
        let sudo = cfg.privilege(tools);
        let mut first_args: Vec<String> = Vec::new();
        push_lit(&mut first_args, "pacman");
        push_lit(&mut first_args, "-Syu");
        push_lit(&mut first_args, "--noconfirm");
        assert(string_views(first_args@) =~= seq!["pacman"@, "-Syu"@, "--noconfirm"@]);
        let first = step_of(copy_str("Updating the repositories"), sudo, first_args);
        let mut steps: Vec<Step> = Vec::new();
        steps.push(first);
        if let Some(helper) = cfg.aur_helper(tools) {
            let mut args: Vec<String> = Vec::new();
            push_lit(&mut args, "-Sua");
            push_lit(&mut args, "--noconfirm");
            assert(string_views(args@) =~= seq!["-Sua"@, "--noconfirm"@]);
            let ghost base = string_views(args@);
            if str_eq(helper.as_str(), "paru") {
                push_lit(&mut args, "--skipreview");
            }
            assert(string_views(args@) =~= base + (if helper@ == "paru"@ {
                seq!["--skipreview"@]
            } else {
                Seq::<Seq<char>>::empty()
            }));
            let st = step_of(copy_str("Updating AUR packages"), helper, args);
            steps.push(st);
        }
        assert(step_views(steps@) =~= spec_update_plan(
            spec_privilege(cfg.general.privilege@, *tools),
            spec_aur_helper(cfg.general.aur_helper@, *tools),
        ));
        steps
    }
}

pub proof fn lemma_find_item_bounds(items: Seq<ItemView>, name: Seq<char>)
    ensures
        match find_item(items, name) {
            Some(i) => 0 <= i < items.len() && items[i].0 == name && forall|j: int|
                0 <= j < i ==> items[j].0 != name,
            None => forall|j: int| 0 <= j < items.len() ==> items[j].0 != name,
        },
    decreases items.len(),
{
    if items.len() > 0 {
        let init = items.drop_last();
        lemma_find_item_bounds(init, name);
        assert forall|j: int| 0 <= j < init.len() implies init[j] == items[j] by {}
    }
}

proof fn lemma_find_item_prefix(items: Seq<ItemView>, i: int, name: Seq<char>)
    requires
        0 <= i < items.len(),
        find_item(items.take(i), name) is None,
    ensures
        items[i].0 == name ==> find_item(items, name) == Some(i),
        items[i].0 != name ==> find_item(items.take(i + 1), name) is None,
{
    assert(items.take(i + 1).drop_last() =~= items.take(i));
    lemma_find_item_bounds(items.take(i), name);
    lemma_find_item_bounds(items, name);
    lemma_find_item_bounds(items.take(i + 1), name);
    if items[i].0 == name {
        match find_item(items, name) {
            Some(k) => {
                if k < i {
                    assert(items.take(i)[k].0 == name);
                }
            },
            None => {},
        }
    }
}


/// How a command that was asked for went.
#[derive(Debug)]
pub enum CommandOutcome {
    /// It ran and exited with success; this is what it printed.
    Succeeded(String),
    /// It ran and failed; this is what it printed on stderr.
    Failed(String),
    /// It could not be started; this is why.
    NotStarted(String),
}

/// What pacman would do, without doing it: downloads and their sizes, removals.
#[derive(Debug, Default)]
pub struct Preflight {
    pub installs: Vec<String>,
    pub removes: Vec<String>,
    pub download_bytes: u64,
    pub problems: Vec<String>,
}

/// `a + b`, or `u64::MAX` when that does not fit.
pub open spec fn saturating(a: nat, b: nat) -> nat {
    if a + b > u64::MAX {
        u64::MAX as nat
    } else {
        a + b
    }
}

/// From `pacman -S --print --print-format "%r/%n %v %s"`: "repo/name version" for
/// every line with at least three words.
pub open spec fn print_installs(ls: Seq<Seq<char>>) -> Seq<Seq<char>>
    decreases ls.len(),
{
    if ls.len() == 0 {
        Seq::<Seq<char>>::empty()
    } else {
        let w = words(ls.last());
        if w.len() >= 3 {
            print_installs(ls.drop_last()).push(w[0] + " "@ + w[1])
        } else {
            print_installs(ls.drop_last())
        }
    }
}

/// The same lines' third words added up as byte counts (0 for one that is no
/// number; the sum stops at `u64::MAX`).
pub open spec fn print_bytes(ls: Seq<Seq<char>>) -> nat
    decreases ls.len(),
{
    if ls.len() == 0 {
        0
    } else {
        let w = words(ls.last());
        if w.len() >= 3 {
            saturating(
                print_bytes(ls.drop_last()),
                match parse_u64(w[2]) {
                    Some(n) => n as nat,
                    None => 0,
                },
            )
        } else {
            print_bytes(ls.drop_last())
        }
    }
}

/// How AUR installs are listed: their dependencies are only known at build time.
pub open spec fn aur_labels(names: Seq<Seq<char>>) -> Seq<Seq<char>> {
    Seq::new(names.len(), |i: int| "aur/"@ + names[i] + " (built locally)"@)
}

/// What a preflight holds, given what the two pacman runs answered.
pub open spec fn spec_preflight_installs(items: Seq<ItemView>, run: CommandOutcome) -> Seq<Seq<char>> {
    let printed = if names_of(items, Action::Install, false).len() > 0 {
        match run {
            CommandOutcome::Succeeded(out) => print_installs(lines(out@)),
            _ => Seq::<Seq<char>>::empty(),
        }
    } else {
        Seq::<Seq<char>>::empty()
    };
    printed + aur_labels(names_of(items, Action::Install, true))
}

pub open spec fn spec_preflight_bytes(items: Seq<ItemView>, run: CommandOutcome) -> nat {
    if names_of(items, Action::Install, false).len() > 0 {
        match run {
            CommandOutcome::Succeeded(out) => print_bytes(lines(out@)),
            _ => 0,
        }
    } else {
        0
    }
}

pub open spec fn spec_preflight_problems(items: Seq<ItemView>, run: CommandOutcome) -> Seq<Seq<char>> {
    if names_of(items, Action::Install, false).len() > 0 {
        match run {
            CommandOutcome::Succeeded(_) => Seq::<Seq<char>>::empty(),
            CommandOutcome::Failed(err) => seq![trim(err@)],
            CommandOutcome::NotStarted(e) => seq![e@],
        }
    } else {
        Seq::<Seq<char>>::empty()
    }
}

pub open spec fn spec_preflight_removes(items: Seq<ItemView>, run: CommandOutcome) -> Seq<Seq<char>> {
    let removes = names_of(items, Action::Remove, false) + names_of(items, Action::Remove, true);
    if removes.len() > 0 {
        match run {
            CommandOutcome::Succeeded(out) => lines(out@),
            _ => removes,
        }
    } else {
        Seq::<Seq<char>>::empty()
    }
}

/// The lines of a text as strings.
fn line_strings(text: &str) -> (r: Vec<String>)
    ensures
        string_views(r@) == lines(text@),
{
    let v = to_chars(text);
    let ls = lines_of(&v);
    let mut out: Vec<String> = Vec::new();
    let mut i: usize = 0;
    while i < ls.len()
        invariant
            i <= ls@.len(),
            char_views(ls@) == lines(text@),
            string_views(out@) == char_views(ls@).take(i as int),
        decreases ls.len() - i,
    {
        let ghost before = out@;
        out.push(string_of_all(&ls[i]));
        assert(string_views(out@) =~= string_views(before).push(ls@[i as int]@));
        assert(char_views(ls@).take(i + 1) =~= char_views(ls@).take(i as int).push(ls@[i as int]@));
        i = i + 1;
    }
    assert(char_views(ls@).take(i as int) =~= char_views(ls@));
    out
}

impl Queue {
    /// What pacman would do, without doing it. The caller runs
    /// `pacman -S --print --print-format "%r/%n %v %s" --needed` on the repository
    /// installs and `pacman -Rs --print --print-format "%n %v"` on the removals
    /// (see [`Queue::names`]) and hands over how each went; a run for an empty
    /// list is not looked at.
    pub fn preflight(&self, install_run: &CommandOutcome, remove_run: &CommandOutcome) -> (r: Preflight)
        ensures
            string_views(r.installs@) == spec_preflight_installs(self@, *install_run),
            r.download_bytes == spec_preflight_bytes(self@, *install_run),
            string_views(r.problems@) == spec_preflight_problems(self@, *install_run),
            string_views(r.removes@) == spec_preflight_removes(self@, *remove_run),
    {
        let mut pf = Preflight {
            installs: Vec::new(),
            removes: Vec::new(),
            download_bytes: 0,
            problems: Vec::new(),
        };
        assert(string_views(pf.installs@) =~= Seq::<Seq<char>>::empty());
        assert(string_views(pf.problems@) =~= Seq::<Seq<char>>::empty());
        assert(string_views(pf.removes@) =~= Seq::<Seq<char>>::empty());
        let repo = self.names(Action::Install, false);
        if repo.len() > 0 {
            match install_run {
                CommandOutcome::Succeeded(out) => {
                    let (installs, bytes) = parse_print(out.as_str());
                    pf.installs = installs;
                    pf.download_bytes = bytes;
                },
                CommandOutcome::Failed(err) => {
                    let t = string_of_all(&trim_chars(&to_chars(err.as_str())));
                    pf.problems.push(t);
                    assert(string_views(pf.problems@) =~= seq![trim(err@)]);
                },
                CommandOutcome::NotStarted(e) => {
                    pf.problems.push(e.clone());
                    assert(string_views(pf.problems@) =~= seq![e@]);
                },
            }
        }
        let ghost printed = string_views(pf.installs@);
        assert(printed + aur_labels(Seq::<Seq<char>>::empty()) =~= printed);
        let aur = self.names(Action::Install, true);
        let mut i: usize = 0;
        while i < aur.len()
            invariant
                i <= aur@.len(),
                string_views(aur@) == names_of(self@, Action::Install, true),
                string_views(pf.installs@) == printed + aur_labels(string_views(aur@).take(i as int)),
                pf.download_bytes == spec_preflight_bytes(self@, *install_run),
                string_views(pf.problems@) == spec_preflight_problems(self@, *install_run),
                string_views(pf.removes@) == Seq::<Seq<char>>::empty(),
            decreases aur.len() - i,
        {
            let mut label = copy_str("aur/");
            push_str(&mut label, aur[i].as_str());
            push_str(&mut label, " (built locally)");
            let ghost before = pf.installs@;
            pf.installs.push(label);
            assert(string_views(pf.installs@) =~= string_views(before).push(label@));
            assert(aur_labels(string_views(aur@).take(i + 1)) =~= aur_labels(
                string_views(aur@).take(i as int),
            ).push(label@));
            i = i + 1;
        }
        assert(string_views(aur@).take(i as int) =~= string_views(aur@));
        let mut removes = self.names(Action::Remove, false);
        let more = self.names(Action::Remove, true);
        push_all(&mut removes, &more);
        if removes.len() > 0 {
            match remove_run {
                CommandOutcome::Succeeded(out) => {
                    pf.removes = line_strings(out.as_str());
                },
                _ => {
                    pf.removes = removes;
                },
            }
        }
        pf
    }
}

/// The installs and the download size in `pacman -S --print` output.
fn parse_print(out: &str) -> (r: (Vec<String>, u64))
    ensures
        string_views(r.0@) == print_installs(lines(out@)),
        r.1 == print_bytes(lines(out@)),
{
    let v = to_chars(out);
    let ls = lines_of(&v);
    let ghost lv = char_views(ls@);
    let mut installs: Vec<String> = Vec::new();
    let mut bytes: u64 = 0;
    let mut i: usize = 0;
    assert(lv.take(0) =~= Seq::<Seq<char>>::empty());
    while i < ls.len()
        invariant
            i <= ls@.len(),
            lv == char_views(ls@),
            string_views(installs@) == print_installs(lv.take(i as int)),
            bytes == print_bytes(lv.take(i as int)),
        decreases ls.len() - i,
    {
        assert(lv.take(i + 1).drop_last() =~= lv.take(i as int));
        assert(lv.take(i + 1).last() == ls@[i as int]@);
        let w = words_of(&ls[i]);
        if w.len() >= 3 {
            let mut entry = string_of_all(&w[0]);
            push_char(&mut entry, ' ');
            let rest = string_of_all(&w[1]);
            push_str(&mut entry, rest.as_str());
            proof {
                reveal_strlit(" ");
                assert(entry@ =~= char_views(w@)[0] + " "@ + char_views(w@)[1]);
            }
            let ghost before = installs@;
            installs.push(entry);
            assert(string_views(installs@) =~= string_views(before).push(entry@));
            let n: u64 = match parse_u64_chars(&w[2]) {
                Some(n) => n,
                None => 0,
            };
            bytes = if bytes > u64::MAX - n { u64::MAX } else { bytes + n };
        }
        i = i + 1;
    }
    assert(lv.take(i as int) =~= lv);
    (installs, bytes)
}


proof fn lemma_find_item_at(items: Seq<ItemView>, name: Seq<char>, i: int)
    requires
        0 <= i < items.len(),
        items[i].0 == name,
        forall|j: int| 0 <= j < i ==> items[j].0 != name,
    ensures
        find_item(items, name) == Some(i),
{
    lemma_find_item_bounds(items, name);
    match find_item(items, name) {
        Some(k) => {
            if k < i {
                assert(items[k].0 != name);
            } else if k > i {
                assert(items[i].0 != name);
            }
        },
        None => {
            assert(items[i].0 != name);
        },
    }
}

/// Marking a package that is not in the queue and marking it again with the
/// same action leaves the queue as it was.
pub proof fn law_toggle_twice_unmarks(items: Seq<ItemView>, name: Seq<char>, action: Action, aur: bool)
    requires
        find_item(items, name) is None,
    ensures
        toggled(toggled(items, name, action, aur), name, action, aur) == items,
{
    let once = items.push((name, action, aur));
    lemma_find_item_bounds(items, name);
    assert forall|j: int| 0 <= j < items.len() implies once[j].0 != name by {
        assert(once[j] == items[j]);
    }
    lemma_find_item_at(once, name, items.len() as int);
    assert(once.remove(items.len() as int) =~= items);
}

/// After toggling with an action, the package is queued with that action,
/// unless it was queued with that same action already, in which case it is
/// no longer queued. No name ends up queued twice.
pub proof fn law_toggle_outcome(items: Seq<ItemView>, name: Seq<char>, action: Action, aur: bool)
    requires
        names_unique(items),
    ensures
        names_unique(toggled(items, name, action, aur)),
        match find_item(items, name) {
            Some(p) => if items[p].1 == action {
                find_item(toggled(items, name, action, aur), name) is None
            } else {
                match find_item(toggled(items, name, action, aur), name) {
                    Some(q) => toggled(items, name, action, aur)[q] == (name, action, aur),
                    None => false,
                }
            },
            None => match find_item(toggled(items, name, action, aur), name) {
                Some(q) => toggled(items, name, action, aur)[q] == (name, action, aur),
                None => false,
            },
        },
{
    lemma_find_item_bounds(items, name);
    let t = toggled(items, name, action, aur);
    match find_item(items, name) {
        Some(p) => {
            let rest = items.remove(p);
            assert forall|j: int| 0 <= j < rest.len() implies rest[j].0 != name by {
                if j < p {
                    assert(rest[j] == items[j]);
                } else {
                    assert(rest[j] == items[j + 1]);
                    assert(items[j + 1].0 != items[p].0);
                }
            }
            assert(names_unique(rest)) by {
                assert forall|a: int, b: int|
                    0 <= a < rest.len() && 0 <= b < rest.len() && a != b implies #[trigger] rest[a].0
                    != #[trigger] rest[b].0 by {
                    let ia = if a < p { a } else { a + 1 };
                    let ib = if b < p { b } else { b + 1 };
                    assert(rest[a] == items[ia]);
                    assert(rest[b] == items[ib]);
                }
            }
            if items[p].1 == action {
                lemma_find_item_bounds(rest, name);
            } else {
                let pushed = rest.push((name, action, aur));
                assert forall|j: int| 0 <= j < rest.len() implies pushed[j].0 != name by {
                    assert(pushed[j] == rest[j]);
                }
                lemma_find_item_at(pushed, name, rest.len() as int);
                assert(names_unique(pushed)) by {
                    assert forall|a: int, b: int|
                        0 <= a < pushed.len() && 0 <= b < pushed.len() && a != b implies #[trigger] pushed[a].0
                        != #[trigger] pushed[b].0 by {
                        if a < rest.len() && b < rest.len() {
                            assert(pushed[a] == rest[a]);
                            assert(pushed[b] == rest[b]);
                        } else if a < rest.len() {
                            assert(pushed[a] == rest[a]);
                        } else {
                            assert(pushed[b] == rest[b]);
                        }
                    }
                }
            }
        },
        None => {
            let pushed = items.push((name, action, aur));
            assert forall|j: int| 0 <= j < items.len() implies pushed[j].0 != name by {
                assert(pushed[j] == items[j]);
            }
            lemma_find_item_at(pushed, name, items.len() as int);
            assert(names_unique(pushed)) by {
                assert forall|a: int, b: int|
                    0 <= a < pushed.len() && 0 <= b < pushed.len() && a != b implies #[trigger] pushed[a].0
                    != #[trigger] pushed[b].0 by {
                    if a < items.len() && b < items.len() {
                        assert(pushed[a] == items[a]);
                        assert(pushed[b] == items[b]);
                    } else if a < items.len() {
                        assert(pushed[a] == items[a]);
                    } else {
                        assert(pushed[b] == items[b]);
                    }
                }
            }
        },
    }
}

/// After `remove`, nothing is queued under that name, and everything else stays.
pub proof fn law_remove_takes_the_name_out(items: Seq<ItemView>, name: Seq<char>)
    ensures
        find_item(without(items, name), name) is None,
        forall|i: int| 0 <= i < items.len() && items[i].0 != name ==> without(items, name).contains(items[i]),
    decreases items.len(),
{
    if items.len() > 0 {
        let init = items.drop_last();
        law_remove_takes_the_name_out(init, name);
        lemma_find_item_bounds(without(init, name), name);
        lemma_find_item_bounds(without(items, name), name);
        assert forall|i: int| 0 <= i < items.len() && items[i].0 != name implies without(
            items,
            name,
        ).contains(items[i]) by {
            if i < items.len() - 1 {
                assert(init[i] == items[i]);
                assert(without(init, name).contains(init[i]));
                if items.last().0 != name {
                    let w = without(init, name);
                    let k = choose|k: int| 0 <= k < w.len() && w[k] == init[i];
                    assert(w.push(items.last())[k] == init[i]);
                }
            } else {
                assert(without(items, name).last() == items.last());
            }
        }
    }
}

} // verus!
