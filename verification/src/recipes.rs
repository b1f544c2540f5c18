//! Recipes: install packages and leave the thing configured. Small TOML files,
//! idempotent, applicable to the running system or to a mounted installation.
//! Reading the files is the program's business; this is what a recipe is and
//! the commands that apply it.

use vstd::prelude::*;

use crate::queue::{push_lit, step_views, Step, StepView};
use crate::text::{
    lemma_less_irreflexive, lemma_less_total, lemma_less_transitive, seq_less, str_less,
    copy_str, join, join_strings, push_char, push_str, replace_first, replace_first_char,
    str_eq, string_views, to_chars, truncate, truncated,
};

verus! {

#[derive(Debug, Default)]
pub struct Recipe {
    /// File stem; set on load.
    pub id: String,
    pub name: String,
    pub summary: String,
    pub category: String,
    /// Packages from the repositories.
    pub packages: Vec<String>,
    /// Packages from the AUR (need paru or yay).
    pub aur: Vec<String>,
    /// systemd units to enable.
    pub services: Vec<String>,
    /// Groups the user is added to.
    pub groups: Vec<String>,
    pub files: Vec<RecipeFile>,
    pub commands: Vec<RecipeCommand>,
    /// Lines for /etc/environment.
    pub env: Vec<String>,
    /// Other recipes this one needs first.
    pub needs: Vec<String>,
    /// A shell command that exits 0 when the recipe is already applied.
    pub check: Option<String>,
    pub notes: Option<String>,
}

#[derive(Debug, Default)]
pub struct RecipeFile {
    /// `~` means the user's home.
    pub path: String,
    /// Replace the file with this.
    pub content: Option<String>,
    /// Add this line if it is not there.
    pub append: Option<String>,
    /// Octal, e.g. "0644".
    pub mode: Option<String>,
    /// Owned by the user rather than root.
    pub user: bool,
}

#[derive(Debug, Default)]
pub struct RecipeCommand {
    pub run: String,
    /// "root" (default) or "user".
    pub as_who: String,
}

/// How and where to apply.
#[derive(Debug)]
pub struct ApplyOptions {
    /// A mounted installation (Reimu's /mnt); commands run through arch-chroot.
    pub chroot: Option<String>,
    /// The user that gets groups, home files and AUR builds.
    pub user: String,
    /// sudo or doas (ignored with chroot: we are root there).
    pub privilege: String,
    pub aur_helper: Option<String>,
}

// ------------------------------------------------------------------ specs

/// Every `'` of `s` written as `'\''`.
pub open spec fn escape_quotes(s: Seq<char>) -> Seq<char>
    decreases s.len(),
{
    if s.len() == 0 {
        s
    } else if s.last() == '\'' {
        escape_quotes(s.drop_last()) + "'\\''"@
    } else {
        escape_quotes(s.drop_last()).push(s.last())
    }
}

/// Single-quoted for `bash -c`.
pub open spec fn spec_sq(s: Seq<char>) -> Seq<char> {
    "'"@ + escape_quotes(s) + "'"@
}

/// The directory a path is in, as `Path::parent` sees it.
pub uninterp spec fn path_parent_of(p: Seq<char>) -> Option<Seq<char>>;

/// The directory a path is in; `/` when there is none.
pub open spec fn spec_parent(p: Seq<char>) -> Seq<char> {
    match path_parent_of(p) {
        Some(d) => if d.len() > 0 {
            d
        } else {
            "/"@
        },
        None => "/"@,
    }
}

/// `~` expanded for the target user.
pub open spec fn spec_home(user: Seq<char>) -> Seq<char> {
    if user == "root"@ {
        "/root"@
    } else {
        "/home/"@ + user
    }
}

/// A step run as root: inside the chroot, or through the privilege tool.
pub open spec fn root_step(opts: ApplyOptions, title: Seq<char>, script: Seq<char>) -> StepView {
    match opts.chroot {
        Some(dir) => (title, "arch-chroot"@, seq![dir@, "bash"@, "-c"@, script]),
        None => (title, opts.privilege@, seq!["bash"@, "-c"@, script]),
    }
}

/// A step run as the user: `sudo -u` inside the chroot, plain `bash` outside.
pub open spec fn user_step(opts: ApplyOptions, title: Seq<char>, script: Seq<char>) -> StepView {
    match opts.chroot {
        Some(dir) => (title, "arch-chroot"@, seq![
            dir@,
            "sudo"@,
            "-u"@,
            opts.user@,
            "-H"@,
            "bash"@,
            "-c"@,
            script,
        ]),
        None => (title, "bash"@, seq!["-c"@, script]),
    }
}

pub open spec fn package_steps(r: Recipe, opts: ApplyOptions) -> Seq<StepView> {
    let pk = string_views(r.packages@);
    if pk.len() > 0 {
        seq![
            root_step(
                opts,
                "Installing "@ + join(pk, " "@),
                "pacman -S --needed --noconfirm "@ + join(pk, " "@),
            ),
        ]
    } else {
        seq![]
    }
}

pub open spec fn aur_steps(r: Recipe, opts: ApplyOptions) -> Seq<StepView> {
    let aur = string_views(r.aur@);
    if aur.len() > 0 {
        match opts.aur_helper {
            Some(h) => seq![
                user_step(
                    opts,
                    "Building from the AUR: "@ + join(aur, " "@),
                    h@ + " -S --needed --noconfirm"@ + (if h@ == "paru"@ {
                        " --skipreview"@
                    } else {
                        Seq::<char>::empty()
                    }) + " "@ + join(aur, " "@),
                ),
            ],
            None => seq![
                ("No AUR helper for: "@ + join(aur, " "@), "false"@, Seq::<Seq<char>>::empty()),
            ],
        }
    } else {
        seq![]
    }
}

pub open spec fn group_step(opts: ApplyOptions, g: Seq<char>) -> StepView {
    root_step(
        opts,
        "Adding "@ + opts.user@ + " to group "@ + g,
        "usermod -aG "@ + g + " "@ + spec_sq(opts.user@),
    )
}

/// Where a recipe file goes: its path with `~` made the user's home.
pub open spec fn file_path(f: RecipeFile, opts: ApplyOptions) -> Seq<char> {
    replace_first(f.path@, '~', spec_home(opts.user@))
}

/// Writing the file's content, when it has one.
pub open spec fn content_part(f: RecipeFile, p: Seq<char>) -> Seq<char> {
    match f.content {
        Some(c) => " && printf '%s' "@ + spec_sq(c@) + " > "@ + p,
        None => Seq::<char>::empty(),
    }
}

/// Adding the file's line when it is not there yet.
pub open spec fn append_part(f: RecipeFile, p: Seq<char>) -> Seq<char> {
    match f.append {
        Some(a) => " && (grep -qxF "@ + spec_sq(a@) + " "@ + p + " 2>/dev/null || printf '%s\\n' "@
            + spec_sq(a@) + " >> "@ + p + ")"@,
        None => Seq::<char>::empty(),
    }
}

/// Setting the file's mode.
pub open spec fn mode_part(f: RecipeFile, p: Seq<char>) -> Seq<char> {
    match f.mode {
        Some(m) => " && chmod "@ + spec_sq(m@) + " "@ + p,
        None => Seq::<char>::empty(),
    }
}

/// Handing the directory to the user.
pub open spec fn owner_part(f: RecipeFile, user: Seq<char>, dir: Seq<char>) -> Seq<char> {
    if f.user {
        " && chown -R "@ + spec_sq(user) + ":"@ + spec_sq(user) + " "@ + spec_sq(dir)
    } else {
        Seq::<char>::empty()
    }
}

/// The script that writes one file: make the directory, then write, append,
/// set the mode and hand it to the user as the file asks.
pub open spec fn file_script(f: RecipeFile, opts: ApplyOptions) -> Seq<char> {
    let path = file_path(f, opts);
    let p = spec_sq(path);
    "mkdir -p "@ + spec_sq(spec_parent(path)) + content_part(f, p) + append_part(f, p) + mode_part(
        f,
        p,
    ) + owner_part(f, opts.user@, spec_parent(path))
}

pub open spec fn file_step(f: RecipeFile, opts: ApplyOptions) -> StepView {
    root_step(opts, "Writing "@ + file_path(f, opts), file_script(f, opts))
}

pub open spec fn env_step(opts: ApplyOptions, e: Seq<char>) -> StepView {
    root_step(
        opts,
        "Environment: "@ + e,
        "grep -qxF "@ + spec_sq(e) + " /etc/environment || printf '%s\\n' "@ + spec_sq(e)
            + " >> /etc/environment"@,
    )
}

pub open spec fn service_step(opts: ApplyOptions, s: Seq<char>) -> StepView {
    root_step(opts, "Enabling "@ + s, "systemctl enable "@ + spec_sq(s))
}

pub open spec fn command_step(opts: ApplyOptions, c: RecipeCommand) -> StepView {
    let title = "Running: "@ + truncated(c.run@, 60);
    if c.as_who@ == "user"@ {
        user_step(opts, title, c.run@)
    } else {
        root_step(opts, title, c.run@)
    }
}

/// The commands that apply a recipe, in order: repository packages, AUR
/// packages, groups, files, environment lines, services, commands.
pub open spec fn spec_recipe_plan(r: Recipe, opts: ApplyOptions) -> Seq<StepView> {
    package_steps(r, opts) + aur_steps(r, opts) + Seq::new(
        r.groups@.len(),
        |i: int| group_step(opts, r.groups@[i]@),
    ) + Seq::new(r.files@.len(), |i: int| file_step(r.files@[i], opts)) + Seq::new(
        r.env@.len(),
        |i: int| env_step(opts, r.env@[i]@),
    ) + Seq::new(r.services@.len(), |i: int| service_step(opts, r.services@[i]@)) + Seq::new(
        r.commands@.len(),
        |i: int| command_step(opts, r.commands@[i]),
    )
}

/// A step of a plan made for a chroot: it runs through `arch-chroot` in that
/// directory, or it is the step that fails for want of an AUR helper.
pub open spec fn chroot_ok(s: StepView, opts: ApplyOptions) -> bool {
    ||| (s.1 == "arch-chroot"@ && s.2.len() > 0 && s.2[0] == opts.chroot->0@)
    ||| (s.1 == "false"@ && s.2.len() == 0 && opts.aur_helper is None)
}

pub open spec fn all_chroot_ok(v: Seq<StepView>, opts: ApplyOptions) -> bool {
    forall|k: int| 0 <= k < v.len() ==> chroot_ok(#[trigger] v[k], opts)
}

proof fn lemma_chroot_concat(a: Seq<StepView>, b: Seq<StepView>, opts: ApplyOptions)
    requires
        all_chroot_ok(a, opts),
        all_chroot_ok(b, opts),
    ensures
        all_chroot_ok(a + b, opts),
{
    assert forall|k: int| 0 <= k < (a + b).len() implies chroot_ok(#[trigger] (a + b)[k], opts) by {
        if k < a.len() {
            assert((a + b)[k] == a[k]);
        } else {
            assert((a + b)[k] == b[k - a.len()]);
        }
    }
}

/// With a chroot, every step of a recipe's plan runs inside it through
/// `arch-chroot` (the privilege tool is never used), but for the step that
/// fails when AUR packages are asked for and there is no AUR helper.
pub proof fn law_chroot_steps_run_inside(r: Recipe, opts: ApplyOptions)
    requires
        opts.chroot is Some,
    ensures
        all_chroot_ok(spec_recipe_plan(r, opts), opts),
{
    reveal_strlit("arch-chroot");
    let p = package_steps(r, opts);
    let a = aur_steps(r, opts);
    let g = Seq::new(r.groups@.len(), |i: int| group_step(opts, r.groups@[i]@));
    let f = Seq::new(r.files@.len(), |i: int| file_step(r.files@[i], opts));
    let e = Seq::new(r.env@.len(), |i: int| env_step(opts, r.env@[i]@));
    let sv = Seq::new(r.services@.len(), |i: int| service_step(opts, r.services@[i]@));
    let c = Seq::new(r.commands@.len(), |i: int| command_step(opts, r.commands@[i]));
    assert(all_chroot_ok(p, opts));
    assert(all_chroot_ok(a, opts));
    assert(all_chroot_ok(g, opts));
    assert(all_chroot_ok(f, opts));
    assert(all_chroot_ok(e, opts));
    assert(all_chroot_ok(sv, opts));
    assert(all_chroot_ok(c, opts)) by {
        assert forall|k: int| 0 <= k < c.len() implies chroot_ok(#[trigger] c[k], opts) by {
            let cmd = r.commands@[k];
            let title = "Running: "@ + truncated(cmd.run@, 60);
            if cmd.as_who@ == "user"@ {
                assert(c[k] == user_step(opts, title, cmd.run@));
            } else {
                assert(c[k] == root_step(opts, title, cmd.run@));
            }
        }
    }
    lemma_chroot_concat(p, a, opts);
    lemma_chroot_concat(p + a, g, opts);
    lemma_chroot_concat(p + a + g, f, opts);
    lemma_chroot_concat(p + a + g + f, e, opts);
    lemma_chroot_concat(p + a + g + f + e, sv, opts);
    lemma_chroot_concat(p + a + g + f + e + sv, c, opts);
}

/// Where the environment steps of a plan start: after the package, AUR,
/// group and file steps.
pub open spec fn env_base(r: Recipe, opts: ApplyOptions) -> int {
    (package_steps(r, opts).len() + aur_steps(r, opts).len() + r.groups@.len() + r.files@.len()) as int
}

/// Every environment line of a recipe gets its own step, in order, and that
/// step only appends: it checks whether the exact line is in
/// /etc/environment and otherwise adds it with `>>`, so every line already in
/// the file stays. Outside a chroot it runs `bash -c` through the privilege tool.
pub proof fn law_environment_steps_append(r: Recipe, opts: ApplyOptions)
    ensures
        forall|k: int|
            0 <= k < r.env@.len() ==> {
                let e = r.env@[k]@;
                let st = #[trigger] spec_recipe_plan(r, opts)[env_base(r, opts) + k];
                let script = st.2.last();
                &&& st.0 == "Environment: "@ + e
                &&& script == "grep -qxF "@ + spec_sq(e) + " /etc/environment || printf '%s\\n' "@ + spec_sq(e)
                    + " >> /etc/environment"@
                &&& crate::sources::pacman::has_suffix(script, " >> /etc/environment"@)
                &&& (opts.chroot is None ==> st.1 == opts.privilege@ && st.2 == seq!["bash"@, "-c"@, script])
            },
{
    let plan = spec_recipe_plan(r, opts);
    let p = package_steps(r, opts);
    let a = aur_steps(r, opts);
    let g = Seq::new(r.groups@.len(), |i: int| group_step(opts, r.groups@[i]@));
    let f = Seq::new(r.files@.len(), |i: int| file_step(r.files@[i], opts));
    let en = Seq::new(r.env@.len(), |i: int| env_step(opts, r.env@[i]@));
    let sv = Seq::new(r.services@.len(), |i: int| service_step(opts, r.services@[i]@));
    let c = Seq::new(r.commands@.len(), |i: int| command_step(opts, r.commands@[i]));
    assert(plan == p + a + g + f + en + sv + c);
    assert forall|k: int| 0 <= k < r.env@.len() implies {
        let e = r.env@[k]@;
        let st = #[trigger] spec_recipe_plan(r, opts)[env_base(r, opts) + k];
        let script = st.2.last();
        &&& st.0 == "Environment: "@ + e
        &&& script == "grep -qxF "@ + spec_sq(e) + " /etc/environment || printf '%s\\n' "@ + spec_sq(e)
            + " >> /etc/environment"@
        &&& crate::sources::pacman::has_suffix(script, " >> /etc/environment"@)
        &&& (opts.chroot is None ==> st.1 == opts.privilege@ && st.2 == seq!["bash"@, "-c"@, script])
    } by {
        let idx = env_base(r, opts) + k;
        let pre = p + a + g + f;
        assert(pre.len() == env_base(r, opts));
        assert((pre + en)[idx] == en[k]);
        assert(plan[idx] == (pre + en)[idx]);
        let e = r.env@[k]@;
        let tail = " >> /etc/environment"@;
        let head = "grep -qxF "@ + spec_sq(e) + " /etc/environment || printf '%s\\n' "@ + spec_sq(e);
        let script = head + tail;
        assert(script.skip(script.len() - tail.len()) =~= tail);
    }
}

// ------------------------------------------------------------------- exec

/// `Path::parent`: the directory a path names, if it names one.
/// Its result is named by `path_parent_of`; nothing more of it is stated.
#[verifier::external_body]
fn path_parent(p: &str) -> (r: Option<String>)
    ensures
        match r {
            Some(d) => path_parent_of(p@) == Some(d@),
            None => path_parent_of(p@) is None,
        },
{
    std::path::Path::new(p).parent().map(|d| d.display().to_string())
}

/// The directory a path is in; `/` when there is none.
pub fn parent(path: &str) -> (r: String)
    ensures
        r@ == spec_parent(path@),
{
    match path_parent(path) {
        Some(d) => if d.as_str().is_empty() {
            copy_str("/")
        } else {
            d
        },
        None => copy_str("/"),
    }
}

/// Single-quote for `bash -c`.
pub fn sq(s: &str) -> (r: String)
    ensures
        r@ == spec_sq(s@),
{
    let v = to_chars(s);
    let mut r = copy_str("'");
    let ghost start = r@;
    let mut i: usize = 0;
    assert(v@.take(0) =~= Seq::<char>::empty());
    while i < v.len()
        invariant
            i <= v@.len(),
            r@ == start + escape_quotes(v@.take(i as int)),
        decreases v.len() - i,
    {
        assert(v@.take(i + 1).drop_last() =~= v@.take(i as int));
        if v[i] == '\'' {
            push_str(&mut r, "'\\''");
            assert(r@ =~= start + escape_quotes(v@.take(i + 1)));
        } else {
            push_char(&mut r, v[i]);
            assert(r@ =~= start + escape_quotes(v@.take(i + 1)));
        }
        i = i + 1;
    }
    assert(v@.take(i as int) =~= v@);
    push_str(&mut r, "'");
    r
}

/// The word a POSIX shell reads from `s`, inside single quotes or not: a
/// quote opens or closes a quoted stretch, where every other character stands
/// for itself; outside quotes a backslash makes the next character literal.
pub open spec fn shell_read(s: Seq<char>, quoted: bool) -> Seq<char>
    decreases s.len(),
{
    if s.len() == 0 {
        s
    } else if quoted {
        if s[0] == '\'' {
            shell_read(s.skip(1), false)
        } else {
            seq![s[0]] + shell_read(s.skip(1), true)
        }
    } else if s[0] == '\'' {
        shell_read(s.skip(1), true)
    } else if s[0] == '\\' && s.len() >= 2 {
        seq![s[1]] + shell_read(s.skip(2), false)
    } else {
        seq![s[0]] + shell_read(s.skip(1), false)
    }
}

proof fn lemma_read_escaped(s: Seq<char>, rest: Seq<char>)
    ensures
        shell_read(escape_quotes(s) + rest, true) == s + shell_read(rest, true),
    decreases s.len(),
{
    reveal_strlit("'\\''");
    if s.len() == 0 {
        assert(escape_quotes(s) + rest =~= rest);
        assert(s + shell_read(rest, true) =~= shell_read(rest, true));
    } else {
        let init = s.drop_last();
        let c = s.last();
        let piece: Seq<char> = if c == '\'' {
            "'\\''"@
        } else {
            seq![c]
        };
        assert(escape_quotes(s) == escape_quotes(init) + piece);
        assert(escape_quotes(s) + rest =~= escape_quotes(init) + (piece + rest));
        lemma_read_escaped(init, piece + rest);
        if c == '\'' {
            let t = piece + rest;
            assert(t[0] == '\'');
            assert(t.skip(1) =~= seq!['\\', '\''] + (seq!['\''] + rest));
            let u = t.skip(1);
            assert(u[0] == '\\' && u.len() >= 2 && u[1] == '\'');
            assert(u.skip(2) =~= seq!['\''] + rest);
            let w = u.skip(2);
            assert(w[0] == '\'');
            assert(w.skip(1) =~= rest);
            assert(shell_read(w, false) == shell_read(rest, true));
            assert(shell_read(u, false) == seq![u[1]] + shell_read(w, false));
            assert(shell_read(t, true) == shell_read(u, false));
        } else {
            let t = piece + rest;
            assert(t[0] == c);
            assert(t.skip(1) =~= rest);
        }
        assert(init + (seq![c] + shell_read(rest, true)) =~= s + shell_read(rest, true));
    }
}

/// What `sq` writes reads back, in a shell, as the text itself: the files and
/// commands of a recipe reach `bash -c` unchanged, whatever quotes they hold.
pub proof fn law_quoted_reads_back(s: Seq<char>)
    ensures
        shell_read(spec_sq(s), false) == s,
{
    reveal_strlit("'");
    let q = spec_sq(s);
    assert(q[0] == '\'');
    assert(q.skip(1) =~= escape_quotes(s) + "'"@);
    lemma_read_escaped(s, "'"@);
    let e: Seq<char> = "'"@;
    assert(e[0] == '\'');
    assert(e.skip(1) =~= Seq::<char>::empty());
    assert(shell_read(e.skip(1), false) == Seq::<char>::empty());
    assert(shell_read(e, true) == Seq::<char>::empty());
    assert(s + Seq::<char>::empty() =~= s);
}

/// Where the first recipe with this id is, looking from position `i` on.
pub open spec fn index_from(all: Seq<Recipe>, id: Seq<char>, i: int) -> Option<int>
    decreases all.len() - i,
{
    if i < 0 || i >= all.len() {
        None
    } else if all[i].id@ == id {
        Some(i)
    } else {
        index_from(all, id, i + 1)
    }
}

/// Where the first recipe with this id is.
pub open spec fn recipe_index(all: Seq<Recipe>, id: Seq<char>) -> Option<int> {
    index_from(all, id, 0)
}

pub proof fn lemma_index_from(all: Seq<Recipe>, id: Seq<char>, i: int)
    requires
        0 <= i,
    ensures
        match index_from(all, id, i) {
            Some(k) => i <= k < all.len() && all[k].id@ == id && forall|j: int|
                i <= j < k ==> all[j].id@ != id,
            None => forall|j: int| i <= j < all.len() ==> all[j].id@ != id,
        },
    decreases all.len() - i,
{
    if i < all.len() && all[i].id@ != id {
        lemma_index_from(all, id, i + 1);
    }
}

/// The first recipe with this id.
pub fn find<'a>(all: &'a [Recipe], id: &str) -> (r: Option<&'a Recipe>)
    ensures
        match r {
            Some(x) => recipe_index(all@, id@) matches Some(k) && *x == all@[k],
            None => recipe_index(all@, id@) is None,
        },
{
    let mut i: usize = 0;
    while i < all.len()
        invariant
            i <= all@.len(),
            index_from(all@, id@, i as int) == recipe_index(all@, id@),
        decreases all.len() - i,
    {
        if str_eq(all[i].id.as_str(), id) {
            return Some(&all[i]);
        }
        i = i + 1;
    }
    None
}

impl ApplyOptions {
    fn root(&self, title: String, script: String) -> (r: Step)
        ensures
            r@ == root_step(*self, title@, script@),
    {
        let mut args: Vec<String> = Vec::new();
        match &self.chroot {
            Some(dir) => {
                args.push(dir.clone());
                push_lit(&mut args, "bash");
                push_lit(&mut args, "-c");
                let ghost before = args@;
                let ghost sv = script@;
                args.push(script);
                assert(string_views(args@) =~= string_views(before).push(sv));
                assert(string_views(args@) =~= seq![dir@, "bash"@, "-c"@, sv]);
                Step { title, program: copy_str("arch-chroot"), args }
            },
            None => {
                push_lit(&mut args, "bash");
                push_lit(&mut args, "-c");
                let ghost before = args@;
                let ghost sv = script@;
                args.push(script);
                assert(string_views(args@) =~= string_views(before).push(sv));
                assert(string_views(args@) =~= seq!["bash"@, "-c"@, sv]);
                Step { title, program: self.privilege.clone(), args }
            },
        }
    }

    fn user_run(&self, title: String, script: String) -> (r: Step)
        ensures
            r@ == user_step(*self, title@, script@),
    {
        let mut args: Vec<String> = Vec::new();
        match &self.chroot {
            Some(dir) => {
                args.push(dir.clone());
                push_lit(&mut args, "sudo");
                push_lit(&mut args, "-u");
                let ghost b0 = args@;
                args.push(self.user.clone());
                assert(string_views(args@) =~= string_views(b0).push(self.user@));
                push_lit(&mut args, "-H");
                push_lit(&mut args, "bash");
                push_lit(&mut args, "-c");
                let ghost before = args@;
                let ghost sv = script@;
                args.push(script);
                assert(string_views(args@) =~= string_views(before).push(sv));
                assert(string_views(args@) =~= seq![
                    dir@,
                    "sudo"@,
                    "-u"@,
                    self.user@,
                    "-H"@,
                    "bash"@,
                    "-c"@,
                    sv,
                ]);
                Step { title, program: copy_str("arch-chroot"), args }
            },
            None => {
                push_lit(&mut args, "-c");
                let ghost before = args@;
                let ghost sv = script@;
                args.push(script);
                assert(string_views(args@) =~= string_views(before).push(sv));
                assert(string_views(args@) =~= seq!["-c"@, sv]);
                Step { title, program: copy_str("bash"), args }
            },
        }
    }
}

/// `prefix` followed by `body`.
fn cat(prefix: &str, body: &str) -> (r: String)
    ensures
        r@ == prefix@ + body@,
{
    let mut s = copy_str(prefix);
    push_str(&mut s, body);
    s
}

impl Recipe {
    /// `~` expanded for the target user.
    fn home(&self, opts: &ApplyOptions) -> (r: String)
        ensures
            r@ == spec_home(opts.user@),
    {
        if str_eq(opts.user.as_str(), "root") {
            copy_str("/root")
        } else {
            cat("/home/", opts.user.as_str())
        }
    }

    fn push_content(script: &mut String, f: &RecipeFile, p: &String)
        ensures
            final(script)@ == old(script)@ + content_part(*f, p@),
    {
        if let Some(c) = &f.content {
            push_str(script, " && printf '%s' ");
            push_str(script, sq(c.as_str()).as_str());
            push_str(script, " > ");
            push_str(script, p.as_str());
        }
        assert(script@ =~= old(script)@ + content_part(*f, p@));
    }

    fn push_append(script: &mut String, f: &RecipeFile, p: &String)
        ensures
            final(script)@ == old(script)@ + append_part(*f, p@),
    {
        if let Some(a) = &f.append {
            let qa = sq(a.as_str());
            push_str(script, " && (grep -qxF ");
            push_str(script, qa.as_str());
            push_str(script, " ");
            push_str(script, p.as_str());
            push_str(script, " 2>/dev/null || printf '%s\\n' ");
            push_str(script, qa.as_str());
            push_str(script, " >> ");
            push_str(script, p.as_str());
            push_str(script, ")");
        }
        assert(script@ =~= old(script)@ + append_part(*f, p@));
    }

    fn push_mode(script: &mut String, f: &RecipeFile, p: &String)
        ensures
            final(script)@ == old(script)@ + mode_part(*f, p@),
    {
        if let Some(m) = &f.mode {
            push_str(script, " && chmod ");
            push_str(script, sq(m.as_str()).as_str());
            push_str(script, " ");
            push_str(script, p.as_str());
        }
        assert(script@ =~= old(script)@ + mode_part(*f, p@));
    }

    fn push_owner(script: &mut String, f: &RecipeFile, user: &String, dir: &String)
        ensures
            final(script)@ == old(script)@ + owner_part(*f, user@, dir@),
    {
        if f.user {
            let qu = sq(user.as_str());
            push_str(script, " && chown -R ");
            push_str(script, qu.as_str());
            push_str(script, ":");
            push_str(script, qu.as_str());
            push_str(script, " ");
            push_str(script, sq(dir.as_str()).as_str());
        }
        assert(script@ =~= old(script)@ + owner_part(*f, user@, dir@));
    }

    fn file_script(&self, f: &RecipeFile, opts: &ApplyOptions, path: &str) -> (r: String)
        requires
            path@ == file_path(*f, *opts),
        ensures
            r@ == file_script(*f, *opts),
    {
        let p = sq(path);
        let par = parent(path);
        let mut script = cat("mkdir -p ", sq(par.as_str()).as_str());
        Self::push_content(&mut script, f, &p);
        Self::push_append(&mut script, f, &p);
        Self::push_mode(&mut script, f, &p);
        Self::push_owner(&mut script, f, &opts.user, &par);
        assert(script@ =~= file_script(*f, *opts));
        script
    }

    /// The commands that apply this recipe, in order. Every step is safe to repeat.
    pub fn plan(&self, opts: &ApplyOptions) -> (r: Vec<Step>)
        ensures
            step_views(r@) == spec_recipe_plan(*self, *opts),
    {
        let mut steps: Vec<Step> = Vec::new();
        if self.packages.len() > 0 {
            let j = join_strings(&self.packages, " ");
            let st = opts.root(cat("Installing ", j.as_str()), cat("pacman -S --needed --noconfirm ", j.as_str()));
            steps.push(st);
        }
        assert(step_views(steps@) =~= package_steps(*self, *opts));
        let ghost s1 = step_views(steps@);
        if self.aur.len() > 0 {
            let j = join_strings(&self.aur, " ");
            match &opts.aur_helper {
                Some(h) => {
                    let mut script = h.clone();
                    push_str(&mut script, " -S --needed --noconfirm");
                    let ghost base = script@;
                    if str_eq(h.as_str(), "paru") {
                        push_str(&mut script, " --skipreview");
                    }
                    assert(script@ =~= base + (if h@ == "paru"@ {
                        " --skipreview"@
                    } else {
                        Seq::<char>::empty()
                    }));
                    push_str(&mut script, " ");
                    push_str(&mut script, j.as_str());
                    let st = opts.user_run(cat("Building from the AUR: ", j.as_str()), script);
                    steps.push(st);
                },
                None => {
                    let no_args: Vec<String> = Vec::new();
                    assert(string_views(no_args@) =~= Seq::<Seq<char>>::empty());
                    let st = Step {
                        title: cat("No AUR helper for: ", j.as_str()),
                        program: copy_str("false"),
                        args: no_args,
                    };
                    steps.push(st);
                },
            }
        }
        assert(step_views(steps@) =~= s1 + aur_steps(*self, *opts));
        let ghost s2 = step_views(steps@);
        let mut i: usize = 0;
        while i < self.groups.len()
            invariant
                i <= self.groups@.len(),
                step_views(steps@) == s2 + Seq::new(
                    i as nat,
                    |k: int| group_step(*opts, self.groups@[k]@),
                ),
            decreases self.groups.len() - i,
        {
            let g = self.groups[i].as_str();
            let mut title = cat("Adding ", opts.user.as_str());
            push_str(&mut title, " to group ");
            push_str(&mut title, g);
            let mut script = cat("usermod -aG ", g);
            push_str(&mut script, " ");
            push_str(&mut script, sq(opts.user.as_str()).as_str());
            let st = opts.root(title, script);
            let ghost before = steps@;
            steps.push(st);
            assert(step_views(steps@) =~= step_views(before).push(st@));
            assert(step_views(steps@) =~= s2 + Seq::new(
                (i + 1) as nat,
                |k: int| group_step(*opts, self.groups@[k]@),
            ));
            i = i + 1;
        }
        let ghost s3 = step_views(steps@);
        let home = self.home(opts);
        let mut i: usize = 0;
        assert(s3 =~= s3 + Seq::new(0, |k: int| file_step(self.files@[k], *opts)));
        while i < self.files.len()
            invariant
                i <= self.files@.len(),
                home@ == spec_home(opts.user@),
                step_views(steps@) == s3 + Seq::new(i as nat, |k: int| file_step(self.files@[k], *opts)),
            decreases self.files.len() - i,
        {
            let f = &self.files[i];
            let path = replace_first_char(f.path.as_str(), '~', home.as_str());
            let script = self.file_script(f, opts, path.as_str());
            let st = opts.root(cat("Writing ", path.as_str()), script);
            let ghost before = steps@;
            steps.push(st);
            assert(step_views(steps@) =~= step_views(before).push(st@));
            assert(step_views(steps@) =~= s3 + Seq::new(
                (i + 1) as nat,
                |k: int| file_step(self.files@[k], *opts),
            ));
            i = i + 1;
        }
        let ghost s4 = step_views(steps@);
        let mut i: usize = 0;
        assert(s4 =~= s4 + Seq::new(0, |k: int| env_step(*opts, self.env@[k]@)));
        while i < self.env.len()
            invariant
                i <= self.env@.len(),
                step_views(steps@) == s4 + Seq::new(i as nat, |k: int| env_step(*opts, self.env@[k]@)),
            decreases self.env.len() - i,
        {
            let e = self.env[i].as_str();
            let qe = sq(e);
            let mut script = cat("grep -qxF ", qe.as_str());
            push_str(&mut script, " /etc/environment || printf '%s\\n' ");
            push_str(&mut script, qe.as_str());
            push_str(&mut script, " >> /etc/environment");
            let st = opts.root(cat("Environment: ", e), script);
            let ghost before = steps@;
            steps.push(st);
            assert(step_views(steps@) =~= step_views(before).push(st@));
            assert(step_views(steps@) =~= s4 + Seq::new(
                (i + 1) as nat,
                |k: int| env_step(*opts, self.env@[k]@),
            ));
            i = i + 1;
        }
        let ghost s5 = step_views(steps@);
        let mut i: usize = 0;
        assert(s5 =~= s5 + Seq::new(0, |k: int| service_step(*opts, self.services@[k]@)));
        while i < self.services.len()
            invariant
                i <= self.services@.len(),
                step_views(steps@) == s5 + Seq::new(
                    i as nat,
                    |k: int| service_step(*opts, self.services@[k]@),
                ),
            decreases self.services.len() - i,
        {
            let s = self.services[i].as_str();
            let st = opts.root(cat("Enabling ", s), cat("systemctl enable ", sq(s).as_str()));
            let ghost before = steps@;
            steps.push(st);
            assert(step_views(steps@) =~= step_views(before).push(st@));
            assert(step_views(steps@) =~= s5 + Seq::new(
                (i + 1) as nat,
                |k: int| service_step(*opts, self.services@[k]@),
            ));
            i = i + 1;
        }
        let ghost s6 = step_views(steps@);
        let mut i: usize = 0;
        assert(s6 =~= s6 + Seq::new(0, |k: int| command_step(*opts, self.commands@[k])));
        while i < self.commands.len()
            invariant
                i <= self.commands@.len(),
                step_views(steps@) == s6 + Seq::new(
                    i as nat,
                    |k: int| command_step(*opts, self.commands@[k]),
                ),
            decreases self.commands.len() - i,
        {
            let c = &self.commands[i];
            let title = cat("Running: ", truncate(c.run.as_str(), 60).as_str());
            let st = if str_eq(c.as_who.as_str(), "user") {
                opts.user_run(title, c.run.clone())
            } else {
                opts.root(title, c.run.clone())
            };
            let ghost before = steps@;
            steps.push(st);
            assert(step_views(steps@) =~= step_views(before).push(st@));
            assert(step_views(steps@) =~= s6 + Seq::new(
                (i + 1) as nat,
                |k: int| command_step(*opts, self.commands@[k]),
            ));
            i = i + 1;
        }
        assert(step_views(steps@) =~= spec_recipe_plan(*self, *opts));
        steps
    }
}

// ------------------------------------------------------------- the set

/// Where the last recipe with this id is.
pub open spec fn last_index(all: Seq<Recipe>, id: Seq<char>) -> Option<int>
    decreases all.len(),
{
    if all.len() == 0 {
        None
    } else if all.last().id@ == id {
        Some(all.len() - 1)
    } else {
        last_index(all.drop_last(), id)
    }
}

proof fn lemma_last_index(all: Seq<Recipe>, id: Seq<char>)
    ensures
        match last_index(all, id) {
            Some(j) => 0 <= j < all.len() && all[j].id@ == id,
            None => forall|j: int| 0 <= j < all.len() ==> all[j].id@ != id,
        },
    decreases all.len(),
{
    if all.len() > 0 && all.last().id@ != id {
        let init = all.drop_last();
        lemma_last_index(init, id);
        match last_index(init, id) {
            Some(j) => {
                assert(all[j] == init[j]);
            },
            None => {
                assert forall|j: int| 0 <= j < all.len() implies all[j].id@ != id by {
                    if j < init.len() {
                        assert(all[j] == init[j]);
                    }
                }
            },
        }
    }
}

/// The ids strictly increase.
pub open spec fn ids_sorted(v: Seq<Recipe>) -> bool {
    forall|i: int, j: int| 0 <= i < j < v.len() ==> seq_less(#[trigger] v[i].id@, #[trigger] v[j].id@)
}

/// `out` holds, for every id of `all`, the last recipe of `all` with that
/// id, and nothing else, sorted by id.
pub open spec fn merged_by_id(all: Seq<Recipe>, out: Seq<Recipe>) -> bool {
    &&& ids_sorted(out)
    &&& forall|k: int|
        0 <= k < out.len() ==> (last_index(all, #[trigger] out[k].id@) matches Some(j) && out[k] == all[j])
    &&& forall|j: int| 0 <= j < all.len() ==> exists|k: int| 0 <= k < out.len() && #[trigger] out[k].id@ == #[trigger] all[j].id@
}

/// Recipes by id, as a map from id to recipe keeps them: a later recipe
/// replaces an earlier one with the same id (files on disk override the
/// built-in ones), and they come out sorted by id.
pub fn merge_by_id(list: Vec<Recipe>) -> (r: Vec<Recipe>)
    ensures
        merged_by_id(list@, r@),
{
    let ghost all = list@;
    let mut out: Vec<Recipe> = Vec::new();
    for rec in it: list
        invariant
            it.seq() == all,
            merged_by_id(all.take(it.index() as int), out@),
    {
        let ghost n = it.index() as int;
        let ghost prev = out@;
        let ghost pre = all.take(n);
        let ghost post = all.take(n + 1);
        assert(post.drop_last() =~= pre);
        assert(post.last() == rec);
        let mut k: usize = 0;
        while k < out.len() && str_less(out[k].id.as_str(), rec.id.as_str())
            invariant
                out@ == prev,
                k <= out@.len(),
                forall|j: int| 0 <= j < k ==> seq_less((#[trigger] out@[j]).id@, rec.id@),
            decreases out@.len() - k,
        {
            k = k + 1;
        }
        let ghost rid = rec.id@;
        if k < out.len() && str_eq(out[k].id.as_str(), rec.id.as_str()) {
            out.set(k, rec);
            proof {
                assert forall|a: int, b: int| 0 <= a < b < out@.len() implies seq_less(
                    #[trigger] out@[a].id@,
                    #[trigger] out@[b].id@,
                ) by {
                    assert(prev[a].id@ == out@[a].id@ && prev[b].id@ == out@[b].id@);
                }
                assert forall|q: int| 0 <= q < out@.len() implies (last_index(post, #[trigger] out@[q].id@) matches Some(j) && out@[q] == post[j]) by {
                    if q != k {
                        assert(out@[q] == prev[q]);
                        assert(prev[q].id@ != rid) by {
                            if q < k {
                                lemma_less_irreflexive(rid);
                            } else {
                                lemma_less_irreflexive(prev[k as int].id@);
                            }
                        }
                        assert(last_index(post, prev[q].id@) == last_index(pre, prev[q].id@));
                        lemma_last_index(pre, prev[q].id@);
                        let j = last_index(pre, prev[q].id@)->0;
                        assert(post[j] == pre[j]);
                    } else {
                        assert(last_index(post, rid) == Some(n));
                    }
                }
                assert forall|j: int| 0 <= j < post.len() implies exists|q: int| 0 <= q < out@.len() && #[trigger] out@[q].id@ == #[trigger] post[j].id@ by {
                    if j < n {
                        assert(pre[j] == post[j]);
                        let q = choose|q: int| 0 <= q < prev.len() && #[trigger] prev[q].id@ == pre[j].id@;
                        assert(out@[q].id@ == prev[q].id@);
                    } else {
                        assert(out@[k as int].id@ == post[j].id@);
                    }
                }
            }
        } else {
            out.insert(k, rec);
            proof {
                assert(out@ == prev.insert(k as int, post[n]));
                if k < prev.len() {
                    lemma_less_total(prev[k as int].id@, rid);
                }
                assert forall|a: int, b: int| 0 <= a < b < out@.len() implies seq_less(
                    #[trigger] out@[a].id@,
                    #[trigger] out@[b].id@,
                ) by {
                    if b < k {
                        assert(out@[a] == prev[a] && out@[b] == prev[b]);
                    } else if a > k {
                        assert(out@[a] == prev[a - 1] && out@[b] == prev[b - 1]);
                    } else if a == k {
                        assert(out@[b] == prev[b - 1]);
                        if b - 1 > k {
                            lemma_less_transitive(rid, prev[k as int].id@, prev[b - 1].id@);
                        }
                    } else if b == k {
                        assert(out@[a] == prev[a]);
                    } else {
                        assert(out@[a] == prev[a] && out@[b] == prev[b - 1]);
                    }
                }
                assert forall|q: int| 0 <= q < out@.len() implies (last_index(post, #[trigger] out@[q].id@) matches Some(j) && out@[q] == post[j]) by {
                    if q < k {
                        assert(out@[q] == prev[q]);
                        lemma_less_irreflexive(rid);
                        assert(prev[q].id@ != rid);
                        assert(last_index(post, prev[q].id@) == last_index(pre, prev[q].id@));
                        lemma_last_index(pre, prev[q].id@);
                        let j = last_index(pre, prev[q].id@)->0;
                        assert(post[j] == pre[j]);
                    } else if q > k {
                        assert(out@[q] == prev[q - 1]);
                        lemma_less_irreflexive(rid);
                        if q - 1 > k {
                            lemma_less_transitive(rid, prev[k as int].id@, prev[q - 1].id@);
                        }
                        assert(prev[q - 1].id@ != rid);
                        assert(last_index(post, prev[q - 1].id@) == last_index(pre, prev[q - 1].id@));
                        lemma_last_index(pre, prev[q - 1].id@);
                        let j = last_index(pre, prev[q - 1].id@)->0;
                        assert(post[j] == pre[j]);
                    } else {
                        assert(last_index(post, rid) == Some(n));
                    }
                }
                assert forall|j: int| 0 <= j < post.len() implies exists|q: int| 0 <= q < out@.len() && #[trigger] out@[q].id@ == #[trigger] post[j].id@ by {
                    if j < n {
                        assert(pre[j] == post[j]);
                        let q = choose|q: int| 0 <= q < prev.len() && #[trigger] prev[q].id@ == pre[j].id@;
                        if q < k {
                            assert(out@[q].id@ == prev[q].id@);
                        } else {
                            assert(out@[q + 1].id@ == prev[q].id@);
                        }
                    } else {
                        assert(out@[k as int].id@ == post[j].id@);
                    }
                }
            }
        }
    }
    assert(all.take(all.len() as int) =~= all);
    out
}

/// A recipe as read from its file, finished: its id is the file's stem, and
/// a recipe without a name is called by its id.
pub fn with_id(r: Recipe, id: &str) -> (out: Recipe)
    ensures
        out.id@ == id@,
        out.name@ == (if r.name@.len() == 0 { id@ } else { r.name@ }),
        out == (Recipe { id: out.id, name: out.name, ..r }),
{
    let mut r = r;
    r.id = copy_str(id);
    if r.name.as_str().is_empty() {
        r.name = copy_str(id);
    }
    r
}

/// A recipe read from the text of its file, or why it could not be: the
/// program decodes the TOML and hands over the result.
pub fn parse(id: &str, decoded: Result<Recipe, String>) -> (r: Result<Recipe, String>)
    ensures
        match decoded {
            Ok(d) => r matches Ok(x) && x.id@ == id@ && x.name@ == (if d.name@.len() == 0 { id@ } else { d.name@ })
                && x == (Recipe { id: x.id, name: x.name, ..d }),
            Err(e) => r matches Err(m) && m@ == "recipe "@ + id@ + ": "@ + e@,
        },
{
    match decoded {
        Ok(d) => Ok(with_id(d, id)),
        Err(e) => {
            let mut m = copy_str("recipe ");
            push_str(&mut m, id);
            push_str(&mut m, ": ");
            push_str(&mut m, e.as_str());
            Err(m)
        },
    }
}

/// Whether a recipe is already applied: its `check` decides when it has one
/// (`check_passed`: the check exited 0); otherwise it is applied when it
/// has packages and all of them are installed.
pub open spec fn applied(r: Recipe, check_passed: bool, installed: Seq<Seq<char>>) -> bool {
    if r.check is Some {
        check_passed
    } else {
        let all = string_views(r.packages@) + string_views(r.aur@);
        all.len() > 0 && forall|i: int| 0 <= i < all.len() ==> installed.contains(#[trigger] all[i])
    }
}

impl Recipe {
    /// Is it already applied? Uses `check` when there is one, else "all its
    /// packages are installed" (`installed`: the installed package names).
    pub fn is_applied(&self, check_passed: bool, installed: &Vec<String>) -> (r: bool)
        ensures
            r == applied(*self, check_passed, string_views(installed@)),
    {
        if self.check.is_some() {
            return check_passed;
        }
        let ghost all = string_views(self.packages@) + string_views(self.aur@);
        if self.packages.len() == 0 && self.aur.len() == 0 {
            return false;
        }
        let mut i: usize = 0;
        while i < self.packages.len()
            invariant
                all == string_views(self.packages@) + string_views(self.aur@),
                self.check is None,
                i <= self.packages@.len(),
                forall|j: int| 0 <= j < i ==> string_views(installed@).contains(#[trigger] all[j]),
            decreases self.packages@.len() - i,
        {
            if !crate::commands::contains_name(installed, self.packages[i].as_str()) {
                assert(all[i as int] == self.packages@[i as int]@);
                assert(!string_views(installed@).contains(all[i as int]));
                return false;
            }
            assert(all[i as int] == self.packages@[i as int]@);
            i = i + 1;
        }
        let mut j: usize = 0;
        while j < self.aur.len()
            invariant
                all == string_views(self.packages@) + string_views(self.aur@),
                self.check is None,
                j <= self.aur@.len(),
                forall|k: int| 0 <= k < self.packages@.len() + j ==> string_views(installed@).contains(#[trigger] all[k]),
            decreases self.aur@.len() - j,
        {
            let ghost at = self.packages@.len() + j;
            if !crate::commands::contains_name(installed, self.aur[j].as_str()) {
                assert(all[at] == self.aur@[j as int]@);
                assert(!string_views(installed@).contains(all[at]));
                return false;
            }
            assert(all[at] == self.aur@[j as int]@);
            j = j + 1;
        }
        true
    }
}

} // verus!
