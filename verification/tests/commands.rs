use sanae::commands::{
    queue_missing, recipe_steps, sort_by_name,
    apply_plan, aur_update_candidates, details_sources, installed_listing, keep_older, merge_details,
    queue_from_aur, queue_known, ApplyError,
};
use sanae::index::Index;
use sanae::model::{Details, Installed, Package, Source};
use sanae::queue::{Action, Queue};
use sanae::recipes::{ApplyOptions, Recipe};
use sanae::sources::aur::RpcPackage;
use sanae::sources::pacman::LocalPackage;

fn pkg(name: &str, source: Source) -> Package {
    Package {
        name: name.into(),
        version: "2.0-1".into(),
        source,
        description: String::new(),
        groups: vec![],
        licenses: vec![],
        url: None,
        install_size: None,
        download_size: None,
        votes: None,
        popularity: None,
        out_of_date: None,
        maintainer: None,
        last_modified: None,
        installed: None,
    }
}

fn local(name: &str, explicit: bool) -> LocalPackage {
    LocalPackage {
        name: name.into(),
        description: String::new(),
        url: None,
        licenses: vec![],
        groups: vec![],
        installed: Installed { version: "1.0-1".into(), explicit, install_date: None, install_size: None },
    }
}

fn recipe(id: &str, packages: &[&str], needs: &[&str]) -> Recipe {
    Recipe {
        id: id.into(),
        name: id.into(),
        summary: String::new(),
        category: String::new(),
        packages: packages.iter().map(|s| s.to_string()).collect(),
        aur: vec![],
        services: vec![],
        groups: vec![],
        files: vec![],
        commands: vec![],
        env: vec![],
        needs: needs.iter().map(|s| s.to_string()).collect(),
        check: None,
        notes: None,
    }
}

fn opts() -> ApplyOptions {
    ApplyOptions { chroot: None, user: "jp".into(), privilege: "sudo".into(), aur_helper: Some("paru".into()) }
}

#[test]
fn apply_plans_needs_first_and_each_recipe_once() {
    let all = vec![recipe("fonts", &["noto-fonts"], &[]), recipe("japanese", &["fcitx5"], &["fonts", "missing"])];
    let steps = apply_plan(&all, &vec!["japanese".into(), "fonts".into()], &opts()).unwrap();
    let lines: Vec<String> = steps.iter().map(|s| s.command_line()).collect();
    assert_eq!(
        lines,
        vec![
            "sudo bash -c pacman -S --needed --noconfirm noto-fonts",
            "sudo bash -c pacman -S --needed --noconfirm fcitx5",
        ]
    );
}

#[test]
fn apply_refuses_unknown_or_no_recipes() {
    let all = vec![recipe("fonts", &["noto-fonts"], &[])];
    match apply_plan(&all, &vec!["fonts".into(), "nope".into()], &opts()) {
        Err(e @ ApplyError::Unknown(_)) => assert_eq!(e.message(), "no recipe named nope"),
        _ => panic!("expected an unknown recipe"),
    }
    match apply_plan(&all, &vec![], &opts()) {
        Err(e @ ApplyError::NothingAsked) => {
            assert_eq!(e.message(), "say which recipes: sanae apply fonts docker …  (sanae recipes lists them)")
        }
        _ => panic!("expected a refusal"),
    }
}

#[test]
fn install_sorts_known_from_aur_ones() {
    let index = Index::build(vec![pkg("vim", Source::Repo("extra".into()))], vec![]);
    let mut q = Queue::default();
    let unknown = queue_known(&index, &vec!["vim".into(), "yay".into(), "paru".into()], &mut q);
    assert_eq!(unknown, vec!["yay", "paru"]);
    assert_eq!(q.len(), 1);
    assert!(!q.get("vim").unwrap().aur);
    assert_eq!(
        queue_from_aur(&mut q, &unknown, &vec!["paru".into()]),
        Err("no package named yay in the repositories or the AUR".to_string())
    );
    let mut q2 = Queue::default();
    assert_eq!(queue_from_aur(&mut q2, &unknown, &vec!["paru".into(), "yay".into()]), Ok(()));
    assert_eq!(q2.len(), 2);
    assert!(q2.get("yay").unwrap().aur && q2.get("yay").unwrap().action == Action::Install);
}

fn rpc(name: &str, version: &str) -> RpcPackage {
    RpcPackage {
        name: name.into(),
        version: version.into(),
        description: None,
        package_base: None,
        num_votes: 0,
        popularity: 0,
        out_of_date: None,
        maintainer: None,
        last_modified: None,
        url: None,
        license: vec![],
        depends: vec![],
        make_depends: vec![],
        opt_depends: vec![],
        provides: vec![],
        conflicts: vec![],
        replaces: vec![],
        keywords: vec!["k".into()],
        groups: vec![],
    }
}

#[test]
fn aur_updates_compare_installed_versions() {
    let index = Index::build(vec![], vec![local("paru", true)]);
    let found = vec![rpc("paru", "2.1.0-1"), rpc("notinstalled", "1")];
    let cands = aur_update_candidates(&index, &found);
    assert_eq!(cands.len(), 1);
    assert_eq!((cands[0].current.as_str(), cands[0].new.as_str()), ("1.0-1", "2.1.0-1"));
    assert!(cands[0].source.is_aur());
    assert_eq!(keep_older(cands, &vec![false]).len(), 0);
}

#[test]
fn details_prefer_the_databases_but_take_aur_keywords() {
    let repo = pkg("vim", Source::Repo("extra".into()));
    assert_eq!(details_sources(Some(&repo)), (Some(false), false));
    assert_eq!(details_sources(Some(&pkg("yay", Source::Aur))), (None, true));
    assert_eq!(details_sources(None), (None, true));
    let mut local_d = Details::default();
    local_d.depends = vec!["glibc".into()];
    let aur_d = rpc("vim", "1").to_details();
    let merged = merge_details(Some(local_d), Some(aur_d)).unwrap();
    assert_eq!(merged.depends, vec!["glibc"]);
    assert_eq!(merged.keywords, vec!["k"]);
    assert!(merge_details(None, None).is_none());
}

#[test]
fn installed_listing_is_sorted_and_filtered() {
    let index = Index::build(
        vec![pkg("zsh", Source::Repo("extra".into())), pkg("bash", Source::Repo("core".into()))],
        vec![local("zsh", true), local("bash", false), local("aaa", true)],
    );
    let all: Vec<&str> = installed_listing(&index, None, false).iter().map(|p| p.name.as_str()).collect();
    assert_eq!(all, vec!["aaa", "bash", "zsh"]);
    let explicit: Vec<&str> = installed_listing(&index, None, true).iter().map(|p| p.name.as_str()).collect();
    assert_eq!(explicit, vec!["aaa", "zsh"]);
    let named: Vec<&str> =
        installed_listing(&index, Some(&vec!["zsh".into(), "gone".into(), "bash".into()]), false).iter().map(|p| p.name.as_str()).collect();
    assert_eq!(named, vec!["bash", "zsh"]);
}

#[test]
fn sorting_by_name_keeps_equal_names_in_order() {
    let mut a1 = pkg("vim", Source::Repo("extra".into()));
    a1.version = "1".into();
    let mut a2 = pkg("vim", Source::Aur);
    a2.version = "2".into();
    let b = pkg("bash", Source::Repo("core".into()));
    let z = pkg("zsh", Source::Repo("extra".into()));
    let sorted = sort_by_name(vec![&z, &a1, &b, &a2]);
    let seen: Vec<(&str, &str)> = sorted.iter().map(|p| (p.name.as_str(), p.version.as_str())).collect();
    assert_eq!(seen, vec![("bash", "2.0-1"), ("vim", "1"), ("vim", "2"), ("zsh", "2.0-1")]);
}

#[test]
fn recipe_tab_runs_needs_then_the_recipe() {
    let all = vec![recipe("fonts", &["noto-fonts"], &[]), recipe("japanese", &["fcitx5"], &["fonts", "missing"])];
    let steps = recipe_steps(&all, &all[1], &opts());
    let lines: Vec<String> = steps.iter().map(|s| s.command_line()).collect();
    assert_eq!(
        lines,
        vec![
            "sudo bash -c pacman -S --needed --noconfirm noto-fonts",
            "sudo bash -c pacman -S --needed --noconfirm fcitx5",
        ]
    );
    let alone = recipe_steps(&all, &all[0], &opts());
    assert_eq!(alone.len(), 1);
}

#[test]
fn darkside_press_queues_what_is_missing() {
    let mut aur_tool = pkg("aurtool", Source::Aur);
    aur_tool.version = "1".into();
    let mut index = Index::build(
        vec![pkg("nmap", Source::Repo("extra".into())), pkg("wireshark", Source::Repo("extra".into()))],
        vec![local("wireshark", true)],
    );
    index.merge_aur(vec![aur_tool]);
    let mut q = Queue::default();
    q.toggle("nmap", Action::Install, false);
    let names: Vec<String> = ["nmap", "wireshark", "aurtool", "unknown"].iter().map(|s| s.to_string()).collect();
    let n = queue_missing(&index, &names, &mut q);
    assert_eq!(n, 1);
    assert_eq!(q.len(), 2);
    let item = q.get("aurtool").unwrap();
    assert!(item.aur);
    assert_eq!(item.action, Action::Install);
    assert!(q.get("wireshark").is_none());
    assert!(q.get("nmap").is_some());
}

#[test]
fn info_text_lays_out_a_package() {
    let mut p = pkg("paru", Source::Aur);
    p.description = "AUR helper".into();
    p.votes = Some(1257);
    p.popularity = Some(25_120_000);
    p.maintainer = Some("Morganamilo".into());
    let lines = sanae::commands::info_text(&p, None);
    assert_eq!(
        lines,
        vec![
            "paru  2.0-1  [aur]",
            "  AUR helper",
            "  votes        1257   popularity 25.12",
            "  maintainer   Morganamilo",
            "  status       not installed",
        ]
    );
}
