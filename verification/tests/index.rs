use sanae::index::Index;
use sanae::model::{Installed, Package, Source};
use sanae::sources::pacman::LocalPackage;

fn pkg(name: &str, desc: &str) -> Package {
    Package {
        name: name.into(),
        version: "1.0-1".into(),
        source: Source::Repo("extra".into()),
        description: desc.into(),
        groups: vec![],
        licenses: vec![],
        url: None,
        install_size: None,
        download_size: None,
        votes: None,
        popularity: None,
        out_of_date: None,
        maintainer: None,
        last_modified: None,
        installed: None,
    }
}

fn local(name: &str, explicit: bool) -> LocalPackage {
    LocalPackage {
        name: name.into(),
        description: format!("{name} from the local db"),
        url: None,
        licenses: vec![],
        groups: vec![],
        installed: Installed { version: "1.0-1".into(), explicit, install_date: None, install_size: None },
    }
}

#[test]
fn build_merges_installed_and_keeps_foreign_packages() {
    let index = Index::build(
        vec![pkg("firefox", "Web browser"), pkg("vim", "Editor")],
        vec![local("vim", true), local("paru", true)],
    );
    assert_eq!(index.len(), 3);
    assert!(index.get("vim").unwrap().is_installed());
    assert!(!index.get("firefox").unwrap().is_installed());
    let paru = index.get("paru").unwrap();
    assert_eq!(paru.source, Source::Local);
    assert!(paru.is_installed());
}

#[test]
fn search_ranks_exact_then_prefix_then_description() {
    let index = Index::build(
        vec![
            pkg("vim", "Vi Improved, a highly configurable text editor"),
            pkg("neovim", "Fork of Vim aiming to improve user experience"),
            pkg("gvim", "Vi Improved with GTK"),
            pkg("emacs", "The extensible editor, nothing to do with the other one"),
        ],
        vec![],
    );
    let names: Vec<&str> = index.search("vim", 10).into_iter().map(|p| p.name.as_str()).collect();
    assert_eq!(names[0], "vim");
    assert!(names.contains(&"neovim") && names.contains(&"gvim"));
    assert!(!names.contains(&"emacs"));
    assert!(index.search("", 10).is_empty());
}

#[test]
fn merge_aur_upgrades_local_packages_but_not_repo_ones() {
    let mut index = Index::build(vec![pkg("firefox", "Web browser")], vec![local("paru", true)]);
    let mut aur_paru = pkg("paru", "AUR helper");
    aur_paru.source = Source::Aur;
    aur_paru.votes = Some(1257);
    let mut aur_firefox = pkg("firefox", "should not replace the repo one");
    aur_firefox.source = Source::Aur;
    index.merge_aur(vec![aur_paru, aur_firefox]);
    let paru = index.get("paru").unwrap();
    assert_eq!(paru.source, Source::Aur);
    assert_eq!(paru.votes, Some(1257));
    assert!(paru.is_installed(), "installed state must survive the merge");
    assert_eq!(index.get("firefox").unwrap().source, Source::Repo("extra".into()));
}

#[test]
fn installed_lists_keep_index_order_and_reason() {
    let index = Index::build(
        vec![pkg("a", ""), pkg("b", ""), pkg("c", "")],
        vec![local("c", false), local("a", true)],
    );
    let names: Vec<&str> = index.installed().iter().map(|p| p.name.as_str()).collect();
    assert_eq!(names, vec!["a", "c"]);
    let deps: Vec<&str> = index.installed_by_reason(false).iter().map(|p| p.name.as_str()).collect();
    assert_eq!(deps, vec!["c"]);
    assert!(index.get("zz").is_none());
    assert!(!index.is_empty());
}

#[test]
fn search_limits_and_needs_a_match() {
    let index = Index::build(vec![pkg("vim", "x"), pkg("vimb", "y"), pkg("other", "vim plugin")], vec![]);
    assert_eq!(index.search("vim", 2).len(), 2);
    assert!(index.search("zzzz", 10).is_empty());
    let shown = sanae::commands::filter_results(index.search("vim", 10), false, true, false, 1);
    assert_eq!(shown.len(), 1);
}

#[test]
fn popularity_goes_to_repository_packages_only() {
    let mut index = Index::build(vec![pkg("firefox", "Web browser")], vec![local("paru", true)]);
    let mut aur = pkg("yay", "helper");
    aur.source = Source::Aur;
    aur.popularity = Some(2_500_000);
    index.merge_aur(vec![aur]);
    index.set_popularity("firefox", 61_250_000);
    index.set_popularity("yay", 1_000);
    index.set_popularity("nothing-here", 5);
    assert_eq!(index.get("firefox").unwrap().popularity, Some(61_250_000));
    assert_eq!(index.get("yay").unwrap().popularity, Some(2_500_000));
    assert_eq!(index.get("paru").unwrap().popularity, None);
    index.set_popularity("paru", 7);
    assert_eq!(index.get("paru").unwrap().popularity, Some(7));
    assert_eq!(index.len(), 3);
}

#[test]
fn get_mut_changes_the_package_in_place() {
    let mut index = Index::build(vec![pkg("vim", "Editor"), pkg("nano", "Editor")], vec![]);
    index.get_mut("nano").unwrap().description = "Small editor".into();
    assert_eq!(index.get("nano").unwrap().description, "Small editor");
    assert_eq!(index.get("vim").unwrap().description, "Editor");
    assert!(index.get_mut("emacs").is_none());
}

#[test]
fn name_matches_rank_before_description_matches() {
    let index = Index::build(
        vec![pkg("editor", "vim"), pkg("xvxixm", "something else"), pkg("vimb", "browser"), pkg("vim", "editor")],
        vec![local("editor", true)],
    );
    let names: Vec<&str> = index.search("vim", 10).into_iter().map(|p| p.name.as_str()).collect();
    assert_eq!(names, vec!["vim", "vimb", "xvxixm", "editor"]);
}
