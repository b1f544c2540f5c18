use sanae::i18n::I18n;
use sanae::index::Index;
use sanae::model::{Details, Installed, Package, Source, Update};
use sanae::recipes::{Recipe, RecipeCommand, RecipeFile};
use sanae::screens::{
    detail_lines, fixed_text, news_panel, pad, recipe_panel, recipe_rows, recipe_status, setting_panel, settings_help,
    source_panel, source_rows, update_rows, LineStyle,
};
use sanae::sources::appstream::AppInfo;
use sanae::sources::news::NewsItem;
use sanae::sources::pacman::LocalPackage;
use sanae::theme::Theme;
use sanae::config::ThemeConfig;
use sanae::ui::DetailTab;

fn text(lines: &[Vec<(String, LineStyle)>]) -> Vec<String> {
    lines.iter().map(|l| l.iter().map(|(s, _)| s.as_str()).collect::<String>()).collect()
}

fn pkg(name: &str) -> Package {
    Package {
        name: name.into(),
        version: "143.0-1".into(),
        source: Source::Repo("extra".into()),
        description: "Web browser".into(),
        groups: vec![],
        licenses: vec!["MPL-2.0".into()],
        url: Some("https://www.mozilla.org/firefox/".into()),
        install_size: Some(262_144_000),
        download_size: Some(73_400_320),
        votes: None,
        popularity: Some(61_250_000),
        out_of_date: None,
        maintainer: None,
        last_modified: None,
        installed: None,
    }
}

fn recipe() -> Recipe {
    Recipe {
        id: "docker".into(),
        name: "Docker".into(),
        summary: "Containers".into(),
        category: "Development".into(),
        packages: vec!["docker".into(), "docker-compose".into()],
        aur: vec![],
        services: vec!["docker.service".into()],
        groups: vec!["docker".into()],
        files: vec![RecipeFile { path: "~/.docker/config.json".into(), content: None, append: None, mode: None, user: true }],
        commands: vec![RecipeCommand { run: "docker info".into(), as_who: "root".into() }],
        env: vec![],
        needs: vec![],
        check: None,
        notes: Some("Log out and in again.".into()),
    }
}

#[test]
fn news_panel_shows_four_items_with_attention() {
    let item = |t: &str| NewsItem { title: t.into(), date: "Sat, 21 Jun 2025".into(), link: String::new() };
    let news = vec![
        item("Manual intervention required for foo"),
        item("New kernel"),
        item("c"),
        item("d"),
        item("e"),
    ];
    let rows = news_panel(&news);
    assert_eq!(rows.len(), 4);
    assert_eq!(rows[0], ("Sat, 21 Jun 2025".to_string(), true, "Manual intervention required for foo".to_string()));
    assert!(!rows[1].1);
    assert!(news_panel(&vec![]).is_empty());
}

#[test]
fn update_rows_show_origin_and_versions() {
    let ups = vec![
        Update { name: "linux".into(), current: "6.17.1".into(), new: "6.17.2".into(), source: Source::Repo("core".into()) },
        Update { name: "paru".into(), current: "2.0".into(), new: "2.1".into(), source: Source::Aur },
    ];
    let rows = update_rows(&ups);
    assert_eq!(rows[0], ("repo".into(), "linux".into(), "6.17.1".into(), "6.17.2".into()));
    assert_eq!(rows[1].0, "aur");
}

#[test]
fn recipe_panel_lists_what_it_does() {
    let i = I18n::new();
    let lines = recipe_panel(&recipe(), Some(false), &i);
    assert_eq!(
        text(&lines),
        vec![
            "Docker",
            "Containers",
            "",
            "packages   docker docker-compose",
            "services   docker.service",
            "groups     docker",
            "files      ~/.docker/config.json",
            "commands   docker info",
            "",
            "Log out and in again.",
            "\nNot applied yet.",
        ]
    );
    assert_eq!(lines[3][0].1, LineStyle::Accent);
    assert_eq!(lines[0][0].1, LineStyle::Title);
}

#[test]
fn recipe_and_source_rows_carry_state_marks() {
    let theme = Theme::from_config(&ThemeConfig::default());
    let status = vec![("docker".to_string(), false), ("docker".to_string(), true)];
    assert_eq!(recipe_status(&status, "docker"), Some(true));
    assert_eq!(recipe_status(&status, "fonts"), None);
    let rows = recipe_rows(&vec![recipe()], &status, &theme);
    assert_eq!(text(&rows), vec!["✔ Development Docker"]);
    assert_eq!(rows[0][0].1, LineStyle::Good);
    let rows = source_rows(&vec![recipe()], &vec![], &theme);
    assert_eq!(text(&rows), vec!["… Docker"]);
    assert_eq!(pad("ab", 4), "ab  ");
    assert_eq!(pad("abcdef", 4), "abcdef");
}

#[test]
fn settings_panels_explain_and_warn() {
    let i = I18n::new();
    assert!(settings_help("aur_helper").starts_with("The program that builds AUR packages"));
    assert_eq!(settings_help("nonsense"), "");
    let lines = text(&setting_panel("AUR helper", "aur_helper", &i));
    assert_eq!(lines[0], "AUR helper");
    assert!(lines[2].starts_with("The program that builds"));
    assert!(lines[4].starts_with("⚠ Third-party repositories"));
    assert_eq!(lines.len(), 8);
    let lines = source_panel(&recipe(), Some(true), &i);
    let t = text(&lines);
    assert!(t.contains(&"\nAlready enabled.".to_string()));
    assert_eq!(lines[t.iter().position(|l| l == "Log out and in again.").unwrap()][0].1, LineStyle::Warn);
}

#[test]
fn details_info_tab_shows_what_a_package_brings() {
    let i = I18n::new();
    let index = Index::build(vec![pkg("firefox")], vec![]);
    let app = AppInfo {
        id: "org.mozilla.firefox".into(),
        pkgname: "firefox".into(),
        name: "Firefox".into(),
        summary: "Web Browser".into(),
        categories: vec!["Network".into(), "WebBrowser".into()],
        keywords: vec![],
        license: None,
        homepage: None,
        screenshots: vec![],
    };
    let p = index.get("firefox").unwrap();
    let lines = text(&detail_lines(p, Some(&app), None, None, None, DetailTab::Info, &index, &i));
    assert_eq!(
        lines,
        vec![
            "Firefox  ·  Web Browser",
            "Web browser",
            "",
            "source      extra",
            "installed   no",
            "size        250.0 MiB installed, 70.0 MiB download",
            "popularity  61.2% of Arch systems have it",
            "license     MPL-2.0",
            "url         https://www.mozilla.org/firefox/",
            "categories  Network, WebBrowser",
        ]
    );
    assert_eq!(fixed_text(1_234_567, 2), "1.23");
    assert_eq!(fixed_text(1_995_000, 2), "2.00");
    assert_eq!(fixed_text(2_500_000, 1), "2.5");
    assert_eq!(fixed_text(61_460_000, 1), "61.5");
}

#[test]
fn details_other_tabs() {
    let i = I18n::new();
    let index = Index::build(
        vec![pkg("firefox"), pkg("glibc"), pkg("gtk3")],
        vec![LocalPackage {
            name: "glibc".into(),
            description: String::new(),
            url: None,
            licenses: vec![],
            groups: vec![],
            installed: Installed { version: "2.40".into(), explicit: false, install_date: None, install_size: None },
        }],
    );
    let p = index.get("firefox").unwrap();
    let loading = text(&detail_lines(p, None, None, None, None, DetailTab::Deps, &index, &i));
    assert_eq!(loading, vec!["loading…"]);
    let d = Details {
        depends: vec!["glibc>=2.40".into(), "gtk3".into()],
        opt_depends: vec![],
        make_depends: vec![],
        provides: vec![],
        conflicts: vec![],
        replaces: vec![],
        required_by: vec![],
        optional_for: vec![],
        packager: Some("Jan".into()),
        build_date: Some(0),
        architecture: None,
        package_base: None,
        keywords: vec![],
    };
    let deps = detail_lines(p, None, Some(&d), None, None, DetailTab::Deps, &index, &i);
    assert_eq!(text(&deps), vec!["depends on", "  glibc>=2.40  gtk3  ", "green = installed"]);
    assert_eq!(deps[1][1].1, LineStyle::Good);
    assert_eq!(deps[1][3].1, LineStyle::Plain);
    let files = vec!["/usr/bin/firefox".to_string(), "/usr/lib/firefox/".to_string()];
    let f = text(&detail_lines(p, None, None, Some(&files), None, DetailTab::Files, &index, &i));
    assert_eq!(f, vec!["2 files", "/usr/bin/firefox", "/usr/lib/firefox/"]);
    let pb = "pkgname=firefox\r\npkgver=143.0\n".to_string();
    let b = text(&detail_lines(p, None, None, None, Some(&pb), DetailTab::Pkgbuild, &index, &i));
    assert_eq!(b, vec!["pkgname=firefox", "pkgver=143.0"]);
    let built = text(&detail_lines(p, None, Some(&d), None, None, DetailTab::Info, &index, &i));
    assert_eq!(built.last().unwrap(), "built       1970-01-01 by Jan");
}
