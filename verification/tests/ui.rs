use sanae::ui::{view_after_command, ViewState};
use sanae::config::{Config, Tools};
use sanae::exec::ExecEvent;
use sanae::index::Index;
use sanae::model::{Installed, Package, Source};
use sanae::sources::pacman::LocalPackage;
use sanae::i18n::I18n;
use sanae::queue::{Action, Step};
use sanae::ui::{
    cycle_aur_helper, cycle_language, cycle_privilege, dark_shelf, mark_action, move_sel, shelf_count, shelf_name,
    change_setting, installed_names, key_command, settings_rows, sort_names, Command, DetailTab, InstalledFilter, Key, KeyState,
    RunScreen, Tab,
};

#[test]
fn tabs_have_places_and_translated_titles() {
    let mut i = I18n::new();
    assert_eq!(Tab::Settings.index(), 6);
    assert_eq!(Tab::all()[Tab::Queue.index()], Tab::Queue);
    assert_eq!(Tab::Store.title(&i), "Store");
    i.set("ja", "");
    assert_eq!(Tab::Store.title(&i), "ストア");
    assert_eq!(DetailTab::Pkgbuild.next(), DetailTab::Info);
    assert_eq!(DetailTab::Info.next().next().next().next(), DetailTab::Info);
}

#[test]
fn settings_cycle() {
    assert_eq!(cycle_aur_helper("auto"), "paru");
    assert_eq!(cycle_aur_helper(""), "paru");
    assert_eq!(cycle_aur_helper("paru"), "yay");
    assert_eq!(cycle_aur_helper("yay"), "auto");
    assert_eq!(cycle_privilege("auto"), "sudo");
    assert_eq!(cycle_privilege("sudo"), "doas");
    assert_eq!(cycle_privilege("doas"), "auto");
    assert_eq!(cycle_language("auto"), "en");
    assert_eq!(cycle_language("en"), "es");
    assert_eq!(cycle_language("ru"), "auto");
}

#[test]
fn selection_stays_in_the_list() {
    assert_eq!(move_sel(3, -10, 5), 0);
    assert_eq!(move_sel(3, 10, 5), 4);
    assert_eq!(move_sel(3, 1, 5), 4);
    assert_eq!(move_sel(7, 1, 0), 7);
}

#[test]
fn shelves_featured_regular_then_darkside() {
    assert_eq!(shelf_name(0), "Featured");
    assert_eq!(shelf_name(1), "Internet");
    assert_eq!(shelf_name(9), "Utilities");
    assert_eq!(shelf_name(10), "Darkside");
    assert_eq!(shelf_count(3), 13);
    assert_eq!(dark_shelf(10, 3), Some(0));
    assert_eq!(dark_shelf(13, 3), None);
    assert_eq!(dark_shelf(4, 3), None);
    assert_eq!(mark_action(Action::Install, true), Action::Remove);
    assert_eq!(mark_action(Action::Install, false), Action::Install);
}

#[test]
fn run_screen_moves_through_steps() {
    assert!(RunScreen::start("t", vec![]).is_none());
    let steps = vec![Step::new("one", "true", &[]), Step::new("two", "false", &["x"])];
    let mut run = RunScreen::start("t", steps).unwrap();
    run.show_step();
    assert_eq!(run.lines, vec!["▸ one", "  $ true"]);
    assert!(!run.on_event(ExecEvent::Partial("50%".into())));
    assert_eq!(run.partial, "50%");
    assert!(!run.on_event(ExecEvent::Line("ok".into())));
    assert_eq!(run.partial, "");
    assert!(run.on_event(ExecEvent::Done(0)));
    assert_eq!(run.current, 1);
    run.show_step();
    assert!(!run.on_event(ExecEvent::Done(2)));
    assert!(run.failed && run.finished);
    assert_eq!(run.lines.last().unwrap(), "✖ exited with 2");
    assert!(!run.clears_queue());
}

#[test]
fn run_screen_keeps_the_last_lines() {
    let mut run = RunScreen::start("t", vec![Step::new("one", "true", &[])]).unwrap();
    for i in 0..2100 {
        run.on_event(ExecEvent::Line(format!("{i}")));
    }
    assert_eq!(run.lines.len(), 2000);
    assert_eq!(run.lines[0], "100");
    assert!(!run.on_event(ExecEvent::Done(0)));
    assert_eq!(run.lines.last().unwrap(), "✔ done");
    assert!(run.clears_queue());
}

#[test]
fn names_sort() {
    let v = sort_names(vec!["zsh".into(), "Bash".into(), "awk".into(), "bash".into()]);
    assert_eq!(v, vec!["Bash", "awk", "bash", "zsh"]);
}

fn ba(name: &str, groups: &[&str]) -> sanae::model::Package {
    sanae::model::Package {
        name: name.into(),
        version: "1".into(),
        source: sanae::model::Source::Repo("blackarch".into()),
        description: String::new(),
        groups: groups.iter().map(|g| g.to_string()).collect(),
        licenses: vec![],
        url: None,
        install_size: None,
        download_size: None,
        votes: None,
        popularity: None,
        out_of_date: None,
        maintainer: None,
        last_modified: None,
        installed: None,
    }
}

#[test]
fn darkside_groups_are_counted_and_sorted() {
    let mut other = ba("yara", &["blackarch-scanner"]);
    other.source = sanae::model::Source::Repo("extra".into());
    let index = sanae::index::Index::build(
        vec![
            ba("nmap", &["blackarch", "blackarch-scanner", "blackarch-networking"]),
            ba("masscan", &["blackarch-scanner"]),
            ba("hydra", &["blackarch-cracker"]),
            other,
        ],
        vec![],
    );
    let groups = sanae::ui::dark_groups(&index);
    assert_eq!(
        groups,
        vec![
            ("purple team".to_string(), 1),
            ("cracker".to_string(), 1),
            ("networking".to_string(), 1),
            ("scanner".to_string(), 2),
        ]
    );
    let members: Vec<&str> = sanae::ui::dark_group_members(&index, "scanner").iter().map(|p| p.name.as_str()).collect();
    assert_eq!(members, vec!["nmap", "masscan", "yara"]);
    let purple: Vec<&str> = sanae::ui::dark_group_members(&index, "purple team").iter().map(|p| p.name.as_str()).collect();
    assert_eq!(purple, vec!["yara"]);
    let none = sanae::index::Index::build(vec![ba("x", &[])], vec![]);
    assert!(sanae::ui::dark_groups(&none).is_empty());
}

#[test]
fn settings_rows_show_what_auto_resolves_to() {
    let i = I18n::new();
    let mut cfg = Config::default();
    let tools = Tools { sudo: false, doas: true, paru: false, yay: true };
    let rows = settings_rows(&cfg, &tools, &None, &i);
    let ids: Vec<&str> = rows.iter().map(|r| r.0).collect();
    assert_eq!(ids, vec!["check_updates", "self_update", "aur_helper", "privilege", "nerd_font", "language"]);
    assert_eq!(rows[0].1, "Check for a newer Sanae at start");
    assert_eq!(rows[0].2, "on");
    assert_eq!(rows[1].2, "v0.1.0 · Enter fetches the latest release");
    assert_eq!(rows[2].2, "auto (yay)");
    assert_eq!(rows[3].2, "auto (doas)");
    assert_eq!(rows[4].2, "off");
    assert_eq!(rows[5].2, "auto (en)");

    cfg.general.aur_helper = "paru".to_string();
    cfg.general.language = "de".to_string();
    cfg.theme.nerd_font = true;
    let none = Tools { sudo: false, doas: false, paru: false, yay: false };
    let rows = settings_rows(&cfg, &none, &Some("v0.2.0".to_string()), &i);
    assert_eq!(rows[1].2, "v0.2.0 available (you run v0.1.0)");
    assert_eq!(rows[2].2, "paru");
    assert_eq!(rows[3].2, "auto (sudo)");
    assert_eq!(rows[4].2, "on");
    assert_eq!(rows[5].2, "de");

    cfg.general.aur_helper = "auto".to_string();
    let rows = settings_rows(&cfg, &none, &None, &i);
    assert_eq!(rows[2].2, "auto (none found)");
}

fn on_tab(tab: Tab) -> KeyState {
    KeyState {
        tab,
        run_open: false,
        run_finished: false,
        help: false,
        typing: false,
        query_empty: true,
        shelf_focus: false,
    }
}

#[test]
fn keys_follow_the_keymap() {
    let store = on_tab(Tab::Store);
    for (i, c) in ['1', '2', '3', '4', '5', '6', '7'].into_iter().enumerate() {
        assert_eq!(key_command(&store, Key::Char(c), false), Command::SwitchTab(Tab::all()[i]));
    }
    assert_eq!(key_command(&store, Key::Char('8'), false), Command::Nothing);
    assert_eq!(key_command(&store, Key::Char('q'), false), Command::Quit);
    assert_eq!(key_command(&store, Key::Esc, false), Command::Quit);
    assert_eq!(key_command(&store, Key::Char('?'), false), Command::ShowHelp);
    assert_eq!(key_command(&store, Key::Char('/'), false), Command::StartTyping);
    assert_eq!(key_command(&store, Key::Down, false), Command::Move(1));
    assert_eq!(key_command(&store, Key::Char('k'), false), Command::Move(-1));
    assert_eq!(key_command(&store, Key::PageDown, false), Command::Move(15));
    assert_eq!(key_command(&store, Key::Char('G'), false), Command::Move(100_000));
    assert_eq!(key_command(&store, Key::Left, false), Command::FocusShelves);
    assert_eq!(key_command(&store, Key::Char('l'), false), Command::OpenShelf);
    assert_eq!(key_command(&store, Key::Enter, false), Command::NextDetailTab);
    assert_eq!(key_command(&KeyState { shelf_focus: true, ..store }, Key::Enter, false), Command::OpenShelf);
    assert_eq!(key_command(&store, Key::Char('A'), false), Command::QueueDarkGroup);
    assert_eq!(key_command(&store, Key::Char(' '), false), Command::Toggle(sanae::queue::Action::Install));
    assert_eq!(key_command(&store, Key::Char('d'), false), Command::Toggle(sanae::queue::Action::Remove));

    let queue = on_tab(Tab::Queue);
    assert_eq!(key_command(&queue, Key::Delete, false), Command::RemoveFromQueue);
    assert_eq!(key_command(&queue, Key::Char('c'), false), Command::ClearQueue);
    assert_eq!(key_command(&queue, Key::Enter, false), Command::ApplyQueue);
    assert_eq!(key_command(&queue, Key::Char('A'), false), Command::Nothing);
    assert_eq!(key_command(&queue, Key::Right, false), Command::ScrollOn);

    let installed = on_tab(Tab::Installed);
    assert_eq!(key_command(&installed, Key::Char('f'), false), Command::NextFilter);
    assert_eq!(key_command(&installed, Key::Char('o'), false), Command::QueueOrphans);
    assert_eq!(key_command(&on_tab(Tab::Updates), Key::Char(' '), false), Command::Nothing);
    assert_eq!(key_command(&on_tab(Tab::Updates), Key::Enter, false), Command::UpdateAll);
    assert_eq!(key_command(&on_tab(Tab::Settings), Key::Char(' '), false), Command::ActivateSetting);
    assert_eq!(key_command(&on_tab(Tab::Recipes), Key::Enter, false), Command::ApplyRecipe);
}

#[test]
fn search_field_help_and_run_screen_take_keys_first() {
    let search = KeyState { typing: true, query_empty: false, ..on_tab(Tab::Search) };
    assert_eq!(key_command(&search, Key::Char('q'), false), Command::TypeChar('q'));
    assert_eq!(key_command(&search, Key::Char('u'), true), Command::ClearTyped);
    assert_eq!(key_command(&search, Key::Backspace, false), Command::DeleteChar);
    assert_eq!(key_command(&search, Key::Enter, false), Command::StopTyping);
    assert_eq!(key_command(&search, Key::Char('c'), true), Command::Quit);
    let browsing = KeyState { typing: false, ..search };
    assert_eq!(key_command(&browsing, Key::Esc, false), Command::ClearQuery);
    assert_eq!(key_command(&browsing, Key::Char('q'), false), Command::Quit);

    let help = KeyState { help: true, ..on_tab(Tab::Store) };
    assert_eq!(key_command(&help, Key::Char('c'), true), Command::CloseHelp);

    let running = KeyState { run_open: true, ..on_tab(Tab::Queue) };
    assert_eq!(key_command(&running, Key::Char('y'), false), Command::Send('y'));
    assert_eq!(key_command(&running, Key::Enter, false), Command::Send('\r'));
    assert_eq!(key_command(&running, Key::Backspace, false), Command::Send('\x7f'));
    assert_eq!(key_command(&running, Key::Char('c'), true), Command::Interrupt);
    assert_eq!(key_command(&running, Key::Esc, false), Command::Nothing);
    let done = KeyState { run_finished: true, ..running };
    assert_eq!(key_command(&done, Key::Char('q'), false), Command::CloseRun);
    assert_eq!(key_command(&done, Key::Esc, false), Command::CloseRun);
    assert_eq!(key_command(&done, Key::Char('y'), false), Command::Nothing);
}

#[test]
fn filters_come_back_round() {
    let mut f = InstalledFilter::All;
    let mut seen = vec![];
    for _ in 0..5 {
        seen.push(f);
        f = f.next();
    }
    assert_eq!(f, InstalledFilter::All);
    assert_eq!(
        seen,
        vec![
            InstalledFilter::All,
            InstalledFilter::Explicit,
            InstalledFilter::Dependencies,
            InstalledFilter::Orphans,
            InstalledFilter::Foreign
        ]
    );
}

fn repo(name: &str) -> Package {
    Package {
        name: name.into(),
        version: "1.0-1".into(),
        source: Source::Repo("extra".into()),
        description: String::new(),
        groups: vec![],
        licenses: vec![],
        url: None,
        install_size: None,
        download_size: None,
        votes: None,
        popularity: None,
        out_of_date: None,
        maintainer: None,
        last_modified: None,
        installed: None,
    }
}

fn local(name: &str, explicit: bool) -> LocalPackage {
    LocalPackage {
        name: name.into(),
        description: String::new(),
        url: None,
        licenses: vec![],
        groups: vec![],
        installed: Installed { version: "1.0-1".into(), explicit, install_date: None, install_size: None },
    }
}

#[test]
fn installed_tab_lists_by_filter_sorted() {
    let index = Index::build(
        vec![repo("zsh"), repo("bash"), repo("vim")],
        vec![local("zsh", true), local("vim", false), local("paru", true), local("bash", true)],
    );
    let all = installed_names(&index, InstalledFilter::All, &None).unwrap();
    assert_eq!(all, vec!["bash", "paru", "vim", "zsh"]);
    let explicit = installed_names(&index, InstalledFilter::Explicit, &None).unwrap();
    assert_eq!(explicit, vec!["bash", "paru", "zsh"]);
    let deps = installed_names(&index, InstalledFilter::Dependencies, &None).unwrap();
    assert_eq!(deps, vec!["vim"]);
    let foreign = installed_names(&index, InstalledFilter::Foreign, &None).unwrap();
    assert_eq!(foreign, vec!["paru"]);
    assert_eq!(installed_names(&index, InstalledFilter::Orphans, &None), None);
    let orphans = Some(vec!["zlib-old".to_string(), "libfoo".to_string()]);
    assert_eq!(installed_names(&index, InstalledFilter::Orphans, &orphans).unwrap(), vec!["libfoo", "zlib-old"]);
}

#[test]
fn a_settings_press_changes_one_setting() {
    let mut cfg = Config::default();
    assert!(change_setting(&mut cfg, "aur_helper"));
    assert_eq!(cfg.general.aur_helper, "paru");
    assert!(change_setting(&mut cfg, "aur_helper"));
    assert_eq!(cfg.general.aur_helper, "yay");
    assert!(change_setting(&mut cfg, "privilege"));
    assert_eq!(cfg.general.privilege, "sudo");
    assert!(change_setting(&mut cfg, "check_updates"));
    assert!(!cfg.general.check_updates);
    assert!(change_setting(&mut cfg, "nerd_font"));
    assert!(cfg.theme.nerd_font);
    assert!(change_setting(&mut cfg, "language"));
    assert_eq!(cfg.general.language, "en");
    assert!(!change_setting(&mut cfg, "self_update"));
    assert!(!change_setting(&mut cfg, "nonsense"));
    assert_eq!(cfg.general.aur_helper, "yay");
    assert_eq!(cfg.general.privilege, "sudo");
    assert!(cfg.general.confirm);
}

#[test]
fn selection_follows_its_name_after_a_refresh() {
    let names: Vec<String> = ["a", "b", "c", "b"].iter().map(|s| s.to_string()).collect();
    assert_eq!(sanae::ui::keep_selection(&names, "b"), Some(1));
    assert_eq!(sanae::ui::keep_selection(&names, "z"), None);
}

#[test]
fn commands_change_the_view() {
    let v = ViewState { tab: Tab::Installed, typing: true, help: false, shelf_focus: false, detail_scroll: 12 };
    let s = view_after_command(v, Command::SwitchTab(Tab::Queue));
    assert_eq!(s, ViewState { tab: Tab::Queue, typing: false, help: false, shelf_focus: false, detail_scroll: 0 });
    let t = view_after_command(v, Command::StartTyping);
    assert_eq!((t.tab, t.typing, t.detail_scroll), (Tab::Search, true, 0));
    assert_eq!(view_after_command(ViewState { detail_scroll: 3, ..v }, Command::ScrollBack).detail_scroll, 0);
    assert_eq!(view_after_command(ViewState { detail_scroll: 65533, ..v }, Command::ScrollOn).detail_scroll, 65535);
    assert_eq!(view_after_command(v, Command::ScrollOn).detail_scroll, 17);
    assert_eq!(view_after_command(v, Command::Reload), v);
}

#[test]
fn aur_search_waits_for_two_bytes() {
    assert!(!sanae::ui::aur_search_due("a"));
    assert!(sanae::ui::aur_search_due("ab"));
    assert!(sanae::ui::aur_search_due("é"));
}
