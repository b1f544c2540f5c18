use sanae::recipes::{find, merge_by_id, parse, ApplyOptions, Recipe, RecipeCommand, RecipeFile, parent, sq};

fn test_recipe() -> Recipe {
    Recipe {
        id: String::new(),
        name: "Test".into(),
        summary: "s".into(),
        category: String::new(),
        packages: vec!["a".into(), "b".into()],
        aur: vec![],
        services: vec!["x.service".into()],
        groups: vec!["wheel".into()],
        files: vec![RecipeFile {
            path: "~/.config/it's.conf".into(),
            content: Some("hello 'world'".into()),
            append: None,
            mode: None,
            user: true,
        }],
        commands: vec![RecipeCommand { run: "echo done".into(), as_who: "user".into() }],
        env: vec![],
        needs: vec![],
        check: None,
        notes: None,
    }
}

#[test]
fn plan_uses_chroot_and_quotes_content() {
    let r = parse("t", Ok(test_recipe())).unwrap();
    let opts = ApplyOptions {
        chroot: Some("/mnt".to_string()),
        user: "jp".into(),
        privilege: "sudo".into(),
        aur_helper: None,
    };
    let steps = r.plan(&opts);
    assert_eq!(steps[0].program, "arch-chroot");
    assert_eq!(steps[0].args[0], "/mnt");
    assert!(steps[0].args[3].contains("pacman -S --needed --noconfirm a b"));
    let write = steps.iter().find(|s| s.title.starts_with("Writing")).unwrap();
    assert!(write.args[3].contains("/home/jp/.config/"), "{}", write.args[3]);
    assert!(write.args[3].contains(r#"'hello '\''world'\'''"#), "{}", write.args[3]);
    assert!(write.args[3].contains("chown -R 'jp':'jp'"));
    let last = steps.last().unwrap();
    assert!(last.args.contains(&"-u".to_string()) && last.args.contains(&"jp".to_string()));
    let steps_local =
        r.plan(&ApplyOptions { chroot: None, user: "jp".into(), privilege: "doas".into(), aur_helper: None });
    assert_eq!(steps_local[0].program, "doas");
}

#[test]
fn parse_names_the_recipe_after_its_file() {
    let mut unnamed = test_recipe();
    unnamed.name = String::new();
    let r = parse("fonts", Ok(unnamed)).unwrap();
    assert_eq!(r.id, "fonts");
    assert_eq!(r.name, "fonts");
    let e = parse("bad", Err("expected `=`".into())).unwrap_err();
    assert_eq!(e, "recipe bad: expected `=`");
}

#[test]
fn later_recipes_override_and_come_out_sorted() {
    let mut list = Vec::new();
    for (id, name) in [("docker", "Docker"), ("fonts", "Fonts"), ("docker", "Docker (mine)"), ("bluetooth", "BT")] {
        let mut r = test_recipe();
        r.id = id.into();
        r.name = name.into();
        list.push(r);
    }
    let all = merge_by_id(list);
    let ids: Vec<&str> = all.iter().map(|r| r.id.as_str()).collect();
    assert_eq!(ids, vec!["bluetooth", "docker", "fonts"]);
    assert_eq!(all[1].name, "Docker (mine)");
    assert!(find(&all, "fonts").is_some());
    assert!(find(&all, "qemu-kvm").is_none());
}

#[test]
fn applied_means_check_or_all_packages_installed() {
    let r = test_recipe();
    let installed = vec!["a".to_string(), "b".to_string()];
    assert!(r.is_applied(false, &installed));
    assert!(!r.is_applied(false, &vec!["a".to_string()]));
    let mut checked = test_recipe();
    checked.check = Some("true".into());
    assert!(!checked.is_applied(false, &installed));
    assert!(checked.is_applied(true, &vec![]));
    let mut empty = test_recipe();
    empty.packages.clear();
    assert!(!empty.is_applied(true, &installed));
}

#[test]
fn aur_recipes_use_the_helper_or_fail_plainly() {
    let mut r = test_recipe();
    r.packages.clear();
    r.groups.clear();
    r.files.clear();
    r.services.clear();
    r.commands.clear();
    r.aur = vec!["yay-bin".into()];
    let paru = ApplyOptions { chroot: None, user: "jp".into(), privilege: "sudo".into(), aur_helper: Some("paru".into()) };
    let steps = r.plan(&paru);
    assert_eq!(steps.len(), 1);
    assert_eq!(steps[0].command_line(), "bash -c paru -S --needed --noconfirm --skipreview yay-bin");
    let none = ApplyOptions { chroot: None, user: "jp".into(), privilege: "sudo".into(), aur_helper: None };
    let steps = r.plan(&none);
    assert_eq!(steps[0].title, "No AUR helper for: yay-bin");
    assert_eq!(steps[0].program, "false");
}

#[test]
fn quoting_keeps_quotes_readable() {
    assert_eq!(sq("plain"), "'plain'");
    assert_eq!(sq(""), "''");
    assert_eq!(sq("it's"), "'it'\\''s'");
    assert_eq!(sq("''"), "''\\'''\\'''");
}

#[test]
fn parent_directories() {
    assert_eq!(parent("/etc/fonts/conf.d/10-sanae.conf"), "/etc/fonts/conf.d");
    assert_eq!(parent("/home/jp/.config/"), "/home/jp");
    assert_eq!(parent("relative.conf"), "/");
    assert_eq!(parent("/"), "/");
}
