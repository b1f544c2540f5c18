use sanae::config::{Config, Tools};
use sanae::queue::{Action, Queue};

#[test]
fn toggle_marks_and_unmarks() {
    let mut q = Queue::default();
    q.toggle("vim", Action::Install, false);
    assert_eq!(q.len(), 1);
    q.toggle("vim", Action::Install, false);
    assert!(q.is_empty(), "same action again unmarks");
    q.toggle("vim", Action::Install, false);
    q.toggle("vim", Action::Remove, false);
    assert_eq!(q.get("vim").unwrap().action, Action::Remove, "other action replaces");
}

#[test]
fn plan_orders_removals_repo_then_aur() {
    let mut q = Queue::default();
    q.toggle("spotify", Action::Install, true);
    q.toggle("vim", Action::Install, false);
    q.toggle("nano", Action::Remove, false);
    let mut cfg = Config::default();
    cfg.general.privilege = "sudo".into();
    cfg.general.aur_helper = "paru".into();
    let steps = q.plan(&cfg, &Tools::default());
    assert_eq!(steps.len(), 3);
    assert_eq!(steps[0].command_line(), "sudo pacman -Rs --noconfirm nano");
    assert_eq!(steps[1].command_line(), "sudo pacman -S --needed --noconfirm vim");
    assert_eq!(steps[2].command_line(), "paru -S --needed --noconfirm --skipreview spotify");
}

#[test]
fn each_queued_name_is_in_one_step_once() {
    let mut q = Queue::default();
    q.toggle("spotify", Action::Install, true);
    q.toggle("vim", Action::Install, false);
    q.toggle("nano", Action::Remove, false);
    q.toggle("yay", Action::Remove, true);
    let mut cfg = Config::default();
    cfg.general.aur_helper = "yay".into();
    let steps = q.plan(&cfg, &Tools::default());
    assert_eq!(steps.len(), 3);
    for name in ["spotify", "vim", "nano", "yay"] {
        let n: usize = steps.iter().map(|s| s.args.iter().filter(|a| a.as_str() == name).count()).sum();
        assert_eq!(n, 1, "{name}");
    }
    assert!(Queue::default().plan(&cfg, &Tools::default()).is_empty());

    let mut odd = Queue::default();
    odd.toggle("pacman", Action::Install, false);
    let steps = odd.plan(&cfg, &Tools::default());
    assert_eq!(steps[0].args.iter().filter(|a| a.as_str() == "pacman").count(), 2);
}
