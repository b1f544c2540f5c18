use std::cmp::Ordering;

use sanae::model::Source;
use sanae::sources::pacman::{
    details, details_args, files, foreign, orphans, parse_local, parse_sync, parse_updates, run_result,
    updates, vercmp, ToolOutput,
};

const LS: &str = "\x1f";

#[test]
fn sync_lines_become_packages() {
    let text = format!(
        "firefox\t143.0-1\textra\tFast, Private & Safe Web Browser\t\t262144000\t73400320\thttps://www.mozilla.org/firefox/\tMPL-2.0\n\
         xfce4-panel\t4.20.4-1\textra\tPanel for the Xfce desktop environment\txfce4\t8388608\t1048576\thttps://xfce.org\tGPL-2.0-or-later{LS}LGPL-2.1-or-later\n\
         broken line\n"
    );
    let pkgs = parse_sync(&text);
    assert_eq!(pkgs.len(), 2);
    let ff = &pkgs[0];
    assert_eq!(ff.name, "firefox");
    assert_eq!(ff.version, "143.0-1");
    assert_eq!(ff.source, Source::Repo("extra".into()));
    assert_eq!(ff.install_size, Some(262_144_000));
    assert_eq!(ff.download_size, Some(73_400_320));
    assert!(ff.groups.is_empty());
    assert_eq!(ff.licenses, vec!["MPL-2.0"]);
    let panel = &pkgs[1];
    assert_eq!(panel.groups, vec!["xfce4"]);
    assert_eq!(panel.licenses.len(), 2);
    assert_eq!(panel.url.as_deref(), Some("https://xfce.org"));
}

#[test]
fn local_lines_carry_install_reason_and_date() {
    let text = "paru\t2.1.0-2\tExplicitly installed\t1757500000\t12345678\tFeature packed AUR helper\thttps://github.com/Morganamilo/paru\tGPL-3.0-or-later\t\n\
                zlib\t1.3.1-2\tInstalled as a dependency for another package\t1757400000\t500000\tCompression library\tNone\tZlib\t\n";
    let pkgs = parse_local(text);
    assert_eq!(pkgs.len(), 2);
    assert!(pkgs[0].installed.explicit);
    assert_eq!(pkgs[0].installed.install_date, Some(1_757_500_000));
    assert!(!pkgs[1].installed.explicit);
    assert_eq!(pkgs[1].url, None, "'None' from expac must become no URL");
    assert_eq!(pkgs[1].licenses, vec!["Zlib"]);
}

#[test]
fn checkupdates_lines_become_updates() {
    let ups = parse_updates("linux 6.17.1.arch1-1 -> 6.17.2.arch1-1\nnonsense\n");
    assert_eq!(ups.len(), 1);
    assert_eq!(ups[0].name, "linux");
    assert_eq!(ups[0].current, "6.17.1.arch1-1");
    assert_eq!(ups[0].new, "6.17.2.arch1-1");
}

fn out(success: bool, stdout: &str, stderr: &str) -> Option<ToolOutput> {
    Some(ToolOutput { success, stdout: stdout.into(), stderr: stderr.into() })
}

#[test]
fn tool_results_keep_output_of_failing_tools() {
    assert_eq!(run_result("expac", None), Err("could not run expac (is it installed?)".to_string()));
    assert_eq!(run_result("pacman", out(false, "", "  error: target not found\n")), Err("pacman failed: error: target not found".to_string()));
    assert_eq!(run_result("pacman", out(false, "a\n", "err")), Ok("a\n".to_string()));
    assert_eq!(run_result("pacman", out(true, "", "")), Ok(String::new()));
}

#[test]
fn name_lists_and_their_failures() {
    assert_eq!(files(Ok("/usr/bin/vim\n/usr/share/vim\n".into())).unwrap(), vec!["/usr/bin/vim", "/usr/share/vim"]);
    assert_eq!(files(Err("pacman failed: x".into())), Err("pacman failed: x".to_string()));
    assert!(orphans(Err("pacman failed: ".into())).unwrap().is_empty());
    assert_eq!(foreign(Ok("paru\nyay\n".into())).unwrap(), vec!["paru", "yay"]);
}

#[test]
fn checkupdates_with_nothing_to_do_is_no_update() {
    assert!(updates(Err("checkupdates failed: ".into())).unwrap().is_empty());
    assert_eq!(updates(Err("checkupdates failed: no network".into())).unwrap_err(), "checkupdates failed: no network");
    assert_eq!(updates(Ok("a 1 -> 2\n".into())).unwrap().len(), 1);
}

#[test]
fn details_need_all_twelve_fields() {
    let line = format!("glibc{LS}gcc-libs\tbash: for tzselect\t\tsh\t\t\tvim\t\tAllan <a@b>\t1700000000\tx86_64\tNone\n");
    let d = details("vim", Ok(line)).unwrap();
    assert_eq!(d.depends, vec!["glibc", "gcc-libs"]);
    assert_eq!(d.opt_depends, vec!["bash: for tzselect"]);
    assert_eq!(d.required_by, vec!["vim"]);
    assert_eq!(d.build_date, Some(1_700_000_000));
    assert_eq!(d.package_base, None);
    assert!(details("vim", Ok("a\tb\n".into())).is_err());
    assert_eq!(details("vim", Ok(String::new())).unwrap_err(), "no details for vim");
    let args = details_args("vim", true);
    assert_eq!(args[0], "-Q");
    assert_eq!(args[6], "vim");
}

#[test]
fn vercmp_reads_the_answer_or_falls_back_to_text_order() {
    assert_eq!(vercmp("1.10", "1.9", Some("1\n")), Ordering::Greater);
    assert_eq!(vercmp("1.9", "1.10", Some("-1")), Ordering::Less);
    assert_eq!(vercmp("1.0", "1.0-1", Some("0")), Ordering::Equal);
    assert_eq!(vercmp("1.10", "1.9", None), Ordering::Less);
}
