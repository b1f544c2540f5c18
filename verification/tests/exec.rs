use sanae::exec::{strip_ansi, ExecEvent, LineSplitter};

#[test]
fn strips_colors_and_titles() {
    assert_eq!(
        strip_ansi("\x1b[1;32m:: \x1b[0mSynchronizing\x1b]0;title\x07 done"),
        ":: Synchronizing done"
    );
}

#[test]
fn osc_ends_with_esc_backslash_too() {
    assert_eq!(strip_ansi("a\x1b]2;t\x1b\\b"), "ab");
    assert_eq!(strip_ansi("x\x1b(By"), "xy");
    assert_eq!(strip_ansi("\x1b(B\x1b[mok"), "ok");
    assert_eq!(strip_ansi("a\x1b#8b\x1b7c"), "abc");
    assert_eq!(strip_ansi("tail\x1b"), "tail");
    assert_eq!(strip_ansi("plain text"), "plain text");
}

#[test]
fn stripped_text_has_no_escape() {
    let out = strip_ansi("\x1b\x1b[31m\x1b]x\x1b\\\x1bZ ok \x1b[");
    assert!(!out.contains('\x1b'));
    assert_eq!(out, "[31m ok ");
}

fn texts(evs: &[ExecEvent]) -> Vec<String> {
    evs.iter()
        .map(|e| match e {
            ExecEvent::Line(l) => format!("L:{l}"),
            ExecEvent::Partial(p) => format!("P:{p}"),
            ExecEvent::Done(c) => format!("D:{c}"),
        })
        .collect()
}

#[test]
fn crlf_ends_lines_and_cr_redraws() {
    let mut s = LineSplitter::new();
    let evs = s.feed("one\r\ntwo\r\n");
    assert_eq!(texts(&evs), vec!["P:one", "L:one", "P:two", "L:two"]);
    let evs = s.feed("10%\r50%\r");
    assert_eq!(texts(&evs), vec!["P:10%", "P:50%", "P:50%"]);
    let evs = s.feed("done\n");
    assert_eq!(texts(&evs), vec!["L:done"]);
    assert!(s.finish().is_none());
}

#[test]
fn unfinished_output_becomes_a_line_at_the_end() {
    let mut s = LineSplitter::new();
    let evs = s.feed("\x1b[1mpass\x07word: ");
    assert_eq!(texts(&evs), vec!["P:password: "]);
    match s.finish() {
        Some(ExecEvent::Line(l)) => assert_eq!(l, "password: "),
        _ => panic!("expected the last line"),
    }
}

#[test]
fn chunking_does_not_change_lines() {
    let lines = |evs: Vec<ExecEvent>| -> Vec<String> {
        evs.into_iter().filter_map(|e| if let ExecEvent::Line(l) = e { Some(l) } else { None }).collect()
    };
    let mut one = LineSplitter::new();
    let whole = lines(one.feed("one\ntwo\nthr"));
    let mut two = LineSplitter::new();
    let mut parts = lines(two.feed("one\ntw"));
    parts.extend(lines(two.feed("o\nthr")));
    assert_eq!(whole, parts);
    assert_eq!(one.line, two.line);
}
