use log_annotator::annotate::annotate_lines;
use log_annotator::config::DebuggerVarilator;

fn strings(v: Vec<&str>) -> Vec<String> {
    v.into_iter().map(|s| s.to_string()).collect()
}

#[test]
fn one_line_block_has_header_location_fetch_then_line() {
    let out = annotate_lines(
        &strings(vec!["00 00 00001004 00 nop"]),
        &strings(vec!["src/foo.c:10\n"]),
        &strings(vec!["    int x = 1;\n"]),
    );
    assert_eq!(out, "\nsrc/foo.c:10\n    int x = 1;\n00 00 00001004 00 nop\n");
}

#[test]
fn same_location_groups_under_one_header() {
    let out = annotate_lines(
        &strings(vec!["l1", "l2", "l3"]),
        &strings(vec!["a.c:1\n", "a.c:1\n", "a.c:1\n"]),
        &strings(vec!["    x\n", "", ""]),
    );
    assert_eq!(out, "\na.c:1\n    x\nl1\nl2\nl3\n");
}

#[test]
fn location_change_retriggers_the_header() {
    let out = annotate_lines(
        &strings(vec!["l1", "l2", "l3", "l4"]),
        &strings(vec!["a.c:1\n", "a.c:1\n", "b.c:2\n", "a.c:1\n"]),
        &strings(vec!["    x\n", "", "    y\n", "    x\n"]),
    );
    assert_eq!(
        out,
        "\na.c:1\n    x\nl1\nl2\n\nb.c:2\n    y\nl3\n\na.c:1\n    x\nl4\n"
    );
}

#[test]
fn consecutive_sentinels_share_one_header() {
    let sentinel = "    Not found\n";
    let out = annotate_lines(
        &strings(vec!["l1", "l2"]),
        &strings(vec![sentinel, sentinel]),
        &strings(vec![sentinel, sentinel]),
    );
    assert_eq!(out, "\n    Not found\n    Not found\nl1\nl2\n");
}

#[test]
fn transition_out_of_resolution_emits_a_header() {
    let sentinel = "    Not found\n";
    let out = annotate_lines(
        &strings(vec!["l1", "l2", "l3"]),
        &strings(vec!["a.c:1\n", sentinel, "a.c:1\n"]),
        &strings(vec!["    x\n", sentinel, "    x\n"]),
    );
    assert_eq!(
        out,
        "\na.c:1\n    x\nl1\n\n    Not found\n    Not found\nl2\n\na.c:1\n    x\nl3\n"
    );
}

#[test]
fn incremental_run_matches_the_batch() {
    let mut dv = DebuggerVarilator::new("addr2line", "a.elf", "log.txt", "out.txt");
    assert!(dv.needs_header("a.c:1\n"));
    dv.push_line("l1", "a.c:1\n", "    x\n");
    assert!(!dv.needs_header("a.c:1\n"));
    dv.push_line("l2", "a.c:1\n", "");
    assert!(dv.needs_header("b.c:2\n"));
    dv.push_line("l3", "b.c:2\n", "    y\n");
    let batch = annotate_lines(
        &strings(vec!["l1", "l2", "l3"]),
        &strings(vec!["a.c:1\n", "a.c:1\n", "b.c:2\n"]),
        &strings(vec!["    x\n", "", "    y\n"]),
    );
    assert_eq!(dv.output, batch);
    assert_eq!(dv.last_src_line, "b.c:2\n");
}

#[test]
fn empty_run_emits_nothing() {
    let out = annotate_lines(&strings(vec![]), &strings(vec![]), &strings(vec![]));
    assert_eq!(out, "");
}
