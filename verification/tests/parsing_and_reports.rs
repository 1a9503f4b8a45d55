use bard::bard::Bard;
use bard::block::{Block, CmdOutcome};

#[test]
fn init_reads_blocks_settings_and_defaults() {
    let text = "delim: ' / '\nprefix: '<'\nsuffix: '>'\nblocks:\n  one:\n    cmd: echo 1\n  two:\n    cmd: echo 2\n    prefix: T\n";
    let mut b = Bard::init("/tmp/cfg".to_string(), text);
    assert!(b.is_ready());
    assert_eq!(b.commands_for_update_all(), vec!["echo 1".to_string(), "echo 2".to_string()]);
    let (ok, _) = b.update(&vec!["one:X".to_string(), "two:Y".to_string()], Vec::new());
    assert!(ok);
    assert_eq!(b.draw_bar().unwrap(), "<X / T Y>");
}

#[test]
fn init_applies_default_settings() {
    let mut b = Bard::init("p".to_string(), "blocks:\n  a:\n    cmd: x\n");
    let (_, _) = b.update(&vec!["a:out".to_string()], Vec::new());
    assert_eq!(b.draw_bar().unwrap(), " out ");
}

#[test]
fn init_with_scan_error_degrades() {
    let mut b = Bard::init("p".to_string(), "blocks: [unclosed\n");
    assert!(!b.is_ready());
    let (ok, report) = b.update_all(Vec::new());
    assert!(!ok);
    assert!(report.starts_with("parse error: "));
    assert!(report.ends_with("\n"));
}

#[test]
fn init_without_blocks_hash_degrades() {
    let mut b = Bard::init("p".to_string(), "delim: ' '\n");
    assert!(!b.is_ready());
    let (_, report) = b.update_all(Vec::new());
    assert_eq!(report, "parse error: config is not a proper yaml hash\n");
}

#[test]
fn init_empty_text_degrades() {
    let b = Bard::init("p".to_string(), "");
    assert!(!b.is_ready());
}

#[test]
fn init_missing_cmd_names_block_and_field() {
    let mut b = Bard::init("p".to_string(), "blocks:\n  snd:\n    prefix: S\n");
    assert!(!b.is_ready());
    let (_, report) = b.update_all(Vec::new());
    assert_eq!(report, "parse error: expected `cmd` field in [snd]\n");
}

#[test]
fn run_failure_with_stderr_reports_both() {
    let mut b = Block::init("job".to_string(), "cmd".to_string(), None);
    let report = b.run(&CmdOutcome {
        success: false,
        status: "exit status: 1".to_string(),
        stdout: String::new(),
        stderr: "  went wrong\n".to_string(),
    });
    assert_eq!(report, "[job]: exit status: 1, stderr: went wrong\n");
}

#[test]
fn run_success_ignores_stderr() {
    let mut b = Block::init("job".to_string(), "cmd".to_string(), None);
    let report = b.run(&CmdOutcome {
        success: true,
        status: "exit status: 0".to_string(),
        stdout: "fine".to_string(),
        stderr: "noise".to_string(),
    });
    assert_eq!(report, "[job]: exit status: 0\n");
    assert_eq!(b.draw().unwrap(), "fine");
}

#[test]
fn run_collapses_multiline_output() {
    let mut b = Block::init("j".to_string(), "c".to_string(), None);
    let _ = b.run(&CmdOutcome {
        success: true,
        status: "exit status: 0".to_string(),
        stdout: "  line one\nline two\n".to_string(),
        stderr: String::new(),
    });
    assert_eq!(b.draw().unwrap(), "line one line two");
}

#[test]
fn empty_output_draws_nothing() {
    let mut b = Block::init("j".to_string(), "c".to_string(), Some("P".to_string()));
    assert!(b.draw().is_none());
    let report = b.set_output("text");
    assert_eq!(report, "[j]: set to 'text'\n");
    assert_eq!(b.draw().unwrap(), "P text");
    let _ = b.set_output("");
    assert!(b.draw().is_none());
}
