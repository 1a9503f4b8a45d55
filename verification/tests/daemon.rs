use bard::bard::Bard;
use bard::block::CmdOutcome;
use bard::config::{BlockDef, ConfigDoc};

fn ok_outcome(stdout: &str) -> CmdOutcome {
    CmdOutcome {
        success: true,
        status: "exit status: 0".to_string(),
        stdout: stdout.to_string(),
        stderr: String::new(),
    }
}

fn doc_with(names_cmds: &[(&str, &str)]) -> ConfigDoc {
    let blocks = names_cmds
        .iter()
        .map(|(n, c)| BlockDef {
            name: Some(n.to_string()),
            cmd: Some(c.to_string()),
            prefix: None,
        })
        .collect();
    ConfigDoc { delim: None, prefix: None, suffix: None, blocks: Some(blocks) }
}

#[test]
fn from_config_builds_one_block_per_definition() {
    let doc = doc_with(&[("cpu", "top -b"), ("mem", "free"), ("net", "ip a")]);
    let b = Bard::from_config("/tmp/cfg.yaml".to_string(), doc);
    assert!(b.is_ready());
    let cmds = b.commands_for_update_all();
    assert_eq!(cmds, vec!["top -b".to_string(), "free".to_string(), "ip a".to_string()]);
    assert_eq!(b.config_path(), "/tmp/cfg.yaml");
}

#[test]
fn from_config_missing_cmd_degrades() {
    let doc = ConfigDoc {
        delim: None,
        prefix: None,
        suffix: None,
        blocks: Some(vec![
            BlockDef { name: Some("ok".to_string()), cmd: Some("true".to_string()), prefix: None },
            BlockDef { name: Some("bad".to_string()), cmd: None, prefix: None },
        ]),
    };
    let mut b = Bard::from_config("p".to_string(), doc);
    assert!(!b.is_ready());
    let (ok, report) = b.update_all(Vec::new());
    assert!(!ok);
    assert_eq!(report, "parse error: expected `cmd` field in [bad]\n");
}

#[test]
fn from_config_no_blocks_hash_degrades() {
    let doc = ConfigDoc { delim: None, prefix: None, suffix: None, blocks: None };
    let mut b = Bard::from_config("p".to_string(), doc);
    assert!(!b.is_ready());
    let (ok, report) = b.update(&vec!["x".to_string()], Vec::new());
    assert!(!ok);
    assert_eq!(report, "parse error: config is not a proper yaml hash\n");
}

#[test]
fn update_known_and_unknown_selector() {
    let doc = doc_with(&[("x", "echo hi")]);
    let mut b = Bard::from_config("p".to_string(), doc);
    let sels = vec!["x".to_string(), "y:hello".to_string()];
    let cmds = b.commands_for_update(&sels);
    assert_eq!(cmds, vec!["echo hi".to_string()]);
    let (ok, report) = b.update(&sels, vec![ok_outcome("new output\n")]);
    assert!(ok);
    assert_eq!(report, "[x]: exit status: 0\n[y]: block not found\n");
    // x's cached output changed to the collapsed command output; y touched nothing.
    let bar = b.draw_bar().unwrap();
    assert_eq!(bar, " new output ");
}

#[test]
fn update_literal_text_selector_sets_output() {
    let doc = doc_with(&[("x", "echo hi")]);
    let mut b = Bard::from_config("p".to_string(), doc);
    let sels = vec!["x:hello:world".to_string()];
    let cmds = b.commands_for_update(&sels);
    assert!(cmds.is_empty());
    let (ok, report) = b.update(&sels, Vec::new());
    assert!(ok);
    // the selector splits at the first colon only
    assert_eq!(report, "[x]: set to 'hello:world'\n");
    assert_eq!(b.draw_bar().unwrap(), " hello:world ");
}

#[test]
fn update_all_reports_one_line_per_block_in_order() {
    let doc = doc_with(&[("a", "cmd-a"), ("b", "cmd-b"), ("c", "cmd-c")]);
    let mut b = Bard::from_config("p".to_string(), doc);
    let outcomes = vec![
        ok_outcome("1"),
        CmdOutcome {
            success: false,
            status: "exit status: 2".to_string(),
            stdout: String::new(),
            stderr: "boom\n".to_string(),
        },
        ok_outcome("3"),
    ];
    let (ok, report) = b.update_all(outcomes);
    assert!(ok);
    assert_eq!(
        report,
        "[a]: exit status: 0\n[b]: exit status: 2, stderr: boom\n[c]: exit status: 0\n"
    );
    assert_eq!(report.matches('\n').count(), 3);
}

#[test]
fn draw_bar_elides_empty_blocks_with_their_delimiters() {
    let doc = ConfigDoc {
        delim: Some(" | ".to_string()),
        prefix: Some("<".to_string()),
        suffix: Some(">".to_string()),
        blocks: Some(vec![
            BlockDef { name: Some("a".to_string()), cmd: Some("x".to_string()), prefix: None },
            BlockDef { name: Some("b".to_string()), cmd: Some("y".to_string()), prefix: None },
        ]),
    };
    let mut b = Bard::from_config("p".to_string(), doc);
    let (ok, _) = b.update(&vec!["a:foo".to_string(), "b:".to_string()], Vec::new());
    assert!(ok);
    assert_eq!(b.draw_bar().unwrap(), "<foo>");
}

#[test]
fn draw_bar_joins_segments_and_applies_block_prefix() {
    let doc = ConfigDoc {
        delim: Some(" | ".to_string()),
        prefix: Some("[".to_string()),
        suffix: Some("]".to_string()),
        blocks: Some(vec![
            BlockDef {
                name: Some("a".to_string()),
                cmd: Some("x".to_string()),
                prefix: Some("A".to_string()),
            },
            BlockDef { name: Some("b".to_string()), cmd: Some("y".to_string()), prefix: None },
        ]),
    };
    let mut b = Bard::from_config("p".to_string(), doc);
    let (_, _) = b.update(&vec!["a:1".to_string(), "b:2".to_string()], Vec::new());
    assert_eq!(b.draw_bar().unwrap(), "[A 1 | 2]");
}

#[test]
fn draw_bar_twice_is_identical() {
    let doc = doc_with(&[("a", "x"), ("b", "y")]);
    let mut b = Bard::from_config("p".to_string(), doc);
    let (_, _) = b.update(&vec!["a:one".to_string()], Vec::new());
    let first = b.draw_bar().unwrap();
    let second = b.draw_bar().unwrap();
    assert_eq!(first, second);
}

#[test]
fn degraded_state_serves_its_message() {
    let mut b = Bard::degraded("/tmp/gone.yaml".to_string(), "could not read `/tmp/gone.yaml`".to_string());
    assert!(!b.is_ready());
    assert_eq!(b.config_path(), "/tmp/gone.yaml");
    let (ok, report) = b.update_all(Vec::new());
    assert!(!ok);
    assert_eq!(report, "parse error: could not read `/tmp/gone.yaml`\n");
    assert!(b.draw_bar().is_err());
}

#[test]
fn restart_with_bad_config_keeps_daemon_answering() {
    let mut b = Bard::init("p".to_string(), "blocks:\n  a:\n    cmd: echo hi\n");
    assert!(b.is_ready());
    b.restart("blocks: [unclosed\n");
    assert!(!b.is_ready());
    let (ok, report) = b.update_all(Vec::new());
    assert!(!ok);
    assert!(report.starts_with("parse error: "));
    assert!(b.draw_bar().is_err());
    // a later restart with a good configuration recovers
    b.restart("blocks:\n  a:\n    cmd: echo hi\n");
    assert!(b.is_ready());
    assert_eq!(b.commands_for_update_all(), vec!["echo hi".to_string()]);
}
