use council_core::coding::{
    coding_report, coding_system_prompt, critique_label, parse_file_edits, refused_write_warning,
    repair_prompt, should_build, workspace_parts, CodingFlow, CodingPhase, CodingStep,
    RoundEditLog,
};
use council_core::model::{Council, Expert, ProviderConfig, ProviderType};

fn mock_expert(id: &str) -> Expert {
    Expert {
        id: id.to_string(),
        name: id.to_uppercase(),
        config: ProviderConfig {
            name: "Mock Provider".to_string(),
            provider_type: ProviderType::Mock,
            model_name: "mock-model".to_string(),
            base_url: None,
            api_key: None,
            enable_thinking: false,
        },
        system_prompt: format!("you are {}", id),
    }
}

fn council(ids: &[&str], critique_rounds: u32) -> Council {
    Council {
        id: "c".to_string(),
        name: "C".to_string(),
        experts: ids.iter().map(|i| mock_expert(i)).collect(),
        critique_rounds,
        rounds: 2,
        max_response_words: 300,
    }
}

#[test]
fn test_parse_file_edits() {
    let sample_text = "Some intro text.\n<write_file path=\"src/foo.rs\">\nfn foo() {}\n</write_file>\nOther text.\n<write_file path=\"tests/bar.rs\">\n#[test]\nfn bar() {}\n</write_file>\nTrailing text.";
    let edits = parse_file_edits(sample_text);
    assert_eq!(edits.len(), 2);
    assert_eq!(edits[0].path, "src/foo.rs");
    assert_eq!(edits[0].content, "\nfn foo() {}\n");
    assert_eq!(edits[1].path, "tests/bar.rs");
    assert_eq!(edits[1].content, "\n#[test]\nfn bar() {}\n");
}

#[test]
fn test_parse_file_edits_ignores_unclosed_tag() {
    let text = "<write_file path=\"src/ok.rs\">\ndone\n</write_file>\n<write_file path=\"src/truncated.rs\">\nfn incomplete(";
    let edits = parse_file_edits(text);
    assert_eq!(edits.len(), 1);
    assert_eq!(edits[0].path, "src/ok.rs");
}

#[test]
fn parse_file_edits_handles_non_ascii_and_missing_path_end() {
    let text = "é<write_file path=\"ü/ñ.rs\">日本</write_file><write_file path=\"x";
    let edits = parse_file_edits(text);
    assert_eq!(edits.len(), 1);
    assert_eq!(edits[0].path, "ü/ñ.rs");
    assert_eq!(edits[0].content, "日本");
    assert!(parse_file_edits("no blocks here").is_empty());
}

#[test]
fn parse_file_edits_reads_back_what_was_rendered() {
    let blocks = [("a.rs", "fn a() {}"), ("dir/b.txt", "<html>\"quoted\"</html>"), ("c", "")];
    let mut text = String::new();
    for (p, c) in blocks.iter() {
        text.push_str(&format!("<write_file path=\"{}\">{}</write_file>", p, c));
    }
    let edits = parse_file_edits(&text);
    assert_eq!(edits.len(), blocks.len());
    for (e, (p, c)) in edits.iter().zip(blocks.iter()) {
        assert_eq!(e.path, *p);
        assert_eq!(e.content, *c);
    }
}

#[test]
fn parse_file_edits_reads_back_blocks_between_other_text() {
    let blocks = [("a.rs", "fn a() {}"), ("dir/b.txt", "</write_file"), ("c", "")];
    let gaps = ["Here you go:\n", "\n\">then <write_file\n", "", "\nDone. </write_file>"];
    let mut text = String::new();
    for (g, (p, c)) in gaps.iter().zip(blocks.iter()) {
        text.push_str(g);
        text.push_str(&format!("<write_file path=\"{}\">{}</write_file>", p, c));
    }
    text.push_str(gaps[3]);
    let edits = parse_file_edits(&text);
    assert_eq!(edits.len(), blocks.len());
    for (e, (p, c)) in edits.iter().zip(blocks.iter()) {
        assert_eq!(e.path, *p);
        assert_eq!(e.content, *c);
    }
}

#[test]
fn workspace_parts_reject_escapes() {
    assert_eq!(workspace_parts("src/new_file.rs"), Some(vec!["src".to_string(), "new_file.rs".to_string()]));
    assert_eq!(workspace_parts("./src/other.rs"), Some(vec!["src".to_string(), "other.rs".to_string()]));
    assert_eq!(workspace_parts("a//b/./c"), Some(vec!["a".to_string(), "b".to_string(), "c".to_string()]));
    assert_eq!(workspace_parts("../escaped.rs"), None);
    assert_eq!(workspace_parts("src/../../escaped.rs"), None);
    assert_eq!(workspace_parts("/etc/passwd"), None);
    assert_eq!(workspace_parts("/Users/someone/.zshenv"), None);
    assert_eq!(workspace_parts("src/.."), None);
    assert_eq!(workspace_parts("...hidden"), Some(vec!["...hidden".to_string()]));
    assert_eq!(workspace_parts(""), Some(vec![]));
}

#[test]
fn refused_write_warning_names_the_path() {
    assert_eq!(
        refused_write_warning("../x"),
        "Refused to write '../x': path resolves outside the workspace directory."
    );
}

#[test]
fn round_edit_log_reports_overwrites() {
    let mut log = RoundEditLog::new();
    let w1 = log.record_writes("expert-1", &vec!["a.rs".to_string(), "b.rs".to_string()]);
    assert!(w1.is_empty());
    let w2 = log.record_writes("expert-2", &vec!["b.rs".to_string(), "c.rs".to_string()]);
    assert_eq!(
        w2,
        vec!["'b.rs' was written by [expert-1] and then overwritten by [expert-2]; only the later version was built.".to_string()]
    );
    let w3 = log.record_writes("expert-3", &vec!["b.rs".to_string()]);
    assert_eq!(
        w3,
        vec!["'b.rs' was written by [expert-2] and then overwritten by [expert-3]; only the later version was built.".to_string()]
    );
    assert_eq!(log.writes.len(), 5);
}

#[test]
fn coding_texts() {
    assert!(coding_system_prompt("be careful").starts_with("be careful\n\nIMPORTANT: You are in Coding Agent Mode."));
    assert_eq!(critique_label("expert-1"), "expert-1_critique");
    assert!(should_build("/tmp/ws", "cargo test"));
    assert!(!should_build("/tmp/ws", "   "));
    assert!(!should_build("  ", "make"));
    let drafts = vec![("e1".to_string(), "d1".to_string()), ("e2".to_string(), "d2".to_string())];
    assert_eq!(coding_report(false, &drafts), "Build success: false\n\n- Expert [e1]:\nd1\n\n- Expert [e2]:\nd2");
    let p = repair_prompt("fix it", &drafts, "e1", "error[E0308]");
    assert!(p.starts_with("You are an expert panelist in coding agent mode. Here is the original user query: \"fix it\""));
    assert!(p.contains("- Expert [e2]:\nd2"));
    assert!(!p.contains("- Expert [e1]"));
    assert!(p.contains("build/compiler log output:\nerror[E0308]"));
}

#[test]
fn coding_flow_cancelled_before_edits_writes_nothing() {
    let c = council(&["e1", "e2"], 1);
    let mut flow = CodingFlow::start("q", "/ws", "make", &c);
    match flow.drafts_finished(vec![("e1".to_string(), "d".to_string())], true) {
        CodingStep::Finished { warning, result } => {
            assert_eq!(warning.as_deref(), Some("Cancelled before applying edits — the workspace was not modified."));
            assert_eq!(result, "Cancelled before any file was written.");
        }
        _ => panic!("a cancelled run must not apply edits"),
    }
    assert_eq!(flow.phase, CodingPhase::Done);
}

#[test]
fn coding_flow_repairs_a_failed_build_once() {
    let c = council(&["e1", "e2"], 1);
    let mut flow = CodingFlow::start("q", "/ws", "make", &c);
    let drafts = vec![("e1".to_string(), "d1".to_string()), ("e2".to_string(), "d2".to_string())];
    match flow.drafts_finished(drafts, false) {
        CodingStep::ApplyEdits { drafts, run_build } => {
            assert_eq!(drafts.len(), 2);
            assert!(run_build);
        }
        _ => panic!("expected edits"),
    }
    let prompts = match flow.edits_applied(Some((false, "boom".to_string())), false) {
        CodingStep::RunRepair { prompts } => prompts,
        _ => panic!("a failed build gets a repair round"),
    };
    assert_eq!(prompts.len(), 2);
    assert!(prompts[0].contains("- Expert [e2]:\nd2") && prompts[0].contains("boom"));
    match flow.repair_finished(vec![("e2".to_string(), "fixed".to_string())], false) {
        CodingStep::ApplyEdits { drafts, .. } => assert_eq!(drafts, vec![("e2".to_string(), "fixed".to_string())]),
        _ => panic!("repaired drafts are applied"),
    }
    match flow.edits_applied(Some((true, "ok".to_string())), false) {
        CodingStep::Finished { warning, result } => {
            assert!(warning.is_none());
            assert_eq!(result, "Build success: true\n\n- Expert [e2]:\nfixed");
        }
        _ => panic!("the second build ends the run"),
    }
}

#[test]
fn coding_flow_without_repair_rounds_reports_the_failure() {
    let c = council(&["e1"], 0);
    let mut flow = CodingFlow::start("q", "/ws", "make", &c);
    let _ = flow.drafts_finished(vec![("e1".to_string(), "d1".to_string())], false);
    match flow.edits_applied(Some((false, "boom".to_string())), false) {
        CodingStep::Finished { result, .. } => assert_eq!(result, "Build success: false\n\n- Expert [e1]:\nd1"),
        _ => panic!("no repair round when the council allows none"),
    }
}

#[test]
fn coding_flow_without_build_command_reports_success() {
    let c = council(&["e1"], 1);
    let mut flow = CodingFlow::start("q", "/ws", "", &c);
    match flow.drafts_finished(vec![("e1".to_string(), "d1".to_string())], false) {
        CodingStep::ApplyEdits { run_build, .. } => assert!(!run_build),
        _ => panic!("expected edits"),
    }
    match flow.edits_applied(None, false) {
        CodingStep::Finished { result, .. } => assert!(result.starts_with("Build success: true")),
        _ => panic!("nothing to repair"),
    }
}

#[test]
fn coding_flow_keeps_first_drafts_when_no_repair_arrives() {
    let c = council(&["e1"], 1);
    let mut flow = CodingFlow::start("q", "/ws", "make", &c);
    let _ = flow.drafts_finished(vec![("e1".to_string(), "d1".to_string())], false);
    let _ = flow.edits_applied(Some((false, "boom".to_string())), false);
    match flow.repair_finished(vec![], false) {
        CodingStep::Finished { result, .. } => assert_eq!(result, "Build success: false\n\n- Expert [e1]:\nd1"),
        _ => panic!("an empty repair round ends the run"),
    }
}
