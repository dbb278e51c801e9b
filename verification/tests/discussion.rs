use council_core::coding::repair_prompt;
use council_core::council::{collect_round, reaction_prompt, CouncilFlow, CouncilStep, RoundRequest};
use council_core::model::{Council, Expert, MockProvider, PanelError, ProviderConfig, ProviderType};
use council_core::providers::{provider_kind, ProviderKind};
use council_core::sse::StreamEvent;

#[derive(Default)]
struct Tally {
    started_experts: Vec<String>,
    completed_experts: Vec<String>,
    started_critiques: Vec<String>,
    completed_critiques: Vec<String>,
    chunks: Vec<String>,
    finals: Vec<u32>,
}

fn mock_config() -> ProviderConfig {
    ProviderConfig {
        name: "Mock Provider".to_string(),
        provider_type: ProviderType::Mock,
        model_name: "mock-model".to_string(),
        base_url: None,
        api_key: None,
        enable_thinking: false,
    }
}

fn two_expert_council(rounds: u32, critique_rounds: u32) -> Council {
    Council {
        id: "test-council".to_string(),
        name: "Test Council".to_string(),
        experts: vec![
            Expert {
                id: "expert-1".to_string(),
                name: "Expert 1".to_string(),
                config: mock_config(),
                system_prompt: "you are expert 1".to_string(),
            },
            Expert {
                id: "expert-2".to_string(),
                name: "Expert 2".to_string(),
                config: mock_config(),
                system_prompt: "you are expert 2".to_string(),
            },
        ],
        critique_rounds,
        rounds,
        max_response_words: 300,
    }
}

/// Drives a discussion with the mock provider, as the host does.
fn run(prompt: &str, council: &Council, tally: &mut Tally) -> Result<String, PanelError> {
    let mock = MockProvider::new();
    let (mut flow, first) = CouncilFlow::start(prompt, council);
    let mut req: RoundRequest = first;
    loop {
        let mut outcomes = Vec::new();
        for (expert, p) in council.experts.iter().zip(req.prompts.iter()) {
            if req.meta.is_opening {
                tally.started_experts.push(expert.id.clone());
            } else {
                tally.started_critiques.push(expert.id.clone());
            }
            let mut text = String::new();
            for ev in mock.stream_events(p, expert) {
                if let StreamEvent::Chunk(c) = ev {
                    tally.chunks.push(c.clone());
                    text.push_str(&c);
                }
            }
            if req.meta.is_opening {
                tally.completed_experts.push(expert.id.clone());
            } else {
                tally.completed_critiques.push(expert.id.clone());
                if req.meta.is_final {
                    tally.finals.push(req.meta.round_number);
                }
            }
            outcomes.push((expert.id.clone(), Some(text)));
        }
        match flow.round_finished(collect_round(outcomes), false) {
            CouncilStep::RunRound(next) => req = next,
            CouncilStep::Finished(res) => return res,
        }
    }
}

#[test]
fn test_run_council_flow() {
    let council = two_expert_council(2, 1);
    let mut t = Tally::default();
    let result = run("hello", &council, &mut t);
    assert!(result.is_ok());
    assert_eq!(t.started_experts.len(), 2);
    assert_eq!(t.completed_experts.len(), 2);
    assert_eq!(t.started_critiques.len(), 2);
    assert_eq!(t.completed_critiques.len(), 2);
    assert!(t.started_experts.contains(&"expert-1".to_string()));
    assert!(t.started_critiques.contains(&"expert-2".to_string()));
}

#[test]
fn test_run_council_flow_with_prior_turn_history() {
    let council = two_expert_council(3, 0);
    let mut t = Tally::default();
    let result = run("second turn question", &council, &mut t);
    assert!(result.is_ok());
    assert_eq!(t.completed_experts.len(), 2);
    assert_eq!(t.completed_critiques.len(), 4);
    assert_eq!(t.chunks.iter().filter(|c| c.contains("critique and revised draft")).count(), 4);
}

#[test]
fn test_run_council_flow_errors_when_no_expert_responds() {
    let mut council = two_expert_council(3, 0);
    council.experts.clear();
    let mut t = Tally::default();
    let result = run("hello", &council, &mut t);
    assert!(result.is_err(), "a silent success would bill the user for an empty discussion");
    assert!(t.started_critiques.is_empty(), "later rounds must not run");
}

#[test]
fn discussion_runs_at_least_two_rounds_and_marks_only_the_last_final() {
    for rounds in [0u32, 1, 2, 5] {
        let council = two_expert_council(rounds, 0);
        let mut t = Tally::default();
        let result = run("q", &council, &mut t).unwrap();
        let total = rounds.max(2);
        assert_eq!(t.completed_critiques.len() as u32, 2 * (total - 1));
        assert_eq!(t.finals, vec![total, total]);
        assert_eq!(
            result,
            "- Expert [expert-1]:\nMock critique and revised draft from Expert 1\n\n- Expert [expert-2]:\nMock critique and revised draft from Expert 2"
        );
    }
}

#[test]
fn opening_and_reaction_prompts_have_the_documented_shape() {
    let council = two_expert_council(3, 0);
    let (mut flow, first) = CouncilFlow::start("What is 2+2?", &council);
    assert_eq!(first.prompts.len(), 2);
    assert_eq!(
        first.prompts[0],
        "Keep your response succinct and focused — no more than approximately 300 words. Do not end your response with a question unless a clarifying question is truly necessary to proceed.\n\nThis is a 3-round panel discussion. Give your OPENING STATEMENT (round 1 of 3) responding to the user's query below. You have not seen any other panelist's answer yet — answer based on your own reasoning alone.\n\nUser query: \"What is 2+2?\""
    );
    let step = flow.round_finished(
        vec![("expert-1".to_string(), "four".to_string()), ("expert-2".to_string(), "4".to_string())],
        false,
    );
    let req = match step {
        CouncilStep::RunRound(r) => r,
        _ => panic!("round 2 follows"),
    };
    assert_eq!(req.meta.round_number, 2);
    assert!(!req.meta.is_final && !req.meta.is_opening);
    let p = &req.prompts[0];
    assert!(p.contains("This is round 2 of 3 of the panel discussion.\n\nYour own statement in the previous round:\nfour\n\nHere is what the other panelists said in the previous round:\n\n- Panelist [expert-2]:\n4\n\nUser query: \"What is 2+2?\""));
    assert!(!p.contains("- Panelist [expert-1]"));
}

#[test]
fn a_failed_later_round_keeps_the_previous_transcript_and_cancel_stops() {
    let council = two_expert_council(4, 0);
    let (mut flow, _) = CouncilFlow::start("q", &council);
    let _ = flow.round_finished(vec![("expert-1".to_string(), "a".to_string())], false);
    let step = flow.round_finished(vec![], false);
    let req = match step {
        CouncilStep::RunRound(r) => r,
        _ => panic!("an empty reaction round does not end the discussion"),
    };
    assert_eq!(req.meta.round_number, 3);
    assert!(req.prompts[1].contains("- Panelist [expert-1]:\na"));
    match flow.round_finished(vec![], true) {
        CouncilStep::Finished(Ok(t)) => assert_eq!(t, "- Expert [expert-1]:\na"),
        _ => panic!("cancel ends the discussion with the live transcript"),
    }
}

#[test]
fn test_get_provider_factory() {
    assert_eq!(provider_kind(&ProviderType::OpenAi), ProviderKind::OpenAiCompatible);
    assert_eq!(provider_kind(&ProviderType::Grok), ProviderKind::OpenAiCompatible);
    assert_eq!(provider_kind(&ProviderType::LocalOpenAiCompatible), ProviderKind::OpenAiCompatible);
    assert_eq!(provider_kind(&ProviderType::Anthropic), ProviderKind::Anthropic);
    assert_eq!(provider_kind(&ProviderType::Gemini), ProviderKind::Gemini);
    assert_eq!(provider_kind(&ProviderType::Mock), ProviderKind::Mock);
}

#[test]
fn mock_provider_answers_by_prompt_kind() {
    let mock = MockProvider::new();
    let mut e = two_expert_council(2, 0).experts.remove(0);
    assert_eq!(mock.reply(), "Mock response from expert");
    let ev = mock.stream_events("Other panel experts have generated the following", &e);
    assert!(matches!(&ev[..], [StreamEvent::Chunk(c)] if c == "Mock critique and revised draft from Expert 1"));
    e.config.enable_thinking = true;
    let ev = mock.stream_events("hello", &e);
    assert!(matches!(&ev[0], StreamEvent::Thinking(t) if t == "Mock reasoning trace from Expert 1..."));
    assert!(matches!(&ev[1], StreamEvent::Chunk(c) if c == "Mock initial draft from Expert 1"));
}

#[test]
fn mock_provider_critiques_every_reaction_and_repair_prompt() {
    let mock = MockProvider::new();
    let e = two_expert_council(2, 0).experts.remove(0);
    let prev = vec![("expert-1".to_string(), "a".to_string()), ("expert-2".to_string(), "b".to_string())];
    for is_final in [false, true] {
        let p = reaction_prompt("style", 2, 3, is_final, &prev, "expert-1", "q");
        let ev = mock.stream_events(&p, &e);
        assert!(matches!(&ev[..], [StreamEvent::Chunk(c)] if c == "Mock critique and revised draft from Expert 1"));
    }
    let p = repair_prompt("q", &prev, "expert-2", "error: build failed");
    let ev = mock.stream_events(&p, &e);
    assert!(matches!(&ev[..], [StreamEvent::Chunk(c)] if c == "Mock critique and revised draft from Expert 1"));
}
