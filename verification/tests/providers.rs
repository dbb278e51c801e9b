use council_core::cancel::{clear_cancel, is_cancelled, request_cancel, CancelSignal};
use council_core::listing::model_ids;
use council_core::model::{Attachment, Expert, Message, PanelError, ProviderConfig, ProviderType, Role};
use council_core::providers::{
    anthropic_endpoint, anthropic_headers, anthropic_request, api_status_error, gemini_endpoint,
    gemini_headers, gemini_request, models_query, openai_endpoint, openai_headers, openai_request,
    reply_text, AnthropicContent, AnthropicPart, GeminiPart, ModelListFormat, ModelsQuery,
    OpenAiContent, OpenAiPart,
};

fn config(t: ProviderType, key: Option<&str>, base: Option<&str>) -> ProviderConfig {
    ProviderConfig {
        name: "p".to_string(),
        provider_type: t,
        model_name: "m-1".to_string(),
        base_url: base.map(|s| s.to_string()),
        api_key: key.map(|s| s.to_string()),
        enable_thinking: false,
    }
}

fn expert(t: ProviderType, thinking: bool) -> Expert {
    let mut c = config(t, Some("k"), None);
    c.enable_thinking = thinking;
    Expert { id: "e1".to_string(), name: "E".to_string(), config: c, system_prompt: "sys".to_string() }
}

fn msg(role: Role, content: &str) -> Message {
    Message { id: "id".to_string(), role, content: content.to_string(), timestamp: 0 }
}

fn attachments() -> Vec<Attachment> {
    vec![
        Attachment { file_path: "a.png".to_string(), mime_type: "image/png".to_string(), base64_data: "AAA".to_string() },
        Attachment { file_path: "b.txt".to_string(), mime_type: "text/plain".to_string(), base64_data: "BBB".to_string() },
    ]
}

fn pairs(h: Vec<council_core::providers::Header>) -> Vec<(String, String)> {
    h.into_iter().map(|x| (x.name, x.value)).collect()
}

#[test]
fn headers_carry_the_key_where_each_api_wants_it() {
    let h = openai_headers(&config(ProviderType::OpenAi, Some("sk-1"), None)).unwrap();
    assert_eq!(pairs(h), vec![
        ("Content-Type".to_string(), "application/json".to_string()),
        ("Authorization".to_string(), "Bearer sk-1".to_string()),
    ]);
    let h = openai_headers(&config(ProviderType::LocalOpenAiCompatible, None, None)).unwrap();
    assert_eq!(h.len(), 1);
    let h = anthropic_headers(&config(ProviderType::Anthropic, Some("ak"), None)).unwrap();
    assert_eq!(pairs(h)[1..], [
        ("anthropic-version".to_string(), "2023-06-01".to_string()),
        ("x-api-key".to_string(), "ak".to_string()),
    ]);
    let h = gemini_headers(&config(ProviderType::Gemini, Some("gk"), None)).unwrap();
    assert_eq!(pairs(h)[1], ("x-goog-api-key".to_string(), "gk".to_string()));
}

#[test]
fn a_key_that_cannot_be_a_header_is_a_config_error() {
    match openai_headers(&config(ProviderType::OpenAi, Some("bad\nkey"), None)) {
        Err(PanelError::ConfigError(m)) => assert_eq!(m, "failed to parse header value"),
        _ => panic!("a newline cannot stand in a header"),
    }
    assert!(anthropic_headers(&config(ProviderType::Anthropic, Some("a\u{7f}"), None)).is_err());
    assert!(gemini_headers(&config(ProviderType::Gemini, Some("tab\tis fine é"), None)).is_ok());
}

#[test]
fn endpoints() {
    assert_eq!(openai_endpoint(&config(ProviderType::OpenAi, None, None)), "https://api.openai.com/v1/chat/completions");
    assert_eq!(openai_endpoint(&config(ProviderType::Grok, None, None)), "https://api.x.ai/v1/chat/completions");
    assert_eq!(
        openai_endpoint(&config(ProviderType::LocalOpenAiCompatible, None, Some("http://localhost:11434/v1"))),
        "http://localhost:11434/v1/chat/completions"
    );
    assert_eq!(anthropic_endpoint(), "https://api.anthropic.com/v1/messages");
    assert_eq!(
        gemini_endpoint("gemini-2.5-pro", true),
        "https://generativelanguage.googleapis.com/v1beta/models/gemini-2.5-pro:streamGenerateContent?alt=sse"
    );
    assert_eq!(
        gemini_endpoint("g", false),
        "https://generativelanguage.googleapis.com/v1beta/models/g:generateContent"
    );
}

#[test]
fn openai_request_layout() {
    let history = vec![msg(Role::User, "q1"), msg(Role::ExpertDraft { expert_id: "x".to_string() }, "a1")];
    let r = openai_request("now", &attachments(), &history, &expert(ProviderType::OpenAi, false), true);
    assert_eq!(r.model, "m-1");
    assert!(r.stream);
    assert_eq!(r.messages.len(), 4);
    assert_eq!(r.messages[0].role, "system");
    assert!(matches!(&r.messages[0].content, OpenAiContent::Text(t) if t == "sys"));
    assert!(matches!(&r.messages[2].content, OpenAiContent::Text(t) if t == "[x]: a1"));
    match &r.messages[3].content {
        OpenAiContent::Parts(p) => {
            assert_eq!(p.len(), 2);
            assert!(matches!(&p[0], OpenAiPart::Text(t) if t == "now"));
            assert!(matches!(&p[1], OpenAiPart::ImageUrl(u) if u == "data:image/png;base64,AAA"));
        }
        _ => panic!("attachments make a multipart message"),
    }
    let r = openai_request("now", &vec![], &vec![], &expert(ProviderType::OpenAi, false), false);
    assert!(matches!(&r.messages[1].content, OpenAiContent::Text(t) if t == "now"));
}

#[test]
fn anthropic_request_layout() {
    let r = anthropic_request("now", &attachments(), &vec![msg(Role::User, "q")], &expert(ProviderType::Anthropic, true), false);
    assert_eq!(r.max_tokens, 8192);
    assert_eq!(r.thinking_budget, Some(4096));
    assert_eq!(r.system, "sys");
    assert_eq!(r.messages.len(), 2);
    match &r.messages[1].content {
        AnthropicContent::Parts(p) => {
            assert!(matches!(&p[1], AnthropicPart::Image { media_type, data } if media_type == "image/png" && data == "AAA"));
            assert_eq!(p.len(), 2);
        }
        _ => panic!("multipart"),
    }
    let r = anthropic_request("now", &vec![], &vec![], &expert(ProviderType::Anthropic, false), false);
    assert_eq!(r.max_tokens, 4096);
    assert_eq!(r.thinking_budget, None);
}

#[test]
fn gemini_request_names_the_assistant_model() {
    let history = vec![
        msg(Role::User, "q1"),
        msg(Role::ExpertCritique { expert_id: "x".to_string() }, "a1"),
        msg(Role::User, "q2"),
    ];
    let r = gemini_request("now", &attachments(), &history, &expert(ProviderType::Gemini, true));
    let roles: Vec<&str> = r.contents.iter().map(|c| c.role.as_str()).collect();
    assert_eq!(roles, vec!["user", "model", "user", "user"]);
    assert!(r.include_thoughts);
    assert_eq!(r.system_instruction, "sys");
    let last = &r.contents[3].parts;
    assert_eq!(last.len(), 2);
    assert!(matches!(&last[1], GeminiPart::InlineData { mime_type, data } if mime_type == "image/png" && data == "AAA"));
}

#[test]
fn model_queries_per_provider() {
    match models_query(&config(ProviderType::Mock, None, None)).unwrap() {
        ModelsQuery::Fixed(v) => assert_eq!(v, vec!["mock-model".to_string()]),
        _ => panic!("the mock lists one model"),
    }
    match models_query(&config(ProviderType::Anthropic, None, None)) {
        Err(PanelError::ConfigError(m)) => assert_eq!(m, "Missing API key"),
        _ => panic!("Anthropic needs a key"),
    }
    assert!(models_query(&config(ProviderType::Gemini, None, None)).is_err());
    match models_query(&config(ProviderType::LocalOpenAiCompatible, None, None)).unwrap() {
        ModelsQuery::Fetch { url, headers, format, error_context } => {
            assert_eq!(url, "http://localhost:11434/v1/models");
            assert!(headers.is_empty());
            assert_eq!(format, ModelListFormat::DataIds);
            assert_eq!(error_context, "Models list");
        }
        _ => panic!("fetch"),
    }
    match models_query(&config(ProviderType::Gemini, Some("gk"), None)).unwrap() {
        ModelsQuery::Fetch { url, format, .. } => {
            assert_eq!(url, "https://generativelanguage.googleapis.com/v1beta/models?pageSize=1000");
            assert_eq!(format, ModelListFormat::GeminiNames);
        }
        _ => panic!("fetch"),
    }
}

#[test]
fn model_ids_are_cleaned_and_sorted() {
    let names = vec![
        Some("models/gemini-pro".to_string()),
        None,
        Some("models/models/aqa".to_string()),
        Some("embedding".to_string()),
    ];
    assert_eq!(model_ids(names.clone(), ModelListFormat::GeminiNames), vec!["aqa", "embedding", "gemini-pro"]);
    assert_eq!(
        model_ids(names, ModelListFormat::DataIds),
        vec!["embedding", "models/gemini-pro", "models/models/aqa"]
    );
    let ids = vec![Some("b".to_string()), Some("B".to_string()), Some("ab".to_string()), Some("a".to_string()), Some("é".to_string())];
    let mut expected: Vec<String> = ids.iter().flatten().cloned().collect();
    expected.sort();
    assert_eq!(model_ids(ids, ModelListFormat::DataIds), expected);
}

#[test]
fn reply_errors() {
    match api_status_error("OpenAI response", "404 Not Found", "nope") {
        PanelError::ApiError(m) => assert_eq!(m, "OpenAI response status: 404 Not Found, body: nope"),
        _ => panic!(),
    }
    assert_eq!(reply_text("Gemini", Some("t".to_string())).unwrap(), "t");
    match reply_text("Gemini", None) {
        Err(PanelError::SerializationError(m)) => assert_eq!(m, "Failed to extract content from Gemini response"),
        _ => panic!(),
    }
}

#[test]
fn cancel_signal_round_trip() {
    let s = CancelSignal::new();
    assert!(!is_cancelled(&s));
    request_cancel(&s);
    assert!(is_cancelled(&s));
    clear_cancel(&s);
    assert!(!is_cancelled(&s));
}

#[test]
fn ffi_bridge_answers_its_self_check() {
    assert_eq!(council_core::verify_ffi_bridge(), "FFI Bridge Verified successfully!");
}
