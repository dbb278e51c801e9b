//! The data the council works on: experts, messages, errors and configuration.
use vstd::prelude::*;
use vstd::string::*;

verus! {

/// Errors reported by the provider clients and the orchestrators.
#[derive(Debug)]
pub enum PanelError {
    ApiError(String),
    SerializationError(String),
    ConfigError(String),
    Unknown(String),
}

/// The human-readable text of an error.
pub open spec fn panel_error_text(e: PanelError) -> Seq<char> {
    match e {
        PanelError::ApiError(m) => "API request failed: "@ + m@,
        PanelError::SerializationError(m) => "Serialization failed: "@ + m@,
        PanelError::ConfigError(m) => "Configuration error: "@ + m@,
        PanelError::Unknown(m) => "Unknown error: "@ + m@,
    }
}

impl PanelError {
    /// The text shown to the user for this error.
    pub fn message(&self) -> (res: String)
        ensures
            res@ == panel_error_text(*self),
    {
        let (prefix, detail) = match self {
            PanelError::ApiError(m) => ("API request failed: ", m),
            PanelError::SerializationError(m) => ("Serialization failed: ", m),
            PanelError::ConfigError(m) => ("Configuration error: ", m),
            PanelError::Unknown(m) => ("Unknown error: ", m),
        };
        let mut s = String::from_str(prefix);
        s.append(detail.as_str());
        s
    }
}

/// The family of API an expert talks to.
#[derive(Debug, Clone, Copy, PartialEq, Eq, Structural)]
pub enum ProviderType {
    OpenAi,
    Anthropic,
    Gemini,
    Grok,
    LocalOpenAiCompatible,
    Mock,
}

/// How to reach one model. The sampling temperature is carried by the host
/// application, which adds it to Gemini requests; nothing here reads it.
#[derive(Debug, Clone)]
pub struct ProviderConfig {
    pub name: String,
    pub provider_type: ProviderType,
    pub model_name: String,
    pub base_url: Option<String>,
    pub api_key: Option<String>,
    pub enable_thinking: bool,
}

/// One panelist.
#[derive(Debug, Clone)]
pub struct Expert {
    pub id: String,
    pub name: String,
    pub config: ProviderConfig,
    pub system_prompt: String,
}

/// A file attached to the user's prompt, already base64-encoded.
#[derive(Debug, Clone)]
pub struct Attachment {
    pub file_path: String,
    pub mime_type: String,
    pub base64_data: String,
}

/// Who said a message in the session log.
#[derive(Debug, Clone)]
pub enum Role {
    User,
    Assistant,
    System,
    ExpertDraft { expert_id: String },
    ExpertCritique { expert_id: String },
}

/// One entry of the session log.
#[derive(Debug, Clone)]
pub struct Message {
    pub id: String,
    pub role: Role,
    pub content: String,
    pub timestamp: u64,
}

/// A panel of experts and how its discussions run.
#[derive(Debug, Clone)]
pub struct Council {
    pub id: String,
    pub name: String,
    pub experts: Vec<Expert>,
    /// Gates the build-failure repair round of the coding flow.
    pub critique_rounds: u32,
    /// Total discussion rounds; fewer than two count as two.
    pub rounds: u32,
    /// Soft word ceiling per answer; zero means the default.
    pub max_response_words: u32,
}

/// A file the model asked to write, with its full new content.
#[derive(Debug, Clone)]
pub struct FileEdit {
    pub path: String,
    pub content: String,
}

/// A provider that answers without any network traffic.
#[derive(Debug, Clone, Copy, Default)]
pub struct MockProvider;

impl MockProvider {
    /// A mock provider.
    pub fn new() -> (res: Self)
        ensures
            res == MockProvider,
    {
        MockProvider
    }
}

/// Receives the text of one streaming answer as it arrives.
pub trait StreamCallback: Send + Sync {
    fn on_chunk(&self, chunk: &str);

    /// Reasoning traces, sent only when the expert asked for thinking (by the
    /// Anthropic and Gemini clients, and by the mock provider); ignored unless
    /// the implementor cares.
    fn on_thinking_chunk(&self, chunk: &str) {
    }

    fn on_error(&self, error: &str);
}

/// Receives the progress of a panel discussion.
pub trait CouncilCallback: Send + Sync {
    fn on_expert_started(&self, expert_id: &str);

    fn on_expert_chunk(&self, expert_id: &str, chunk: &str);

    fn on_expert_thinking_chunk(&self, expert_id: &str, chunk: &str);

    fn on_expert_completed(&self, expert_id: &str, full_response: &str);

    fn on_expert_error(&self, expert_id: &str, error: &str);

    fn on_expert_critique_started(&self, expert_id: &str, round_number: u32, is_final_round: bool);

    fn on_expert_critique_chunk(&self, expert_id: &str, round_number: u32, chunk: &str);

    fn on_expert_critique_thinking_chunk(&self, expert_id: &str, round_number: u32, chunk: &str);

    fn on_expert_critique_completed(
        &self,
        expert_id: &str,
        round_number: u32,
        is_final_round: bool,
        full_critique: &str,
    );

    fn on_expert_critique_error(&self, expert_id: &str, round_number: u32, error: &str);
}

/// Receives the progress of a coding run.
pub trait CodingCallback: Send + Sync {
    fn on_expert_started(&self, expert_id: &str);

    fn on_expert_chunk(&self, expert_id: &str, chunk: &str);

    fn on_expert_completed(&self, expert_id: &str, full_response: &str);

    fn on_expert_error(&self, expert_id: &str, error: &str);

    fn on_file_write(&self, path: &str);

    /// A proposed edit that was refused or failed, and why.
    fn on_workspace_warning(&self, message: &str);

    fn on_build_started(&self, command: &str);

    fn on_build_completed(&self, success: bool, output: &str);
}

} // verus!
