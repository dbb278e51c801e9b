//! The records the foreign-function bridge exchanges with the host
//! application, and the bridge's self-check.
use vstd::prelude::*;
use vstd::string::*;

verus! {

/// Provider families as the foreign-function bridge names them.
#[derive(Debug, Clone, Copy, PartialEq, Eq, Structural)]
pub enum FfiProviderType {
    OpenAi,
    Anthropic,
    Gemini,
    Grok,
    LocalOpenAiCompatible,
}

/// Message roles as the foreign-function bridge names them.
#[derive(Debug)]
pub enum FfiRole {
    User,
    Assistant,
    System,
    ExpertDraft { expert_id: String },
    ExpertCritique { expert_id: String },
}

/// A session-log entry as the foreign-function bridge carries it.
#[derive(Debug)]
pub struct FfiMessage {
    pub id: String,
    pub role: FfiRole,
    pub content: String,
    pub timestamp: u64,
}

/// The answer of the bridge's self-check, which the host calls to confirm
/// that the library is linked and callable.
pub fn verify_ffi_bridge() -> (res: String)
    ensures
        res@ == "FFI Bridge Verified successfully!"@,
{
    String::from_str("FFI Bridge Verified successfully!")
}

} // verus!
