//! Verified core of the council-of-experts orchestration library.
pub mod model;
pub mod text;
pub mod history;
pub mod sse;
pub mod providers;
pub mod council;
pub mod coding;
pub mod cancel;
pub mod mock;
pub mod listing;
pub mod ffi;

pub use crate::cancel::{clear_cancel, is_cancelled, request_cancel, CancelSignal};
pub use crate::coding::{parse_file_edits, CodingFlow, CodingStep, RoundEditLog};
pub use crate::council::{CouncilFlow, CouncilStep, RoundMeta};
pub use crate::history::{normalize_history, role_to_string};
pub use crate::model::{
    Attachment, CodingCallback, Council, CouncilCallback, Expert, FileEdit, Message, MockProvider,
    PanelError, ProviderConfig, ProviderType, Role, StreamCallback,
};
pub use crate::ffi::{verify_ffi_bridge, FfiMessage, FfiProviderType, FfiRole};
pub use crate::sse::drain_lines;
