//! Core of a conversational chat relay: bounded per-identity conversation
//! memory, prompt construction, a delivery planner that chunks and routes
//! replies under protocol size limits, a pacer, and the session supervisor
//! state machine that keeps the relay alive across transient failures.
mod completion;
mod events;
mod planner;
mod prompt;
mod store;
mod supervisor;
mod text;

pub use completion::{
    MAX_COMPLETION_TOKENS, candidate_content, fallback_reply, fallback_text, settle_completion,
};
pub use events::{
    Dispatch, InboundMessage, address_prefix, classify, classify_model, disallowed_sentinel,
    fallback_identity, identity_model,
};
pub use planner::{
    Strategy, MAX_LINES, chunks_to, delivery_strategy, lemma_chunks_to_safe,
    lemma_plan_protocol_safe, notice_for, notice_text, plan_delivery, plan_model, strategy_of,
};
pub use prompt::{PromptError, build, directive, directive_for, lemma_prompt_shape, prompt_model};
pub use store::{
    ConversationStore, Role, Turn, TurnView, MAX_MEMORY, evict_oldest, fold_records,
    lemma_bounded_recent, record_model,
};
pub use supervisor::{
    Pacer, RelayError, SessionEvent, SupervisorAction, SupervisorState, BACKOFF_UNITS,
    PACE_DELAY_NANOS, fatal_model, lemma_stream_failure_recovers, step_model, supervisor_step,
};
pub use text::{
    chunk_line, chunk_split, lemma_chunks_preserve_content, line_split, split_lines, str_eq,
    CHUNK_LIMIT,
};
