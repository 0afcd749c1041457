//! Token counting for a desktop client's requests, and session-to-provider bindings.
//!
//! A proxy stands between the client and several model providers. This library holds its
//! rules, on plain values: which requests only ask for a token count and how they are answered
//! ([`count_intercept`]), which providers cannot count tokens ([`unsupported`]), and which
//! provider serves a session ([`session_binding`]). What holds of them is stated and proved in
//! [`document_laws`], [`input_laws`], [`answer_laws`], [`table_laws`] and [`binding_laws`].

pub mod answer_laws;
pub mod binding_laws;
pub mod clock;
pub mod count_intercept;
pub mod document_laws;
pub mod encode;
pub mod input_laws;
pub mod json;
pub mod message_id;
pub mod model_input;
pub mod session_binding;
pub mod table_laws;
pub mod text;
pub mod tokens;
pub mod unsupported;
