//! An OpenAI-compatible gateway in front of the Codex CLI.
//!
//! The library holds what the gateway decides: which requests it takes and what it hands to Codex
//! ([`request`], [`transcript`], [`config`]), how it talks to its children ([`protocol`],
//! [`worker`], [`exec_backend`]), what clients get back ([`exchange`], [`completion`], [`stream`],
//! [`error`]), whether the credentials work ([`auth`]), and how a process tree is taken down
//! ([`process`]). Sockets, processes, clocks and files are left to its users, who hand it what they
//! found and do what it says.
pub mod auth;
pub mod base64;
pub mod completion;
pub mod config;
pub mod error;
pub mod exchange;
pub mod exec_backend;
pub mod identity;
pub mod json;
pub mod laws;
pub mod process;
pub mod protocol;
pub mod request;
pub mod stream;
pub mod text;
pub mod transcript;
pub mod worker;

pub use auth::{AuthEvidence, AuthFailure, AuthReport, AuthTracker};
pub use config::{resolve_model, Config, SUPPORTED_MODELS};
pub use error::{GatewayError, Reply};
pub use protocol::{CodexEvent, CodexRequest};
pub use request::{ChatRequest, Input, ResponseRequest};
pub use transcript::{
    serialize_input, CodexInput, Content, ContentPart, ImageDetail, ImageUrl, Message,
};
