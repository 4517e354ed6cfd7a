//! Verified core of the shiro script-writing daemon: text handling, book
//! chunking, material probing, evidence packs, quote verification, model
//! profiles, chat proposals and the deconstruction task state machine.

pub mod text;
pub mod chunk;
pub mod probe;
pub mod evidence;
pub mod verify;
pub mod paths;
pub mod error;
pub mod llm;
pub mod chat;
pub mod engine;
pub mod models;
pub mod excerpt;
pub mod assets;
pub mod projects;
pub mod prompts;
pub mod pipeline;
pub mod logs;
pub mod watch;
pub mod tree;
pub mod order;
