pub mod assembler;
pub mod auth;
pub mod classifier;
pub mod commands;
pub mod encoding;
pub mod helper_models;
pub mod layout;
pub mod locator;
pub mod mailbox;
pub mod models;
pub mod nesting;
pub mod outgoing;
pub mod rendering;
pub mod structure;
pub mod text;
pub mod walker;
