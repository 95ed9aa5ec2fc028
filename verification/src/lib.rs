//! Moss: the verified core of a local-first agent runtime — the artifact
//! scanner, the gap board and its scheduling decisions, prompt and reply text
//! handling, and provider configuration.
pub mod cli;
pub mod moss;
pub mod providers;
pub mod text;
