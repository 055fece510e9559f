//! A proxy that routes the chat requests of LLM command-line tools to
//! configured upstream providers, translating between Anthropic's and
//! OpenAI's formats, and that accounts for the tokens and cost of each
//! request.
//!
//! This crate holds the proxy's decisions and data transformations, each
//! with its contract: routing, request and reply translation, the values
//! logged for each request, cost accounting and configuration handling.
//! The network, the database and the command line stay with the program
//! that uses it.

pub mod config;
pub mod cost;
pub mod json;
pub mod logging;
pub mod provider;
pub mod router;
pub mod server;
pub mod text;
