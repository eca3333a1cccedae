//! Login sessions and per-guild script configuration for a guild scripting bot.
//!
//! The library holds the decision logic of an OAuth2 authorization-code login
//! (one-time CSRF tokens, session issuance and teardown) and an in-memory store
//! of guild configuration (scripts, their links to contexts, guild metadata and
//! joined guilds). Network and HTTP work is left to the caller.
pub mod auth;
pub mod config;
pub mod csrf;
pub mod session;
