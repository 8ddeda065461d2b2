//! Verified core of the autoreply Bluesky tooling.
#![allow(non_snake_case)]

pub mod text;
pub mod strings;
pub mod error;
pub mod bluesky;
pub mod search;
pub mod auth;
pub mod cli;
pub mod cache;
pub mod car;
pub mod http;
pub mod mcp;
