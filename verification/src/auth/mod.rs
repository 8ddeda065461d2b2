//! Accounts, credentials, OAuth exchange data and the decisions of the login flow.
pub mod credentials;
pub mod login_flow;
pub mod oauth;
pub mod types;
pub mod manager;
pub mod atproto;
pub mod storage;
