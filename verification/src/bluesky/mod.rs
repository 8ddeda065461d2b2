//! AT Protocol identities, record URIs and record contents.
pub mod did;
pub mod uri;
pub mod records;
pub mod provider;
pub mod fetch;
pub mod mst;
