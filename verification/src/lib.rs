//! Server-driven model config and login tokens of an agent.
//!
//! [`fetch`] turns the server's answer into overrides, [`flatten`] writes a TOML document as
//! dotted entries, [`unflatten`] builds a document from such entries, and [`layers`] puts the
//! overrides among the other layers of a config.
//! [`jwt`] opens a token, [`token_data`] reads the claims in it, and [`success_page`] says where
//! a login ends.
pub mod entries;
pub mod error;
pub mod fetch;
pub mod flatten;
pub mod json;
pub mod jwt;
pub mod layers;
pub mod success_page;
pub mod text;
pub mod token_data;
pub mod toml_value;
pub mod unflatten;
pub mod urls;
