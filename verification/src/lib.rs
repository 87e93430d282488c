//! Field-level entitlement filtering for gateway responses.

pub mod cache;
pub mod catalog;
pub mod cdgc;
pub mod claims;
pub mod config;
pub mod entitlement;
pub mod json;
pub mod laws;
pub mod laws_catalog;
pub mod laws_flow;
pub mod laws_message;
pub mod laws_payload;
pub mod laws_text;
pub mod names;
pub mod records;
pub mod refresh;
pub mod request;
pub mod response;
pub mod text;
pub mod wire;
