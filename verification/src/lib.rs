//! A multi-tenant data backend: a versioned document store and a chunked
//! asset store, both guarded by per-collection permission rules, and the
//! delivery of stored assets over repeated calls.
//!
//! [`api`] holds the entry points over the whole state. Behind them stand
//! the rules of the collections ([`rules`]) and the decision that gates
//! every access ([`auth`]), the document store ([`db`]), the asset store
//! with its upload pipeline ([`storage`]), and the delivery ([`http`]).
//! [`laws`] states what holds of them in every state.

pub mod api;
pub mod auth;
pub mod config;
pub mod controllers;
pub mod db;
pub mod error;
pub mod hash;
pub mod http;
pub mod laws;
pub mod list;
pub mod principal;
pub mod records;
pub mod rules;
pub mod storage;
pub mod table;
pub mod upgrade;
