use vstd::prelude::*;

pub mod bake;
pub mod bake_laws;
pub mod cli;
pub mod coerce;
pub mod dynamic;
pub mod error;
pub mod filter;
pub mod graphql;
pub mod handler;
pub mod helpers;
pub mod json;
pub mod listing;
pub mod mcp;
pub mod names;
pub mod oauth;
pub mod openapi;
pub mod refs;
pub mod secrets;
pub mod request;
pub mod session;
pub mod store;
pub mod strmap;
pub mod text;
pub mod types;
pub mod wire;
pub mod yaml;

verus! {

} // verus!
