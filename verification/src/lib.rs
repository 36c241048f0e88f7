use vstd::prelude::*;

pub mod errors;
pub mod text;
pub mod logx;
pub mod lang;
pub mod scalar;
pub mod config;
pub mod builtins;
pub mod mcp;
pub mod json;
pub mod blocks;
pub mod field;
pub mod decode;
pub mod version;
pub mod ctx;
pub mod dispatch;
pub mod cli;
pub mod overview;
pub mod command;
pub mod rename;
pub mod registry;
pub mod schema;
pub mod validate;
pub mod httpapi;
pub mod openapi;

verus! {

} // verus!
