//! chukei-core: the verified decision logic behind a transparent Snowflake
//! query proxy that caches, routes, rewrites, suspends and attributes.
use vstd::prelude::*;

pub mod attribute;
pub mod cache;
pub mod circuit_breaker;
pub mod config;
pub mod doctor;
pub mod error;
pub mod evidence;
pub mod keyed;
pub mod overrides;
pub mod payload;
pub mod plugin;
pub mod pricing;
pub mod projection;
pub mod replay;
pub mod rewrite;
pub mod router;
pub mod savings;
pub mod service;
pub mod sql;
pub mod suspend;
pub mod text;
pub mod text_map;
pub mod wire;

pub use error::{Error, Result};

verus! {

} // verus!
