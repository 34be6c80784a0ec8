//! Offline-verifiable software licenses, and the rules of the shop that sells them.
use vstd::prelude::*;

pub mod cache;
pub mod catalog;
pub mod cbor;
pub mod claims;
pub mod codec;
pub mod config;
pub mod content;
pub mod dates;
pub mod db;
pub mod encoding;
pub mod fulfill;
pub mod issue;
pub mod issuer;
pub mod keys;
pub mod mail;
pub mod paths;
pub mod payments;
pub mod provision;
pub mod routes;
pub mod state;
pub mod static_assets;
pub mod tables;
pub mod text;

verus! {

} // verus!
