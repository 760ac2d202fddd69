use vstd::prelude::*;

pub mod checkpoint;
pub mod cluster;
pub mod embed;
pub mod error;
pub mod ingest;
pub mod search;
pub mod sites;
pub mod store;
pub mod strmap;
pub mod text;
pub mod web;

verus! {

} // verus!
