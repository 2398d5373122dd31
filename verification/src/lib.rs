use vstd::prelude::*;

pub mod client;
pub mod commands;
pub mod json;
pub mod text;
pub mod watchlist;

verus! {
}
