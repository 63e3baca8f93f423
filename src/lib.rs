use vstd::prelude::*;

pub mod bytes;
pub mod store;
pub mod models;
pub mod keys;
pub mod error;
pub mod state;
pub mod msg;
pub mod contract;
pub mod laws;
pub mod paging;
pub mod watcher;
pub mod lockup;

verus! {

} // verus!
