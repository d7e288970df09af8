pub mod args;
pub mod bridge;
pub mod collection;
pub mod crypto;
pub mod data_model;
pub mod email;
pub mod hooks;
pub mod itm;
pub mod item;
pub mod login;
pub mod maintenance;
pub mod security;
pub mod setting;
pub mod store;
pub mod user_control;

use vstd::prelude::*;

verus! {

/// The sentinel ID: a record carrying this ID has not been assigned one yet.
pub fn unset_id() -> (r: u64)
    ensures
        r == u64::MAX,
{
    u64::MAX
}

} // verus!
