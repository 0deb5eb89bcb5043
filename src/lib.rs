use vstd::prelude::*;

pub mod chat;
pub mod session;
pub mod ticket;

verus! {

/// The two ways of entering a chat room that a user may pick.
pub enum Selection {
    Create,
    Join,
}

} // verus!
