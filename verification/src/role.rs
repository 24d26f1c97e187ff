//! Role selection: a remote address on the command line makes the process a
//! subscriber to it; no address makes it the publisher.

use vstd::prelude::*;

verus! {

/// What a process instance does.
pub enum Role {
    /// Bind the port and broadcast operator input.
    Publisher,
    /// Connect to `address` and report what arrives.
    Subscriber { address: String },
}

/// Chooses the role from the optional remote address.
pub fn select_role(address: Option<String>) -> (r: Role)
    ensures
        address is None ==> r is Publisher,
        address matches Some(a) ==> (r matches Role::Subscriber { address: chosen } && chosen@
            == a@),
{
    match address {
        None => Role::Publisher,
        Some(a) => Role::Subscriber { address: a },
    }
}

} // verus!
