//! Verified state machines for the Tycoon game contracts: the fungible
//! TYC token, the semi-fungible collectibles with their shop and perks,
//! the reward-voucher ledger and the boost system.
//!
//! Every contract is modelled as a plain value whose operations take the
//! authenticated caller and the current ledger sequence as arguments, so the
//! rules (who may do what, which checks fire first, what each operation
//! changes) are proved here, while signature checking and persistent storage
//! stay with the host.
use vstd::prelude::*;

pub mod assoc;
pub mod ledger;
pub mod token;
pub mod boost;
pub mod collectibles;
pub mod reward;

verus! {

/// An account or contract address.
pub type Address = u64;

} // verus!
