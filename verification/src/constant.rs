//! The tokens that stand for transaction types and statuses in text.

use vstd::prelude::*;

verus! {

pub const DEPOSIT: &'static str = "DEPOSIT";

pub const TRANSFER: &'static str = "TRANSFER";

pub const WITHDRAWAL: &'static str = "WITHDRAWAL";

pub const SUCCESS: &'static str = "SUCCESS";

pub const FAILURE: &'static str = "FAILURE";

pub const PENDING: &'static str = "PENDING";

} // verus!
