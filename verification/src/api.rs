use vstd::prelude::*;
use crate::types::Address;

verus! {

/// Query parameters of the transactions endpoint: which address to
/// fetch the indexed transactions for.
#[derive(Clone, Debug)]
pub struct GetTransactions {
    pub address: Address,
}

} // verus!
