//! Transaction types: the closed set of operations the ledger can apply.

use vstd::prelude::*;

verus! {

/// An opaque 32-bit account identifier.
pub type Address = u32;

/// An unsigned 64-bit account balance; never negative, subtraction is
/// guarded by a pre-check rather than wraparound.
pub type Balance = u64;

/// An unsigned 32-bit resource cost attached to each transaction and to a
/// block's total capacity.
pub type Gas = u32;

/// Gas charged for a mint transaction.
pub const TX_MINT_GAS: Gas = 2;

/// Gas charged for a transfer transaction.
pub const TX_TRANSFER_GAS: Gas = 2;

/// Creates `amount` new units out of nothing, credited to `to`.
#[derive(Debug, Clone, Copy, PartialEq, Eq, Structural)]
pub struct Mint {
    pub to: Address,
    pub amount: Balance,
    pub gas: Gas,
}

/// Moves `amount` units from `from` to `to`.
#[derive(Debug, Clone, Copy, PartialEq, Eq, Structural)]
pub struct Transfer {
    pub from: Address,
    pub to: Address,
    pub amount: Balance,
    pub gas: Gas,
}

/// A ledger transaction: either a mint or a transfer.
#[derive(Debug, Clone, Copy, PartialEq, Eq, Structural)]
pub enum Transaction {
    Mint(Mint),
    Transfer(Transfer),
}

impl Transaction {
    /// The gas this transaction charges against a block's budget.
    pub open spec fn spec_gas(self) -> Gas {
        match self {
            Transaction::Mint(m) => m.gas,
            Transaction::Transfer(t) => t.gas,
        }
    }

    /// Returns the gas cost of the transaction, whichever variant it is.
    pub fn gas(&self) -> (g: Gas)
        ensures
            g == self.spec_gas(),
    {
        match self {
            Transaction::Mint(m) => m.gas,
            Transaction::Transfer(t) => t.gas,
        }
    }
}

} // verus!
