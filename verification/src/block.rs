//! Block assembly: sequencing accepted transactions under a gas budget,
//! and the block's commitment digest.
//!
//! A block owns the ledger that results from its transactions. A genesis
//! block starts from an empty ledger; each successor starts from a copy of
//! its parent's final ledger with the transaction list and gas counter
//! reset. Transactions are attempted strictly in arrival order and only
//! accepted ones are recorded, so `gas_used` is always the gas sum of the
//! recorded transactions and never exceeds `gas_limit`.

use vstd::prelude::*;

use crate::codec::be32;
use crate::codec::be64;
use crate::codec::push_be32;
use crate::codec::push_be64;
use crate::codec::spec_serialize;
use crate::digest::fnv1a;
use crate::digest::fnv1a_from;
use crate::digest::FNV_OFFSET_BASIS;
use crate::ledger::apply_spec;
use crate::ledger::tx_fits;
use crate::ledger::tx_valid;
use crate::ledger::State;
use crate::tx::Address;
use crate::tx::Balance;
use crate::tx::Gas;
use crate::tx::Transaction;

verus! {

/// Why a block refused a transaction.
#[derive(Debug, Clone, Copy, PartialEq, Eq, Structural)]
pub enum ExecutionError {
    /// Accepting the transaction would push `gas_used` over `gas_limit`;
    /// nothing was changed and the caller should stop filling this block.
    GasLimitReached,
    /// The ledger rejected the transaction (unknown or underfunded
    /// sender); nothing was changed and later transactions may still fit.
    InvalidTransaction,
}

/// The gas sum of a transaction sequence.
pub open spec fn sum_gas(txs: Seq<Transaction>) -> int
    decreases txs.len(),
{
    if txs.len() == 0 {
        0
    } else {
        sum_gas(txs.drop_last()) + txs.last().spec_gas()
    }
}

/// The byte rendering of a transaction sequence: each transaction's wire
/// encoding, in order.
pub open spec fn txs_bytes(txs: Seq<Transaction>) -> Seq<u8>
    decreases txs.len(),
{
    if txs.len() == 0 {
        Seq::<u8>::empty()
    } else {
        txs_bytes(txs.drop_last()) + spec_serialize(txs.last())
    }
}

/// The byte rendering of a ledger model: each entry's address and balance,
/// big-endian, in address order.
pub open spec fn ledger_bytes(s: Seq<(Address, Balance)>) -> Seq<u8>
    decreases s.len(),
{
    if s.len() == 0 {
        Seq::<u8>::empty()
    } else {
        ledger_bytes(s.drop_last()) + be32(s.last().0) + be64(s.last().1)
    }
}

/// The byte rendering a block's digest is computed over: its number, its
/// transactions, its final ledger, and its gas use.
pub open spec fn block_bytes(
    number: u64,
    txs: Seq<Transaction>,
    ledger: Seq<(Address, Balance)>,
    gas_used: Gas,
) -> Seq<u8> {
    be64(number) + txs_bytes(txs) + ledger_bytes(ledger) + be32(gas_used)
}

/// The commitment digest of a block: a pure function of its number, its
/// transaction sequence, its ledger and its gas use, and of nothing else.
pub open spec fn spec_root(
    number: u64,
    txs: Seq<Transaction>,
    ledger: Seq<(Address, Balance)>,
    gas_used: Gas,
) -> u64 {
    fnv1a_from(FNV_OFFSET_BASIS, block_bytes(number, txs, ledger, gas_used))
}

/// An ordered batch of accepted transactions together with the resulting
/// ledger and the gas accounting.
#[derive(Debug, Clone)]
pub struct Block {
    /// Monotonic block height; genesis is 0.
    pub number: u64,
    /// The accepted transactions, in arrival order.
    pub transactions: Vec<Transaction>,
    /// The ledger after applying every accepted transaction.
    pub state: State,
    /// The gas sum of the accepted transactions.
    pub gas_used: Gas,
    /// The block's gas capacity.
    pub gas_limit: Gas,
}

impl Block {
    /// Well-formedness: the ledger is sorted, the gas counter is exactly
    /// the gas sum of the recorded transactions, and it never exceeds the
    /// limit.
    pub open spec fn wf(&self) -> bool {
        &&& self.state.wf()
        &&& self.gas_used <= self.gas_limit
        &&& self.gas_used as int == sum_gas(self.transactions@)
    }

    /// Whether the block's remaining gas budget admits `tx`.
    pub open spec fn gas_ok(&self, tx: Transaction) -> bool {
        self.gas_used + tx.spec_gas() <= self.gas_limit
    }

    /// True when `other` holds exactly the same assembly as `self`: same
    /// ledger contents, same transaction sequence, same gas counter.
    pub open spec fn same_assembly(&self, other: &Block) -> bool {
        &&& other.state@ == self.state@
        &&& other.transactions@ == self.transactions@
        &&& other.gas_used == self.gas_used
    }

    /// The genesis block: number 0, no transactions, an empty ledger, and
    /// a caller-chosen gas capacity.
    pub fn genesis(gas_limit: Gas) -> (b: Block)
        ensures
            b.wf(),
            b.number == 0,
            b.transactions@ == Seq::<Transaction>::empty(),
            b.state@ == Seq::<(Address, Balance)>::empty(),
            b.gas_used == 0,
            b.gas_limit == gas_limit,
    {
        Block {
            number: 0,
            transactions: Vec::new(),
            state: State::new(),
            gas_used: 0,
            gas_limit,
        }
    }

    /// The successor block: one number higher, the parent's final ledger
    /// copied over, the transaction list and gas counter reset, the gas
    /// capacity kept.
    pub fn next(&self) -> (b: Block)
        requires
            self.wf(),
            self.number < u64::MAX,
        ensures
            b.wf(),
            b.number == self.number + 1,
            b.transactions@ == Seq::<Transaction>::empty(),
            b.state@ == self.state@,
            b.gas_used == 0,
            b.gas_limit == self.gas_limit,
    {
        Block {
            number: self.number + 1,
            transactions: Vec::new(),
            state: self.state.snapshot(),
            gas_used: 0,
            gas_limit: self.gas_limit,
        }
    }

    /// Attempts `tx` against the block, strictly in arrival order.
    ///
    /// If the transaction's gas would push `gas_used` over `gas_limit` it
    /// is rejected with `GasLimitReached`; if the ledger finds it invalid
    /// it is rejected with `InvalidTransaction`; either rejection leaves
    /// the ledger, the transaction list and the gas counter exactly as
    /// they were. Otherwise the ledger is updated, the gas is charged and
    /// the transaction is recorded.
    pub fn try_apply_tx(&mut self, tx: &Transaction) -> (r: Result<(), ExecutionError>)
        requires
            old(self).wf(),
            old(self).gas_ok(*tx) ==> tx_fits(old(self).state@, *tx),
        ensures
            final(self).wf(),
            final(self).number == old(self).number,
            final(self).gas_limit == old(self).gas_limit,
            !old(self).gas_ok(*tx) ==> {
                &&& r == Err::<(), ExecutionError>(ExecutionError::GasLimitReached)
                &&& old(self).same_assembly(final(self))
            },
            old(self).gas_ok(*tx) && !tx_valid(old(self).state@, *tx) ==> {
                &&& r == Err::<(), ExecutionError>(ExecutionError::InvalidTransaction)
                &&& old(self).same_assembly(final(self))
            },
            old(self).gas_ok(*tx) && tx_valid(old(self).state@, *tx) ==> {
                &&& r == Ok::<(), ExecutionError>(())
                &&& final(self).state@ == apply_spec(old(self).state@, *tx)
                &&& final(self).transactions@ == old(self).transactions@.push(*tx)
                &&& final(self).gas_used == old(self).gas_used + tx.spec_gas()
            },
    {
        let g = tx.gas();
        if g > self.gas_limit - self.gas_used {
            return Err(ExecutionError::GasLimitReached);
        }
        if self.state.apply_tx(tx) {
            proof {
                assert(self.transactions@.push(*tx).drop_last() =~= self.transactions@);
            }
            self.gas_used = self.gas_used + g;
            self.transactions.push(*tx);
            Ok(())
        } else {
            Err(ExecutionError::InvalidTransaction)
        }
    }

    /// The block's commitment digest, derived from its number, its
    /// transactions, its final ledger and its gas use; two blocks with
    /// identical contents produce identical roots.
    pub fn root(&self) -> (h: u64)
        ensures
            h == spec_root(self.number, self.transactions@, self.state@, self.gas_used),
    {
        let mut buf: Vec<u8> = Vec::new();
        push_be64(&mut buf, self.number);
        let n = self.transactions.len();
        let mut i: usize = 0;
        while i < n
            invariant
                i <= n,
                n == self.transactions@.len(),
                buf@ == be64(self.number) + txs_bytes(self.transactions@.take(i as int)),
            decreases n - i,
        {
            let mut enc = self.transactions[i].serialize();
            buf.append(&mut enc);
            proof {
                let txs = self.transactions@;
                assert(txs.take(i + 1).drop_last() =~= txs.take(i as int));
                assert(txs.take(i + 1).last() == txs[i as int]);
            }
            i = i + 1;
        }
        proof {
            assert(self.transactions@.take(n as int) =~= self.transactions@);
        }
        let m = self.state.len();
        let mut j: usize = 0;
        while j < m
            invariant
                j <= m,
                m == self.state@.len(),
                buf@ == be64(self.number) + txs_bytes(self.transactions@) + ledger_bytes(
                    self.state@.take(j as int),
                ),
            decreases m - j,
        {
            let e = self.state.entry(j);
            push_be32(&mut buf, e.0);
            push_be64(&mut buf, e.1);
            proof {
                let entries = self.state@;
                assert(entries.take(j + 1).drop_last() =~= entries.take(j as int));
                assert(entries.take(j + 1).last() == entries[j as int]);
            }
            j = j + 1;
        }
        proof {
            assert(self.state@.take(m as int) =~= self.state@);
        }
        push_be32(&mut buf, self.gas_used);
        proof {
            assert(buf@ == block_bytes(
                self.number,
                self.transactions@,
                self.state@,
                self.gas_used,
            ));
        }
        fnv1a(&buf)
    }
}

} // verus!

