//! Checks of the commitment digest against the published FNV-1a 64-bit
//! test values, and of what a block's root does and does not depend on.

use blockchain::digest::{fnv1a, FNV_OFFSET_BASIS};
use blockchain::{Block, Mint, Transaction, TX_MINT_GAS};

#[test]
fn fnv1a_known_values() {
    assert_eq!(fnv1a(&Vec::new()), FNV_OFFSET_BASIS);
    assert_eq!(fnv1a(&b"".to_vec()), 0xcbf2_9ce4_8422_2325);
    assert_eq!(fnv1a(&b"a".to_vec()), 0xaf63_dc4c_8601_ec8c);
    assert_eq!(fnv1a(&b"foobar".to_vec()), 0x8594_4171_f739_67e8);
}

#[test]
fn root_of_genesis() {
    // A genesis block renders as its number (eight zero bytes), no
    // transactions, no ledger entries, and zero gas (four zero bytes).
    let expected = fnv1a(&vec![0u8; 12]);
    assert_eq!(Block::genesis(7).root(), expected);
    assert_eq!(Block::genesis(7).root(), 0x5467_b0da_1d10_6495);
    // The gas limit is not part of the digest's four inputs.
    assert_eq!(Block::genesis(7).root(), Block::genesis(9).root());
}

#[test]
fn root_covers_transactions_and_ledger() {
    let tx = Transaction::Mint(Mint {
        to: 5,
        amount: 40,
        gas: TX_MINT_GAS,
    });
    let mut block = Block::genesis(50);
    assert!(block.try_apply_tx(&tx).is_ok());

    // Rebuild the digested bytes by hand: number, the transaction's wire
    // encoding, the single ledger entry, then the gas counter.
    let mut bytes = Vec::new();
    bytes.extend_from_slice(&0u64.to_be_bytes());
    bytes.extend_from_slice(&tx.serialize());
    bytes.extend_from_slice(&5u32.to_be_bytes());
    bytes.extend_from_slice(&40u64.to_be_bytes());
    bytes.extend_from_slice(&2u32.to_be_bytes());
    assert_eq!(block.root(), fnv1a(&bytes));
}
