//! End-to-end tests of the ledger engine: ledger rules, block assembly
//! under a gas budget, the wire codec, and the commitment digest.

use blockchain::Block;
use blockchain::Mint;
use blockchain::State;
use blockchain::Transaction;
use blockchain::Transfer;
use blockchain::TX_MINT_GAS;
use blockchain::TX_TRANSFER_GAS;

const ALICE: u32 = 1;
const BOB: u32 = 2;

#[test]
fn state_minting() {
    let mut state = State::new();
    let tx = Transaction::Mint(Mint {
        to: BOB,
        amount: 12345,
        gas: TX_MINT_GAS,
    });

    assert_eq!(state.balance(BOB), None);
    assert!(state.apply_tx(&tx));
    assert_eq!(state.balance(BOB), Some(12345));
}

#[test]
fn state_transfer() {
    let mut state = State::new();

    // Alice has no balance
    let tx = Transaction::Transfer(Transfer {
        from: ALICE,
        to: BOB,
        amount: 12345,
        gas: TX_TRANSFER_GAS,
    });
    assert!(!state.apply_tx(&tx));

    // Mint some tokens for Alice
    let tx = Transaction::Mint(Mint {
        to: ALICE,
        amount: 100,
        gas: TX_MINT_GAS,
    });
    assert!(state.apply_tx(&tx));
    assert_eq!(state.balance(ALICE), Some(100));

    // Alice has too little balance
    let tx = Transaction::Transfer(Transfer {
        from: ALICE,
        to: BOB,
        amount: 200,
        gas: TX_TRANSFER_GAS,
    });
    assert!(!state.apply_tx(&tx));
    assert_eq!(state.balance(ALICE), Some(100));

    // Alice can transfer
    let tx = Transaction::Transfer(Transfer {
        from: ALICE,
        to: BOB,
        amount: 99,
        gas: TX_TRANSFER_GAS,
    });
    assert!(state.apply_tx(&tx));
    assert_eq!(state.balance(ALICE), Some(1));
    assert_eq!(state.balance(BOB), Some(99));
}

#[test]
fn block_creation() {
    let genesis = Block::genesis(20);

    let m = Transaction::Mint(Mint {
        to: ALICE,
        amount: 100,
        gas: TX_MINT_GAS,
    });
    let t1 = Transaction::Transfer(Transfer {
        from: ALICE,
        to: BOB,
        amount: 99,
        gas: TX_TRANSFER_GAS,
    });
    let t2 = Transaction::Transfer(Transfer {
        from: BOB,
        to: ALICE,
        amount: 5,
        gas: TX_TRANSFER_GAS,
    });
    let t3 = Transaction::Transfer(Transfer {
        from: BOB,
        to: ALICE,
        amount: 5_000,
        gas: TX_TRANSFER_GAS,
    });

    let mut new_block = genesis.next();
    let receipt = new_block.try_apply_tx(&m);
    assert!(receipt.is_ok());
    let receipt = new_block.try_apply_tx(&t1);
    assert!(receipt.is_ok());
    let receipt = new_block.try_apply_tx(&t2);
    assert!(receipt.is_ok());
    let receipt = new_block.try_apply_tx(&t3);
    assert!(receipt.is_err());

    assert_eq!(new_block.number, 1);
    assert_eq!(new_block.transactions.len(), 3);
    assert_eq!(new_block.state.balance(ALICE), Some(6));
    assert_eq!(new_block.state.balance(BOB), Some(94));

    assert_eq!(new_block.root(), new_block.root());
    assert_ne!(genesis.root(), new_block.root());
}

#[test]
fn serialisation() {
    let mint = Transaction::Mint(Mint {
        to: ALICE,
        amount: 100,
        gas: TX_MINT_GAS,
    });
    let mint_ser = mint.serialize();
    assert_eq!(
        mint_ser,
        b"\x00\x00\x00\x00\x01\x00\x00\x00\x00\x00\x00\x00\x64\x00\x00\x00\x02"
    );

    let (mint_deser, used) = Transaction::deserialize(&mint_ser).unwrap();
    assert_eq!(used, 17);
    assert_eq!(mint, mint_deser);

    let transf = Transaction::Transfer(Transfer {
        from: ALICE,
        to: BOB,
        amount: 99,
        gas: TX_TRANSFER_GAS,
    });
    let transf_ser = transf.serialize();
    assert_eq!(
        transf_ser,
        b"\x01\x00\x00\x00\x01\x00\x00\x00\x02\x00\x00\x00\x00\x00\x00\x00\x63\x00\x00\x00\x02"
    );

    let (transf_deser, used) = Transaction::deserialize(&transf_ser).unwrap();
    assert_eq!(used, 21);
    assert_eq!(transf, transf_deser);
}
