//! Concrete checks of the engine's stated properties: additive minting,
//! transfer validity edges, conservation of funds, gas-budget isolation,
//! codec round trips and error cases, and digest determinism.

use blockchain::Block;
use blockchain::DecodeError;
use blockchain::ExecutionError;
use blockchain::Mint;
use blockchain::State;
use blockchain::Transaction;
use blockchain::Transfer;
use blockchain::TX_MINT_GAS;
use blockchain::TX_TRANSFER_GAS;

const ALICE: u32 = 1;
const BOB: u32 = 2;
const CAROL: u32 = 3;

fn mint(to: u32, amount: u64) -> Transaction {
    Transaction::Mint(Mint {
        to,
        amount,
        gas: TX_MINT_GAS,
    })
}

fn transfer(from: u32, to: u32, amount: u64) -> Transaction {
    Transaction::Transfer(Transfer {
        from,
        to,
        amount,
        gas: TX_TRANSFER_GAS,
    })
}

#[test]
fn minting_is_additive() {
    let mut state = State::new();
    assert!(state.apply_tx(&mint(ALICE, 70)));
    assert_eq!(state.balance(ALICE), Some(70));
    assert!(state.apply_tx(&mint(ALICE, 30)));
    assert_eq!(state.balance(ALICE), Some(100));
    // Minting zero still creates the account entry.
    assert!(state.apply_tx(&mint(BOB, 0)));
    assert_eq!(state.balance(BOB), Some(0));
}

#[test]
fn transfer_needs_recorded_sender() {
    let mut state = State::new();
    // An account with no prior credit can never send, not even zero.
    assert!(!state.apply_tx(&transfer(ALICE, BOB, 0)));
    assert_eq!(state.balance(ALICE), None);
    assert_eq!(state.balance(BOB), None);
    // Once recorded, even a zero balance can send zero.
    assert!(state.apply_tx(&mint(ALICE, 0)));
    assert!(state.apply_tx(&transfer(ALICE, BOB, 0)));
    assert_eq!(state.balance(ALICE), Some(0));
    assert_eq!(state.balance(BOB), Some(0));
}

#[test]
fn transfer_failure_changes_nothing() {
    let mut state = State::new();
    assert!(state.apply_tx(&mint(ALICE, 10)));
    assert!(!state.apply_tx(&transfer(ALICE, BOB, 11)));
    assert_eq!(state.balance(ALICE), Some(10));
    assert_eq!(state.balance(BOB), None);
}

#[test]
fn transfer_exact_balance_and_self() {
    let mut state = State::new();
    assert!(state.apply_tx(&mint(ALICE, 10)));
    // A transfer of the whole balance succeeds and leaves zero behind.
    assert!(state.apply_tx(&transfer(ALICE, BOB, 10)));
    assert_eq!(state.balance(ALICE), Some(0));
    assert_eq!(state.balance(BOB), Some(10));
    // A transfer to oneself is valid and changes nothing.
    assert!(state.apply_tx(&transfer(BOB, BOB, 10)));
    assert_eq!(state.balance(BOB), Some(10));
}

#[test]
fn conservation_of_funds() {
    let mut state = State::new();
    let txs = [
        mint(ALICE, 500),
        mint(BOB, 250),
        transfer(ALICE, CAROL, 123),
        transfer(BOB, ALICE, 250),
        transfer(CAROL, CAROL, 3),
        transfer(CAROL, BOB, 5000), // invalid: underfunded
        transfer(42, ALICE, 1),     // invalid: unknown sender
    ];
    let mut minted: u64 = 0;
    for tx in &txs {
        let accepted = state.apply_tx(tx);
        if let Transaction::Mint(m) = tx {
            assert!(accepted);
            minted += m.amount;
        }
    }
    let total = state.balance(ALICE).unwrap_or(0)
        + state.balance(BOB).unwrap_or(0)
        + state.balance(CAROL).unwrap_or(0);
    assert_eq!(total, minted);
    assert_eq!(minted, 750);
}

#[test]
fn gas_limit_rejection_is_isolated() {
    let mut block = Block::genesis(5);
    assert!(block.try_apply_tx(&mint(ALICE, 10)).is_ok());
    assert_eq!(block.gas_used, 2);

    // 2 + 4 > 5: over budget, and nothing moves.
    let big = Transaction::Mint(Mint {
        to: BOB,
        amount: 7,
        gas: 4,
    });
    assert_eq!(
        block.try_apply_tx(&big),
        Err(ExecutionError::GasLimitReached)
    );
    assert_eq!(block.gas_used, 2);
    assert_eq!(block.transactions.len(), 1);
    assert_eq!(block.state.balance(BOB), None);

    // An invalid transaction consumes no gas either.
    assert_eq!(
        block.try_apply_tx(&transfer(BOB, ALICE, 1)),
        Err(ExecutionError::InvalidTransaction)
    );
    assert_eq!(block.gas_used, 2);
    assert_eq!(block.transactions.len(), 1);

    // The budget can still be filled exactly to the limit.
    assert!(block.try_apply_tx(&transfer(ALICE, BOB, 4)).is_ok());
    assert_eq!(block.gas_used, 4);
}

#[test]
fn successor_carries_ledger_and_resets() {
    let mut parent = Block::genesis(100);
    assert!(parent.try_apply_tx(&mint(ALICE, 11)).is_ok());
    let child = parent.next();
    assert_eq!(child.number, 1);
    assert_eq!(child.gas_used, 0);
    assert_eq!(child.gas_limit, 100);
    assert_eq!(child.transactions.len(), 0);
    assert_eq!(child.state.balance(ALICE), Some(11));
    // The parent's ledger was copied, not shared: spending in the child
    // does not touch the parent.
    let mut child = child;
    assert!(child.try_apply_tx(&transfer(ALICE, BOB, 11)).is_ok());
    assert_eq!(child.state.balance(ALICE), Some(0));
    assert_eq!(parent.state.balance(ALICE), Some(11));
}

#[test]
fn round_trip_extremes() {
    let txs = [
        mint(0, 0),
        mint(u32::MAX, u64::MAX),
        transfer(u32::MAX, 0, u64::MAX),
        Transaction::Transfer(Transfer {
            from: 0x01020304,
            to: 0xfffefdfc,
            amount: 0x1122334455667788,
            gas: u32::MAX,
        }),
    ];
    for tx in &txs {
        let encoded = tx.serialize();
        let (decoded, used) = Transaction::deserialize(&encoded).unwrap();
        assert_eq!(used, encoded.len());
        assert_eq!(*tx, decoded);
    }
}

#[test]
fn deserialize_leaves_remainder() {
    let tx = mint(ALICE, 100);
    let mut bytes = tx.serialize();
    bytes.extend_from_slice(&[0xaa, 0xbb, 0xcc]);
    let (decoded, used) = Transaction::deserialize(&bytes).unwrap();
    assert_eq!(decoded, tx);
    assert_eq!(used, 17);
}

#[test]
fn deserialize_rejects_unknown_tag() {
    let bytes = [
        2u8, 0, 0, 0, 1, 0, 0, 0, 0, 0, 0, 0, 100, 0, 0, 0, 2, 0, 0, 0, 0,
    ];
    assert_eq!(
        Transaction::deserialize(&bytes),
        Err(DecodeError::UnknownTag)
    );
}

#[test]
fn deserialize_rejects_short_input() {
    assert_eq!(
        Transaction::deserialize(&[]),
        Err(DecodeError::UnexpectedEnd)
    );
    // A mint announced but cut short.
    let tx = mint(ALICE, 100);
    let bytes = tx.serialize();
    assert_eq!(
        Transaction::deserialize(&bytes[..16]),
        Err(DecodeError::UnexpectedEnd)
    );
    // A transfer announced but cut short.
    let tx = transfer(ALICE, BOB, 1);
    let bytes = tx.serialize();
    assert_eq!(
        Transaction::deserialize(&bytes[..20]),
        Err(DecodeError::UnexpectedEnd)
    );
}

#[test]
fn gas_of_both_variants() {
    assert_eq!(TX_MINT_GAS, 2);
    assert_eq!(TX_TRANSFER_GAS, 2);
    let m = Transaction::Mint(Mint {
        to: ALICE,
        amount: 5,
        gas: 9,
    });
    let t = Transaction::Transfer(Transfer {
        from: ALICE,
        to: BOB,
        amount: 5,
        gas: 11,
    });
    assert_eq!(m.gas(), 9);
    assert_eq!(t.gas(), 11);
}

#[test]
fn root_depends_on_contents() {
    let mut a = Block::genesis(20);
    assert!(a.try_apply_tx(&mint(ALICE, 100)).is_ok());
    let mut b = Block::genesis(20);
    assert!(b.try_apply_tx(&mint(ALICE, 100)).is_ok());
    // Identical contents, identical roots; recomputing changes nothing.
    assert_eq!(a.root(), b.root());
    assert_eq!(a.root(), a.root());
    // A differing field changes the digest.
    let c = a.next();
    assert_ne!(a.root(), c.root());
    assert!(b.try_apply_tx(&transfer(ALICE, BOB, 1)).is_ok());
    assert_ne!(a.root(), b.root());
}
