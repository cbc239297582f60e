//! The ledger: a mapping from account address to balance, and the rules
//! for applying transactions to it.
//!
//! The balances are held as a vector of `(address, balance)` pairs sorted
//! strictly by address, so every address occurs at most once and an absent
//! address has implicit balance zero. The mathematical model of a ledger is
//! that sequence of pairs; `balance_of`, `set_balance_of` and `total_supply`
//! give the model a map-like reading, and `apply_spec` is the transition
//! relation that `State::apply_tx` is proved to implement.

use vstd::pervasive::VecAdditionalExecFns;
use vstd::prelude::*;

use crate::tx::Address;
use crate::tx::Balance;
use crate::tx::Transaction;

verus! {

/// True when the entry sequence is strictly sorted by address, which also
/// makes every address unique.
pub open spec fn sorted(s: Seq<(Address, Balance)>) -> bool {
    forall|i: int, j: int| 0 <= i < j < s.len() ==> (#[trigger] s[i]).0 < (#[trigger] s[j]).0
}

/// Whether `a` has a recorded entry in the ledger model.
pub open spec fn contains_key(s: Seq<(Address, Balance)>, a: Address) -> bool
    decreases s.len(),
{
    if s.len() == 0 {
        false
    } else if s[0].0 == a {
        true
    } else {
        contains_key(s.drop_first(), a)
    }
}

/// The balance recorded for `a`; zero when `a` has no entry.
pub open spec fn balance_of(s: Seq<(Address, Balance)>, a: Address) -> Balance
    decreases s.len(),
{
    if s.len() == 0 {
        0
    } else if s[0].0 == a {
        s[0].1
    } else {
        balance_of(s.drop_first(), a)
    }
}

/// The ledger model with the balance of `a` set to `v`, keeping the entries
/// sorted: an existing entry is replaced, a new one is placed at its sorted
/// position.
pub open spec fn set_balance_of(s: Seq<(Address, Balance)>, a: Address, v: Balance) -> Seq<
    (Address, Balance),
>
    decreases s.len(),
{
    if s.len() == 0 {
        seq![(a, v)]
    } else if s[0].0 < a {
        seq![s[0]] + set_balance_of(s.drop_first(), a, v)
    } else if s[0].0 == a {
        seq![(a, v)] + s.drop_first()
    } else {
        seq![(a, v)] + s
    }
}

/// The sum of all recorded balances.
pub open spec fn total_supply(s: Seq<(Address, Balance)>) -> int
    decreases s.len(),
{
    if s.len() == 0 {
        0
    } else {
        s[0].1 + total_supply(s.drop_first())
    }
}

/// An address without an entry has balance zero.
pub proof fn lemma_absent_balance_zero(s: Seq<(Address, Balance)>, a: Address)
    requires
        !contains_key(s, a),
    ensures
        balance_of(s, a) == 0,
    decreases s.len(),
{
    if s.len() > 0 {
        lemma_absent_balance_zero(s.drop_first(), a);
    }
}

/// A recorded address corresponds to an index of the entry sequence.
pub proof fn lemma_contains_key_index(s: Seq<(Address, Balance)>, a: Address)
    ensures
        contains_key(s, a) <==> exists|i: int| 0 <= i < s.len() && (#[trigger] s[i]).0 == a,
    decreases s.len(),
{
    if s.len() > 0 {
        lemma_contains_key_index(s.drop_first(), a);
        if s[0].0 == a {
            assert(s[0].0 == a);
        } else if contains_key(s.drop_first(), a) {
            let i = choose|i: int| 0 <= i < s.drop_first().len() && (#[trigger] s.drop_first()[i]).0
                == a;
            assert(s[i + 1].0 == a);
        } else if exists|i: int| 0 <= i < s.len() && (#[trigger] s[i]).0 == a {
            let i = choose|i: int| 0 <= i < s.len() && (#[trigger] s[i]).0 == a;
            assert(s.drop_first()[i - 1].0 == a);
        }
    }
}

/// In a sorted ledger the balance of the address at index `i` is the value
/// stored there.
pub proof fn lemma_balance_at_index(s: Seq<(Address, Balance)>, i: int)
    requires
        sorted(s),
        0 <= i < s.len(),
    ensures
        contains_key(s, s[i].0),
        balance_of(s, s[i].0) == s[i].1,
    decreases s.len(),
{
    if i > 0 {
        assert(s[0].0 < s[i].0);
        lemma_balance_at_index(s.drop_first(), i - 1);
        assert(s.drop_first()[i - 1] == s[i]);
    }
}

/// What `set_balance_of` does to a sorted ledger model: it stays sorted, the
/// written address now holds `v`, every other entry is untouched, and the
/// total supply shifts by exactly the difference at the written address.
pub proof fn lemma_set_balance(s: Seq<(Address, Balance)>, a: Address, v: Balance)
    requires
        sorted(s),
    ensures
        sorted(set_balance_of(s, a, v)),
        contains_key(set_balance_of(s, a, v), a),
        forall|b: Address| #[trigger]
            contains_key(set_balance_of(s, a, v), b) <==> (b == a || contains_key(s, b)),
        balance_of(set_balance_of(s, a, v), a) == v,
        forall|b: Address|
            b != a ==> #[trigger] balance_of(set_balance_of(s, a, v), b) == balance_of(s, b),
        total_supply(set_balance_of(s, a, v)) == total_supply(s) + v - (if contains_key(s, a) {
            balance_of(s, a) as int
        } else {
            0
        }),
    decreases s.len(),
{
    let r = set_balance_of(s, a, v);
    if s.len() == 0 {
        assert(r == seq![(a, v)]);
        assert(r.drop_first() =~= Seq::<(Address, Balance)>::empty());
        assert forall|b: Address| #[trigger]
            contains_key(r, b) <==> (b == a || contains_key(s, b)) by {
            assert(contains_key(r, b) == (r[0].0 == b || contains_key(r.drop_first(), b)));
        }
        assert forall|b: Address| b != a implies #[trigger] balance_of(r, b) == balance_of(
            s,
            b,
        ) by {
            assert(balance_of(r, b) == balance_of(r.drop_first(), b));
        }
        assert(total_supply(r) == v + total_supply(r.drop_first()));
        assert(total_supply(r.drop_first()) == 0);
        assert(total_supply(s) == 0);
        assert(!contains_key(s, a));
    } else if s[0].0 < a {
        let tail = s.drop_first();
        lemma_set_balance(tail, a, v);
        let rt = set_balance_of(tail, a, v);
        assert(r == seq![s[0]] + rt);
        assert(r.drop_first() =~= rt);
        assert(r[0] == s[0]);
        // Sortedness: every key in the rewritten tail is a key of the tail or
        // `a` itself, and both lie strictly above the head key.
        assert forall|i: int, j: int| 0 <= i < j < r.len() implies (#[trigger] r[i]).0 < (
        #[trigger] r[j]).0 by {
            if i == 0 {
                let b = r[j].0;
                assert(rt[j - 1].0 == b);
                lemma_contains_key_index(rt, b);
                assert(contains_key(rt, b));
                if b != a {
                    assert(contains_key(tail, b));
                    lemma_contains_key_index(tail, b);
                    let k = choose|k: int| 0 <= k < tail.len() && (#[trigger] tail[k]).0 == b;
                    assert(s[k + 1].0 == b);
                    assert(s[0].0 < s[k + 1].0);
                }
            } else {
                assert(rt[i - 1].0 < rt[j - 1].0);
            }
        }
        // Membership and balances: the head is untouched, the rest is the
        // rewritten tail's story.
        assert forall|b: Address| #[trigger]
            contains_key(r, b) <==> (b == a || contains_key(s, b)) by {
            assert(contains_key(r, b) == (s[0].0 == b || contains_key(rt, b)));
            assert(contains_key(s, b) == (s[0].0 == b || contains_key(tail, b)));
        }
        assert forall|b: Address|
            b != a implies #[trigger] balance_of(r, b) == balance_of(s, b) by {
            if s[0].0 != b {
                assert(balance_of(r, b) == balance_of(rt, b));
                assert(balance_of(s, b) == balance_of(tail, b));
            }
        }
        assert(total_supply(r) == s[0].1 + total_supply(rt));
        assert(total_supply(s) == s[0].1 + total_supply(tail));
        assert(contains_key(s, a) == contains_key(tail, a));
        assert(balance_of(s, a) == balance_of(tail, a));
    } else if s[0].0 == a {
        assert(r == seq![(a, v)] + s.drop_first());
        assert(r.drop_first() =~= s.drop_first());
        assert forall|i: int, j: int| 0 <= i < j < r.len() implies (#[trigger] r[i]).0 < (
        #[trigger] r[j]).0 by {
            if i == 0 {
                assert(s.drop_first()[j - 1] == s[j]);
                assert(s[0].0 < s[j].0);
            } else {
                assert(r[i] == s[i] && r[j] == s[j]);
            }
        }
        assert(!contains_key(s.drop_first(), a)) by {
            lemma_contains_key_index(s.drop_first(), a);
            if contains_key(s.drop_first(), a) {
                let k = choose|k: int|
                    0 <= k < s.drop_first().len() && (#[trigger] s.drop_first()[k]).0 == a;
                assert(s[0].0 < s[k + 1].0);
            }
        }
        assert forall|b: Address| #[trigger]
            contains_key(r, b) <==> (b == a || contains_key(s, b)) by {
            assert(contains_key(r, b) == (a == b || contains_key(s.drop_first(), b)));
            assert(contains_key(s, b) == (a == b || contains_key(s.drop_first(), b)));
        }
        assert forall|b: Address|
            b != a implies #[trigger] balance_of(r, b) == balance_of(s, b) by {
            assert(balance_of(r, b) == balance_of(s.drop_first(), b));
            assert(balance_of(s, b) == balance_of(s.drop_first(), b));
        }
        assert(total_supply(r) == v + total_supply(s.drop_first()));
        assert(total_supply(s) == s[0].1 + total_supply(s.drop_first()));
        assert(balance_of(s, a) == s[0].1);
    } else {
        assert(r == seq![(a, v)] + s);
        assert(r.drop_first() =~= s);
        assert forall|i: int, j: int| 0 <= i < j < r.len() implies (#[trigger] r[i]).0 < (
        #[trigger] r[j]).0 by {
            if i == 0 {
                if j > 1 {
                    assert(s[0].0 < s[j - 1].0);
                }
            } else {
                assert(r[i] == s[i - 1] && r[j] == s[j - 1]);
            }
        }
        assert(!contains_key(s, a)) by {
            lemma_contains_key_index(s, a);
            if contains_key(s, a) {
                let k = choose|k: int| 0 <= k < s.len() && (#[trigger] s[k]).0 == a;
                if k > 0 {
                    assert(s[0].0 < s[k].0);
                }
            }
        }
        lemma_absent_balance_zero(s, a);
        assert forall|b: Address| #[trigger]
            contains_key(r, b) <==> (b == a || contains_key(s, b)) by {
            assert(contains_key(r, b) == (a == b || contains_key(s, b)));
        }
        assert forall|b: Address|
            b != a implies #[trigger] balance_of(r, b) == balance_of(s, b) by {
            assert(balance_of(r, b) == balance_of(s, b));
        }
        // The total gains the new entry in front of the untouched sequence.
        assert(total_supply(r) == v + total_supply(s));
    }
}

/// Whether the ledger accepts `tx`: a mint is always valid; a transfer is
/// valid exactly when the sender has a recorded balance of at least the
/// amount.
pub open spec fn tx_valid(s: Seq<(Address, Balance)>, tx: Transaction) -> bool {
    match tx {
        Transaction::Mint(_) => true,
        Transaction::Transfer(t) => contains_key(s, t.from) && t.amount <= balance_of(s, t.from),
    }
}

/// The ledger after attempting `tx`: a mint credits its recipient, a valid
/// transfer debits the sender and credits the recipient, and an invalid
/// transfer leaves the ledger untouched.
pub open spec fn apply_spec(s: Seq<(Address, Balance)>, tx: Transaction) -> Seq<
    (Address, Balance),
> {
    match tx {
        Transaction::Mint(m) => set_balance_of(s, m.to, (balance_of(s, m.to) + m.amount) as Balance),
        Transaction::Transfer(t) => if tx_valid(s, tx) {
            let s1 = set_balance_of(s, t.from, (balance_of(s, t.from) - t.amount) as Balance);
            set_balance_of(s1, t.to, (balance_of(s1, t.to) + t.amount) as Balance)
        } else {
            s
        },
    }
}

/// The machine-limit side condition on applying `tx`: the credited balance
/// must still fit in a `Balance`. A transfer of an account to itself never
/// overflows, and neither does an invalid transfer.
pub open spec fn tx_fits(s: Seq<(Address, Balance)>, tx: Transaction) -> bool {
    match tx {
        Transaction::Mint(m) => balance_of(s, m.to) + m.amount <= Balance::MAX,
        Transaction::Transfer(t) => (tx_valid(s, tx) && t.from != t.to) ==> balance_of(s, t.to)
            + t.amount <= Balance::MAX,
    }
}

/// How much new value `tx` creates: the amount for a mint, nothing for a
/// transfer.
pub open spec fn mint_delta(tx: Transaction) -> int {
    match tx {
        Transaction::Mint(m) => m.amount as int,
        Transaction::Transfer(_) => 0,
    }
}

/// One step of the transition relation keeps the model sorted and moves the
/// total supply by exactly the minted amount: transfers conserve it.
pub proof fn lemma_apply_spec(s: Seq<(Address, Balance)>, tx: Transaction)
    requires
        sorted(s),
        tx_fits(s, tx),
    ensures
        sorted(apply_spec(s, tx)),
        total_supply(apply_spec(s, tx)) == total_supply(s) + mint_delta(tx),
        !tx_valid(s, tx) ==> apply_spec(s, tx) == s,
{
    match tx {
        Transaction::Mint(m) => {
            if !contains_key(s, m.to) {
                lemma_absent_balance_zero(s, m.to);
            }
            lemma_set_balance(s, m.to, (balance_of(s, m.to) + m.amount) as Balance);
        },
        Transaction::Transfer(t) => {
            if tx_valid(s, tx) {
                let v1 = (balance_of(s, t.from) - t.amount) as Balance;
                let s1 = set_balance_of(s, t.from, v1);
                lemma_set_balance(s, t.from, v1);
                if !contains_key(s1, t.to) {
                    lemma_absent_balance_zero(s1, t.to);
                }
                if t.from != t.to && !contains_key(s, t.to) {
                    lemma_absent_balance_zero(s, t.to);
                }
                lemma_set_balance(s1, t.to, (balance_of(s1, t.to) + t.amount) as Balance);
            }
        },
    }
}

/// The ledger after attempting every transaction of `txs` in order.
pub open spec fn apply_all(s: Seq<(Address, Balance)>, txs: Seq<Transaction>) -> Seq<
    (Address, Balance),
>
    decreases txs.len(),
{
    if txs.len() == 0 {
        s
    } else {
        apply_all(apply_spec(s, txs[0]), txs.drop_first())
    }
}

/// The sum of the amounts of all mints in `txs`. Mints are unconditionally
/// accepted, so this is also the sum of the accepted mint amounts.
pub open spec fn minted_total(txs: Seq<Transaction>) -> int
    decreases txs.len(),
{
    if txs.len() == 0 {
        0
    } else {
        mint_delta(txs[0]) + minted_total(txs.drop_first())
    }
}

/// Every credit along the way of applying `txs` to `s` fits in a `Balance`.
pub open spec fn all_fit(s: Seq<(Address, Balance)>, txs: Seq<Transaction>) -> bool
    decreases txs.len(),
{
    txs.len() == 0 || (tx_fits(s, txs[0]) && all_fit(apply_spec(s, txs[0]), txs.drop_first()))
}

/// Conservation of funds: over any sequence of attempted transactions whose
/// credits stay within the balance type, the total supply grows by exactly
/// the sum of the (always accepted) mint amounts; transfers, valid or not,
/// never change it.
pub proof fn lemma_conservation(s: Seq<(Address, Balance)>, txs: Seq<Transaction>)
    requires
        sorted(s),
        all_fit(s, txs),
    ensures
        sorted(apply_all(s, txs)),
        total_supply(apply_all(s, txs)) == total_supply(s) + minted_total(txs),
    decreases txs.len(),
{
    if txs.len() > 0 {
        lemma_apply_spec(s, txs[0]);
        lemma_conservation(apply_spec(s, txs[0]), txs.drop_first());
    }
}

/// Where `set_balance_of` lands positionally: given the first index `i`
/// whose key is not below `a`, it is an update at `i` when the key is
/// already there and an insertion at `i` otherwise.
pub proof fn lemma_set_balance_at(s: Seq<(Address, Balance)>, a: Address, v: Balance, i: int)
    requires
        sorted(s),
        0 <= i <= s.len(),
        forall|k: int| 0 <= k < i ==> (#[trigger] s[k]).0 < a,
        i < s.len() ==> s[i].0 >= a,
    ensures
        set_balance_of(s, a, v) == (if i < s.len() && s[i].0 == a {
            s.update(i, (a, v))
        } else {
            s.insert(i, (a, v))
        }),
    decreases s.len(),
{
    let r = set_balance_of(s, a, v);
    if i == 0 {
        if s.len() == 0 {
            assert(r =~= s.insert(0, (a, v)));
        } else if s[0].0 == a {
            assert(r =~= s.update(0, (a, v)));
        } else {
            assert(s[0].0 > a);
            assert(r =~= s.insert(0, (a, v)));
        }
    } else {
        assert(s[0].0 < a);
        let tail = s.drop_first();
        lemma_set_balance_at(tail, a, v, i - 1);
        if i < s.len() && s[i].0 == a {
            assert(tail[i - 1] == s[i]);
            assert(r =~= s.update(i, (a, v))) by {
                assert(r == seq![s[0]] + tail.update(i - 1, (a, v)));
            }
        } else {
            assert(r =~= s.insert(i, (a, v))) by {
                assert(r == seq![s[0]] + tail.insert(i - 1, (a, v)));
            }
        }
    }
}

/// The account-balance store: the single source of truth for whether a
/// transaction is valid. Its model is the sorted entry sequence `self@`.
#[derive(Debug, Clone)]
pub struct State {
    balances: Vec<(Address, Balance)>,
}

impl View for State {
    type V = Seq<(Address, Balance)>;

    closed spec fn view(&self) -> Seq<(Address, Balance)> {
        self.balances@
    }
}

impl State {
    /// Well-formedness: the entries are strictly sorted by address.
    pub open spec fn wf(&self) -> bool {
        sorted(self@)
    }

    /// An empty ledger: every account has implicit balance zero.
    pub fn new() -> (s: State)
        ensures
            s@ == Seq::<(Address, Balance)>::empty(),
            s.wf(),
    {
        State { balances: Vec::new() }
    }

    /// The recorded balance of `a`, or `None` when `a` has no entry.
    pub fn balance(&self, a: Address) -> (r: Option<Balance>)
        requires
            self.wf(),
        ensures
            r == (if contains_key(self@, a) {
                Some(balance_of(self@, a))
            } else {
                None::<Balance>
            }),
    {
        let n = self.balances.len();
        let mut i: usize = 0;
        while i < n
            invariant
                i <= n,
                n == self@.len(),
                self.wf(),
                forall|k: int| 0 <= k < i ==> (#[trigger] self@[k]).0 != a,
            decreases n - i,
        {
            let e = self.balances[i];
            if e.0 == a {
                proof {
                    lemma_balance_at_index(self@, i as int);
                }
                return Some(e.1);
            }
            i = i + 1;
        }
        proof {
            lemma_contains_key_index(self@, a);
        }
        None
    }

    /// The number of accounts with a recorded entry.
    pub fn len(&self) -> (n: usize)
        ensures
            n == self@.len(),
    {
        self.balances.len()
    }

    /// The `(address, balance)` entry at index `i`, in increasing address
    /// order.
    pub fn entry(&self, i: usize) -> (e: (Address, Balance))
        requires
            i < self@.len(),
        ensures
            e == self@[i as int],
    {
        self.balances[i]
    }

    /// A copy of the ledger, entry for entry; used to carry a parent
    /// block's final balances into its successor.
    pub fn snapshot(&self) -> (r: State)
        ensures
            r@ == self@,
    {
        let n = self.balances.len();
        let mut copied: Vec<(Address, Balance)> = Vec::new();
        let mut i: usize = 0;
        while i < n
            invariant
                i <= n,
                n == self@.len(),
                copied@ == self@.take(i as int),
            decreases n - i,
        {
            copied.push(self.balances[i]);
            proof {
                assert(copied@ =~= self@.take(i + 1));
            }
            i = i + 1;
        }
        proof {
            assert(copied@ =~= self@);
        }
        State { balances: copied }
    }

    /// The first index whose address is not below `a`; the sorted position
    /// at which `a` lives or would be inserted.
    fn insertion_point(&self, a: Address) -> (i: usize)
        requires
            self.wf(),
        ensures
            i <= self@.len(),
            forall|k: int| 0 <= k < i ==> (#[trigger] self@[k]).0 < a,
            i < self@.len() ==> self@[i as int].0 >= a,
    {
        let n = self.balances.len();
        let mut i: usize = 0;
        while i < n
            invariant
                i <= n,
                n == self@.len(),
                forall|k: int| 0 <= k < i ==> (#[trigger] self@[k]).0 < a,
            decreases n - i,
        {
            if self.balances[i].0 >= a {
                return i;
            }
            i = i + 1;
        }
        i
    }

    /// Writes balance `v` for address `a`, replacing its entry or creating
    /// one at the sorted position.
    fn set_balance(&mut self, a: Address, v: Balance)
        requires
            old(self).wf(),
        ensures
            final(self).wf(),
            final(self)@ == set_balance_of(old(self)@, a, v),
    {
        let i = self.insertion_point(a);
        proof {
            lemma_set_balance_at(self@, a, v, i as int);
            lemma_set_balance(self@, a, v);
        }
        if i < self.balances.len() && self.balances[i].0 == a {
            self.balances.set(i, (a, v));
        } else {
            self.balances.insert(i, (a, v));
        }
    }

    /// Attempts `tx` against the ledger and reports whether it was valid,
    /// mutating the balances only on success.
    ///
    /// A mint is always valid and credits its recipient with exactly the
    /// minted amount, creating the account if absent. A transfer is valid
    /// exactly when the sender has a recorded balance of at least the
    /// amount; on success it debits the sender and credits the recipient
    /// (creating it if absent), and on failure it changes no balance at
    /// all. No transaction is ever partially applied.
    pub fn apply_tx(&mut self, tx: &Transaction) -> (r: bool)
        requires
            old(self).wf(),
            tx_fits(old(self)@, *tx),
        ensures
            final(self).wf(),
            r == tx_valid(old(self)@, *tx),
            final(self)@ == apply_spec(old(self)@, *tx),
            !r ==> final(self)@ == old(self)@,
            total_supply(final(self)@) == total_supply(old(self)@) + (if r {
                mint_delta(*tx)
            } else {
                0
            }),
            (match *tx {
                Transaction::Mint(m) => r && balance_of(final(self)@, m.to) == balance_of(
                    old(self)@,
                    m.to,
                ) + m.amount && (forall|b: Address|
                    b != m.to ==> #[trigger] balance_of(final(self)@, b) == balance_of(
                        old(self)@,
                        b,
                    )),
                Transaction::Transfer(t) => r ==> (if t.from == t.to {
                    forall|b: Address| #[trigger]
                        balance_of(final(self)@, b) == balance_of(old(self)@, b)
                } else {
                    balance_of(final(self)@, t.from) == balance_of(old(self)@, t.from) - t.amount
                        && balance_of(final(self)@, t.to) == balance_of(old(self)@, t.to)
                        + t.amount && (forall|b: Address|
                        b != t.from && b != t.to ==> #[trigger] balance_of(final(self)@, b)
                            == balance_of(old(self)@, b))
                }),
            }),
    {
        match tx {
            Transaction::Mint(m) => {
                let cur: Balance = match self.balance(m.to) {
                    Some(v) => v,
                    None => 0,
                };
                proof {
                    if !contains_key(self@, m.to) {
                        lemma_absent_balance_zero(self@, m.to);
                    }
                    lemma_set_balance(self@, m.to, (cur + m.amount) as Balance);
                }
                self.set_balance(m.to, cur + m.amount);
                true
            },
            Transaction::Transfer(t) => {
                let cur: Balance = match self.balance(t.from) {
                    Some(v) => v,
                    None => { return false },
                };
                if cur < t.amount {
                    return false;
                }
                let ghost s0 = self@;
                proof {
                    lemma_set_balance(s0, t.from, (cur - t.amount) as Balance);
                }
                self.set_balance(t.from, cur - t.amount);
                let credited: Balance = match self.balance(t.to) {
                    Some(v) => v,
                    None => 0,
                };
                proof {
                    if !contains_key(self@, t.to) {
                        lemma_absent_balance_zero(self@, t.to);
                    }
                    if t.from != t.to && !contains_key(s0, t.to) {
                        lemma_absent_balance_zero(s0, t.to);
                    }
                    lemma_set_balance(self@, t.to, (credited + t.amount) as Balance);
                }
                self.set_balance(t.to, credited + t.amount);
                true
            },
        }
    }
}

} // verus!

