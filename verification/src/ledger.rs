//! The escrow ledger: one unsigned 128-bit balance per account.
//!
//! A balance is never negative — debits beyond the balance are rejected,
//! not clamped — and an account that was never seen reads as zero, never as
//! an error.

use vstd::prelude::*;

use crate::account::AccountId;
use crate::store::AccountMap;

verus! {

/// The balance an account holds under a ledger map: zero when unseen.
pub open spec fn spec_balance(m: Map<Seq<u8>, u128>, a: Seq<u8>) -> u128 {
    if m.contains_key(a) {
        m[a]
    } else {
        0
    }
}

/// The ledger after an unconditional credit. Meaningful only when the sum
/// fits in a `u128`; the operations that use it require just that.
pub open spec fn spec_credit(m: Map<Seq<u8>, u128>, a: Seq<u8>, x: u128) -> Map<Seq<u8>, u128> {
    m.insert(a, (spec_balance(m, a) + x) as u128)
}

/// The ledger after a debit. Meaningful only when the balance covers `x`;
/// the operations that use it reject the debit otherwise.
pub open spec fn spec_debit(m: Map<Seq<u8>, u128>, a: Seq<u8>, x: u128) -> Map<Seq<u8>, u128> {
    m.insert(a, (spec_balance(m, a) - x) as u128)
}

/// Depositing `x` and then withdrawing `x` restores every balance —
/// the depositor's and everyone else's — exactly.
pub proof fn lemma_deposit_withdraw_round_trip(m: Map<Seq<u8>, u128>, a: Seq<u8>, x: u128)
    requires
        spec_balance(m, a) + x <= u128::MAX,
    ensures
        forall|b: Seq<u8>|
            spec_balance(spec_debit(spec_credit(m, a, x), a, x), b) == spec_balance(m, b),
{
}

/// One ledger movement on a single account.
pub enum LedgerOp {
    Deposit(u128),
    Withdraw(u128),
}

/// The ledger after a sequence of movements on account `a`, applied left to
/// right.
pub open spec fn spec_apply_ops(m: Map<Seq<u8>, u128>, a: Seq<u8>, ops: Seq<LedgerOp>) -> Map<
    Seq<u8>,
    u128,
>
    decreases ops.len(),
{
    if ops.len() == 0 {
        m
    } else {
        let prev = spec_apply_ops(m, a, ops.drop_last());
        match ops.last() {
            LedgerOp::Deposit(x) => spec_credit(prev, a, x),
            LedgerOp::Withdraw(x) => spec_debit(prev, a, x),
        }
    }
}

/// Every deposit fits and every withdraw is covered by the balance at the
/// time it is applied.
pub open spec fn spec_ops_valid(m: Map<Seq<u8>, u128>, a: Seq<u8>, ops: Seq<LedgerOp>) -> bool
    decreases ops.len(),
{
    if ops.len() == 0 {
        true
    } else {
        let prev = spec_apply_ops(m, a, ops.drop_last());
        &&& spec_ops_valid(m, a, ops.drop_last())
        &&& match ops.last() {
            LedgerOp::Deposit(x) => spec_balance(prev, a) + x <= u128::MAX,
            LedgerOp::Withdraw(x) => x <= spec_balance(prev, a),
        }
    }
}

/// The sum of the deposits minus the sum of the withdraws.
pub open spec fn spec_net_change(ops: Seq<LedgerOp>) -> int
    decreases ops.len(),
{
    if ops.len() == 0 {
        0
    } else {
        spec_net_change(ops.drop_last()) + match ops.last() {
            LedgerOp::Deposit(x) => x as int,
            LedgerOp::Withdraw(x) => -(x as int),
        }
    }
}

/// After any valid interleaving of deposits and withdraws on one account,
/// that account's balance is its initial balance plus the sum of the
/// deposits minus the sum of the withdraws, and no other account moved.
pub proof fn lemma_ledger_net_change(m: Map<Seq<u8>, u128>, a: Seq<u8>, ops: Seq<LedgerOp>)
    requires
        spec_ops_valid(m, a, ops),
    ensures
        spec_balance(spec_apply_ops(m, a, ops), a) == spec_balance(m, a) + spec_net_change(ops),
        forall|b: Seq<u8>|
            b != a ==> spec_balance(spec_apply_ops(m, a, ops), b) == spec_balance(m, b),
    decreases ops.len(),
{
    if ops.len() > 0 {
        lemma_ledger_net_change(m, a, ops.drop_last());
    }
}

/// The executable ledger store.
pub struct Balances {
    pub ledger: AccountMap<u128>,
}

impl View for Balances {
    type V = Map<Seq<u8>, u128>;

    open spec fn view(&self) -> Map<Seq<u8>, u128> {
        self.ledger@
    }
}

impl Balances {
    pub open spec fn wf(&self) -> bool {
        self.ledger.keys_unique()
    }

    pub fn new() -> (r: Balances)
        ensures
            r.wf(),
            r@ == Map::<Seq<u8>, u128>::empty(),
    {
        Balances { ledger: AccountMap::new() }
    }

    /// The account's balance; an account never seen holds zero.
    pub fn read_account_balance(&self, account: &AccountId) -> (r: u128)
        requires
            self.wf(),
        ensures
            r == spec_balance(self@, account@),
    {
        match self.ledger.get(account) {
            Some(v) => *v,
            None => 0,
        }
    }

    /// Overwrite the account's balance.
    pub fn set_account_balance(&mut self, account: &AccountId, amount: u128)
        requires
            old(self).wf(),
        ensures
            final(self).wf(),
            final(self)@ == old(self)@.insert(account@, amount),
    {
        self.ledger.set(account, amount)
    }
}

} // verus!
