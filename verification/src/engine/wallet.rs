//! The ledger of a run: a balance, and the part of it reserved for pending orders.

use vstd::prelude::*;
use crate::errors::Error;

verus! {

/// The mathematical content of a [`Wallet`].
pub struct WalletView {
    /// The balance the wallet was created with.
    pub initial: int,
    /// The funds the wallet holds.
    pub balance: int,
    /// The part of the balance reserved for pending orders.
    pub locked: int,
}

/// One of the four operations that change a wallet, with its amount.
pub enum WalletOp {
    /// Reserve the amount for a pending order.
    Lock(int),
    /// Release the amount reserved for a pending order.
    Unlock(int),
    /// Spend the amount out of what was reserved.
    Sub(int),
    /// Credit the amount to the balance.
    Add(int),
}

impl WalletView {
    /// The balance is representable, and the free balance and the locked funds
    /// are not negative.
    pub open spec fn wf(self) -> bool {
        &&& 0 < self.initial <= i128::MAX
        &&& 0 <= self.locked <= self.balance <= i128::MAX
    }

    /// The funds available for new orders.
    pub open spec fn free(self) -> int {
        self.balance - self.locked
    }

    /// The wallet that `op` aims for, whether or not it is acceptable.
    pub open spec fn target(self, op: WalletOp) -> WalletView {
        match op {
            WalletOp::Lock(a) => WalletView { locked: self.locked + a, ..self },
            WalletOp::Unlock(a) => WalletView { locked: self.locked - a, ..self },
            WalletOp::Sub(a) => WalletView {
                balance: self.balance - a,
                locked: self.locked - a,
                ..self
            },
            WalletOp::Add(a) => WalletView { balance: self.balance + a, ..self },
        }
    }

    /// `op` would leave the locked funds or the free balance negative.
    pub open spec fn underfunds(self, op: WalletOp) -> bool {
        let t = self.target(op);
        t.locked < 0 || t.balance < t.locked
    }

    /// `op` is carried out: it neither underfunds the wallet nor takes the
    /// balance out of range.
    pub open spec fn accepts(self, op: WalletOp) -> bool {
        !self.underfunds(op) && self.target(op).balance <= i128::MAX
    }

    /// The wallet after `op`: its target if it is accepted, the wallet itself
    /// if it is rejected.
    pub open spec fn apply(self, op: WalletOp) -> WalletView {
        if self.accepts(op) {
            self.target(op)
        } else {
            self
        }
    }

    /// The wallet after each of `ops` in turn, the rejected ones skipped.
    pub open spec fn apply_all(self, ops: Seq<WalletOp>) -> WalletView
        decreases ops.len(),
    {
        if ops.len() == 0 {
            self
        } else {
            self.apply_all(ops.drop_last()).apply(ops.last())
        }
    }

    /// What `op` returns: the new free balance, or the reason of the rejection.
    pub open spec fn outcome(self, op: WalletOp) -> Result<int, Error> {
        if self.underfunds(op) {
            Err(Error::NegZeroBalance)
        } else if self.target(op).balance > i128::MAX {
            Err(Error::Overflow)
        } else {
            Ok(self.target(op).free())
        }
    }
}

/// An operation that is rejected leaves the wallet as it was, and an
/// operation is rejected exactly when it returns an error.
pub proof fn lemma_rejection_changes_nothing(wallet: WalletView, op: WalletOp)
    ensures
        !wallet.accepts(op) ==> wallet.apply(op) == wallet,
        wallet.outcome(op) is Err <==> !wallet.accepts(op),
        wallet.outcome(op) is Ok ==> wallet.outcome(op) == Ok::<int, Error>(
            wallet.apply(op).free(),
        ),
{
}

/// Whatever operations a sound wallet goes through, it stays sound: its free
/// balance is its balance less its locked funds, and neither the free balance
/// nor the locked funds are ever negative.
pub proof fn lemma_wallet_invariant(wallet: WalletView, ops: Seq<WalletOp>)
    requires
        wallet.wf(),
    ensures
        wallet.apply_all(ops).wf(),
        wallet.apply_all(ops).free() == wallet.apply_all(ops).balance - wallet.apply_all(
            ops,
        ).locked,
        wallet.apply_all(ops).free() >= 0,
        wallet.apply_all(ops).locked >= 0,
        wallet.apply_all(ops).initial == wallet.initial,
    decreases ops.len(),
{
    if ops.len() > 0 {
        lemma_wallet_invariant(wallet, ops.drop_last());
    }
}

/// What an operation returned, with the free balance as a mathematical integer.
pub open spec fn as_outcome(r: Result<i128, Error>) -> Result<int, Error> {
    match r {
        Ok(free) => Ok(free as int),
        Err(e) => Err(e),
    }
}

/// Represents a trading wallet with balance and locked funds management.
#[derive(Debug)]
pub struct Wallet {
    initial_balance: i128,
    balance: i128,
    locked: i128,
}

impl View for Wallet {
    type V = WalletView;

    closed spec fn view(&self) -> WalletView {
        WalletView {
            initial: self.initial_balance as int,
            balance: self.balance as int,
            locked: self.locked as int,
        }
    }
}

impl Wallet {
    #[verifier::type_invariant]
    spec fn inv(self) -> bool {
        self@.wf()
    }

    /// Creates a new wallet with the given initial balance, which must be positive.
    pub fn new(balance: i128) -> (r: Result<Self, Error>)
        ensures
            balance <= 0 ==> r == Err::<Self, Error>(Error::NegZeroBalance),
            balance > 0 ==> r is Ok && r->Ok_0@ == (WalletView {
                initial: balance as int,
                balance: balance as int,
                locked: 0,
            }),
    {
        if balance <= 0 {
            return Err(Error::NegZeroBalance);
        }
        Ok(Self { initial_balance: balance, balance, locked: 0 })
    }

    /// Returns the balance.
    pub fn balance(&self) -> (r: i128)
        ensures
            r == self@.balance,
    {
        self.balance
    }

    /// Returns the funds locked for pending orders.
    pub fn locked(&self) -> (r: i128)
        ensures
            r == self@.locked,
    {
        self.locked
    }

    /// Returns the free balance (available for new trades).
    pub fn free_balance(&self) -> (r: Result<i128, Error>)
        ensures
            r == Ok::<i128, Error>((self@.balance - self@.locked) as i128),
            0 <= self@.balance - self@.locked <= i128::MAX,
    {
        proof {
            use_type_invariant(self);
        }
        Ok(self.balance - self.locked)
    }

    /// Locks additional funds for a pending order.
    pub fn lock(&mut self, amount: i128) -> (r: Result<i128, Error>)
        ensures
            final(self)@ == old(self)@.apply(WalletOp::Lock(amount as int)),
            as_outcome(r) == old(self)@.outcome(WalletOp::Lock(amount as int)),
    {
        proof {
            use_type_invariant(&*self);
        }
        let free = self.balance - self.locked;
        if amount > free || amount < -self.locked {
            return Err(Error::NegZeroBalance);
        }
        self.locked = self.locked + amount;
        Ok(free - amount)
    }

    /// Unlocks funds when a pending order is cancelled.
    pub fn unlock(&mut self, amount: i128) -> (r: Result<i128, Error>)
        ensures
            final(self)@ == old(self)@.apply(WalletOp::Unlock(amount as int)),
            as_outcome(r) == old(self)@.outcome(WalletOp::Unlock(amount as int)),
    {
        proof {
            use_type_invariant(&*self);
        }
        let free = self.balance - self.locked;
        if amount > self.locked || amount < -free {
            return Err(Error::NegZeroBalance);
        }
        self.locked = self.locked - amount;
        Ok(free + amount)
    }

    /// Adds funds to the wallet.
    pub fn add(&mut self, amount: i128) -> (r: Result<i128, Error>)
        ensures
            final(self)@ == old(self)@.apply(WalletOp::Add(amount as int)),
            as_outcome(r) == old(self)@.outcome(WalletOp::Add(amount as int)),
    {
        proof {
            use_type_invariant(&*self);
        }
        let free = self.balance - self.locked;
        if amount < -free {
            return Err(Error::NegZeroBalance);
        }
        match self.balance.checked_add(amount) {
            None => Err(Error::Overflow),
            Some(balance) => {
                self.balance = balance;
                Ok(balance - self.locked)
            },
        }
    }

    /// Resets the wallet to its initial balance, with nothing locked.
    pub fn reset(&mut self)
        ensures
            final(self)@ == (WalletView {
                initial: old(self)@.initial,
                balance: old(self)@.initial,
                locked: 0,
            }),
    {
        proof {
            use_type_invariant(&*self);
        }
        *self = Wallet {
            initial_balance: self.initial_balance,
            balance: self.initial_balance,
            locked: 0,
        };
    }

    /// A wallet that stands in for another while that one is being changed.
    pub(crate) fn placeholder() -> (r: Self)
        ensures
            r@ == (WalletView { initial: 1, balance: 1, locked: 0 }),
    {
        Wallet { initial_balance: 1, balance: 1, locked: 0 }
    }

    /// Subtracts funds from the balance and from the locked funds, when an
    /// order is executed.
    pub fn sub(&mut self, amount: i128) -> (r: Result<i128, Error>)
        ensures
            final(self)@ == old(self)@.apply(WalletOp::Sub(amount as int)),
            as_outcome(r) == old(self)@.outcome(WalletOp::Sub(amount as int)),
    {
        proof {
            use_type_invariant(&*self);
        }
        if amount > self.locked {
            return Err(Error::NegZeroBalance);
        }
        let free = self.balance - self.locked;
        match self.balance.checked_sub(amount) {
            None => Err(Error::Overflow),
            Some(balance) => {
                *self = Wallet {
                    initial_balance: self.initial_balance,
                    balance,
                    locked: balance - free,
                };
                Ok(free)
            },
        }
    }
}

} // verus!
