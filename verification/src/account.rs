//! The per-client account state machine.
//!
//! One `Account` together with its private transaction history forms a state
//! machine: each incoming [`Message`] either changes all the fields of one
//! transition together, or none of them. The mathematical transition is
//! [`step`]; the executable [`Account::apply`] is proved to implement it
//! exactly.

use vstd::prelude::*;
use std::collections::HashMap;
use crate::message::Message;

verus! {

broadcast use vstd::std_specs::hash::group_hash_axioms;

/// One remembered deposit, keyed by its transaction id in the account's
/// history, in one of the three states of the dispute lifecycle.
#[derive(Clone, Copy, Debug, PartialEq, Eq, Structural)]
pub enum Transaction {
    Deposited(i64),
    Disputed(i64),
    Reversed(i64),
}

impl Transaction {
    pub open spec fn spec_amount(&self) -> i64 {
        match *self {
            Transaction::Deposited(x) => x,
            Transaction::Disputed(x) => x,
            Transaction::Reversed(x) => x,
        }
    }

    /// Returns `true` if the transaction is [`Deposited`].
    ///
    /// [`Deposited`]: Transaction::Deposited
    #[must_use]
    pub fn is_deposited(&self) -> (b: bool)
        ensures
            b == (*self is Deposited),
    {
        matches!(self, Transaction::Deposited(..))
    }

    /// Returns `true` if the transaction is [`Disputed`].
    ///
    /// [`Disputed`]: Transaction::Disputed
    #[must_use]
    pub fn is_disputed(&self) -> (b: bool)
        ensures
            b == (*self is Disputed),
    {
        matches!(self, Transaction::Disputed(..))
    }

    pub fn amount(&self) -> (a: i64)
        ensures
            a == self.spec_amount(),
    {
        match self {
            Transaction::Deposited(x) => *x,
            Transaction::Disputed(x) => *x,
            Transaction::Reversed(x) => *x,
        }
    }
}

/// Why one message failed. A failed message is discarded and leaves the
/// account exactly as it was; processing continues with the next message.
#[derive(Clone, Copy, Debug, PartialEq, Eq, Structural)]
pub enum ProcessingError {
    /// A withdrawal asked for more than the available balance.
    InsufficientFunds,
    /// The account was locked by an earlier chargeback; every later message
    /// fails with this error.
    AccountLocked,
    /// The transition would take a balance outside the representable range of
    /// minor currency units.
    BalanceOverflow,
}

impl ProcessingError {
    /// The short diagnostic code under which this error is logged.
    pub fn code(&self) -> (s: &'static str)
        ensures
            *self is InsufficientFunds ==> s@ == "PE_INSF"@,
            *self is AccountLocked ==> s@ == "PE_ACCLCK"@,
            *self is BalanceOverflow ==> s@ == "PE_OVRFL"@,
    {
        match self {
            ProcessingError::InsufficientFunds => "PE_INSF",
            ProcessingError::AccountLocked => "PE_ACCLCK",
            ProcessingError::BalanceOverflow => "PE_OVRFL",
        }
    }
}

/// Lifecycle tag of an account whose actor is running; only a running
/// account can apply messages.
#[derive(Debug)]
pub struct Running;

/// Lifecycle tag of a freshly constructed account that has not started yet.
#[derive(Default, Debug)]
pub struct Ready;

/// One client's balances. The lifecycle tag `T` is either [`Ready`] or
/// [`Running`], so that an account can only be started once.
///
/// All balances are integer counts of minor currency units.
#[derive(Debug)]
pub struct Account<T> {
    pub client: u16,
    pub available: i64,
    pub held: i64,
    pub total: i64,
    pub locked: bool,
    pub _state: T,
}

/// The mathematical value of an [`Account`]: its balances over the
/// unbounded integers, with the lifecycle tag erased.
pub ghost struct AccountView {
    pub client: u16,
    pub available: int,
    pub held: int,
    pub total: int,
    pub locked: bool,
}

impl AccountView {
    /// The zero-balance, unlocked account a first deposit creates.
    pub open spec fn initial(client: u16) -> AccountView {
        AccountView { client, available: 0, held: 0, total: 0, locked: false }
    }

    /// The account invariant: spendable and frozen funds add up to the
    /// total.
    pub open spec fn balanced(self) -> bool {
        self.available + self.held == self.total
    }
}

impl<T> View for Account<T> {
    type V = AccountView;

    open spec fn view(&self) -> AccountView {
        AccountView {
            client: self.client,
            available: self.available as int,
            held: self.held as int,
            total: self.total as int,
            locked: self.locked,
        }
    }
}

/// One client's complete state: the account and its transaction history.
pub ghost struct ClientState {
    pub acct: AccountView,
    pub hist: Map<u32, Transaction>,
}

/// What one transition produces: the next state and the per-message result.
pub ghost struct StepOutcome {
    pub state: ClientState,
    pub result: Result<(), ProcessingError>,
}

/// Whether a balance stays representable in minor currency units.
pub open spec fn fits(x: int) -> bool {
    i64::MIN <= x <= i64::MAX
}

/// The transition of the account state machine: what one message does to one
/// account and its history.
///
/// A locked account rejects everything. A deposit always succeeds (while the
/// balances stay representable) and is remembered in the history; a
/// withdrawal requires sufficient available funds. Dispute, resolve and
/// chargeback each look the referenced transaction up in the history and
/// silently do nothing unless it is in the right state; a successful
/// chargeback locks the account for good.
pub open spec fn step(a: AccountView, h: Map<u32, Transaction>, m: Message) -> StepOutcome {
    if a.locked {
        StepOutcome {
            state: ClientState { acct: a, hist: h },
            result: Err(ProcessingError::AccountLocked),
        }
    } else {
        match m {
            Message::Deposit { tx, amount, .. } => {
                if fits(a.available + amount) && fits(a.total + amount) {
                    StepOutcome {
                        state: ClientState {
                            acct: AccountView {
                                available: a.available + amount,
                                total: a.total + amount,
                                ..a
                            },
                            hist: h.insert(tx, Transaction::Deposited(amount)),
                        },
                        result: Ok(()),
                    }
                } else {
                    StepOutcome {
                        state: ClientState { acct: a, hist: h },
                        result: Err(ProcessingError::BalanceOverflow),
                    }
                }
            },
            Message::Withdraw { amount, .. } => {
                if a.available < amount {
                    StepOutcome {
                        state: ClientState { acct: a, hist: h },
                        result: Err(ProcessingError::InsufficientFunds),
                    }
                } else if fits(a.available - amount) && fits(a.total - amount) {
                    StepOutcome {
                        state: ClientState {
                            acct: AccountView {
                                available: a.available - amount,
                                total: a.total - amount,
                                ..a
                            },
                            hist: h,
                        },
                        result: Ok(()),
                    }
                } else {
                    StepOutcome {
                        state: ClientState { acct: a, hist: h },
                        result: Err(ProcessingError::BalanceOverflow),
                    }
                }
            },
            Message::Dispute { tx, .. } => {
                if h.contains_key(tx) && h[tx] is Deposited && a.available >= h[tx].spec_amount() {
                    let amount = h[tx].spec_amount();
                    if fits(a.available - amount) && fits(a.held + amount) {
                        StepOutcome {
                            state: ClientState {
                                acct: AccountView {
                                    available: a.available - amount,
                                    held: a.held + amount,
                                    ..a
                                },
                                hist: h.insert(tx, Transaction::Disputed(amount)),
                            },
                            result: Ok(()),
                        }
                    } else {
                        StepOutcome {
                            state: ClientState { acct: a, hist: h },
                            result: Err(ProcessingError::BalanceOverflow),
                        }
                    }
                } else {
                    StepOutcome { state: ClientState { acct: a, hist: h }, result: Ok(()) }
                }
            },
            Message::Resolve { tx, .. } => {
                if h.contains_key(tx) && h[tx] is Disputed {
                    let amount = h[tx].spec_amount();
                    if fits(a.available + amount) && fits(a.held - amount) {
                        StepOutcome {
                            state: ClientState {
                                acct: AccountView {
                                    available: a.available + amount,
                                    held: a.held - amount,
                                    ..a
                                },
                                hist: h.insert(tx, Transaction::Deposited(amount)),
                            },
                            result: Ok(()),
                        }
                    } else {
                        StepOutcome {
                            state: ClientState { acct: a, hist: h },
                            result: Err(ProcessingError::BalanceOverflow),
                        }
                    }
                } else {
                    StepOutcome { state: ClientState { acct: a, hist: h }, result: Ok(()) }
                }
            },
            Message::Chargeback { tx, .. } => {
                if h.contains_key(tx) && h[tx] is Disputed {
                    let amount = h[tx].spec_amount();
                    if fits(a.held - amount) && fits(a.total - amount) {
                        StepOutcome {
                            state: ClientState {
                                acct: AccountView {
                                    held: a.held - amount,
                                    total: a.total - amount,
                                    locked: true,
                                    ..a
                                },
                                hist: h.insert(tx, Transaction::Reversed(amount)),
                            },
                            result: Ok(()),
                        }
                    } else {
                        StepOutcome {
                            state: ClientState { acct: a, hist: h },
                            result: Err(ProcessingError::BalanceOverflow),
                        }
                    }
                } else {
                    StepOutcome { state: ClientState { acct: a, hist: h }, result: Ok(()) }
                }
            },
        }
    }
}

/// Law: every transition preserves the account invariant
/// `available + held == total`. Together with [`Account::new`], which
/// establishes it, the invariant holds of every reachable account state.
pub proof fn lemma_step_preserves_balance(a: AccountView, h: Map<u32, Transaction>, m: Message)
    requires
        a.balanced(),
    ensures
        step(a, h, m).state.acct.balanced(),
{
}

/// Law: a lock is permanent. No transition ever clears the `locked` flag.
pub proof fn lemma_step_locked_monotonic(a: AccountView, h: Map<u32, Transaction>, m: Message)
    ensures
        a.locked ==> step(a, h, m).state.acct.locked,
{
}

/// Law: once an account is locked, every message whatsoever fails with
/// [`ProcessingError::AccountLocked`] and mutates neither the account nor its
/// history.
pub proof fn lemma_locked_account_rejects_all(a: AccountView, h: Map<u32, Transaction>, m: Message)
    requires
        a.locked,
    ensures
        step(a, h, m).state.acct == a,
        step(a, h, m).state.hist == h,
        step(a, h, m).result == Err::<(), ProcessingError>(ProcessingError::AccountLocked),
{
}

impl Account<Ready> {
    /// A fresh zero-balance, unlocked account for the given client.
    pub fn new(client: u16) -> (account: Account<Ready>)
        ensures
            account@ == AccountView::initial(client),
    {
        Account { client, available: 0, held: 0, total: 0, locked: false, _state: Ready }
    }

    /// Starts the account's lifecycle: hands the balances over to the running
    /// state, in which messages can be applied. Consuming `self` here is what
    /// makes a second start of the same account impossible.
    pub fn into_running(self) -> (account: Account<Running>)
        ensures
            account@ == self@,
    {
        let Account { client, available, held, total, locked, _state } = self;
        Account { client, available, held, total, locked, _state: Running }
    }
}

impl Account<Running> {
    /// Applies one message to this account and its history: exactly the
    /// transition [`step`], atomically. On an `Err` nothing has changed, and
    /// the caller is expected to log the error and continue with the next
    /// message.
    pub fn apply(&mut self, message: &Message, tx_history: &mut HashMap<u32, Transaction>) -> (r:
        Result<(), ProcessingError>)
        ensures
            ({
                let o = step(old(self)@, old(tx_history)@, *message);
                &&& final(self)@ == o.state.acct
                &&& final(tx_history)@ == o.state.hist
                &&& r == o.result
            }),
    {
        if self.locked {
            return Err(ProcessingError::AccountLocked);
        }
        match message {
            Message::Deposit { tx, amount, .. } => {
                let new_available = match self.available.checked_add(*amount) {
                    Some(v) => v,
                    None => return Err(ProcessingError::BalanceOverflow),
                };
                let new_total = match self.total.checked_add(*amount) {
                    Some(v) => v,
                    None => return Err(ProcessingError::BalanceOverflow),
                };
                self.available = new_available;
                self.total = new_total;
                tx_history.insert(*tx, Transaction::Deposited(*amount));
                Ok(())
            },
            Message::Withdraw { amount, .. } => {
                if self.available < *amount {
                    return Err(ProcessingError::InsufficientFunds);
                }
                let new_available = match self.available.checked_sub(*amount) {
                    Some(v) => v,
                    None => return Err(ProcessingError::BalanceOverflow),
                };
                let new_total = match self.total.checked_sub(*amount) {
                    Some(v) => v,
                    None => return Err(ProcessingError::BalanceOverflow),
                };
                self.available = new_available;
                self.total = new_total;
                Ok(())
            },
            Message::Dispute { tx, .. } => {
                let found = match tx_history.get(tx) {
                    Some(t) => Some(*t),
                    None => None,
                };
                match found {
                    Some(Transaction::Deposited(amount)) => {
                        if self.available >= amount {
                            let new_available = match self.available.checked_sub(amount) {
                                Some(v) => v,
                                None => return Err(ProcessingError::BalanceOverflow),
                            };
                            let new_held = match self.held.checked_add(amount) {
                                Some(v) => v,
                                None => return Err(ProcessingError::BalanceOverflow),
                            };
                            self.available = new_available;
                            self.held = new_held;
                            tx_history.insert(*tx, Transaction::Disputed(amount));
                        }
                        Ok(())
                    },
                    _ => Ok(()),
                }
            },
            Message::Resolve { tx, .. } => {
                let found = match tx_history.get(tx) {
                    Some(t) => Some(*t),
                    None => None,
                };
                match found {
                    Some(Transaction::Disputed(amount)) => {
                        let new_available = match self.available.checked_add(amount) {
                            Some(v) => v,
                            None => return Err(ProcessingError::BalanceOverflow),
                        };
                        let new_held = match self.held.checked_sub(amount) {
                            Some(v) => v,
                            None => return Err(ProcessingError::BalanceOverflow),
                        };
                        self.available = new_available;
                        self.held = new_held;
                        tx_history.insert(*tx, Transaction::Deposited(amount));
                        Ok(())
                    },
                    _ => Ok(()),
                }
            },
            Message::Chargeback { tx, .. } => {
                let found = match tx_history.get(tx) {
                    Some(t) => Some(*t),
                    None => None,
                };
                match found {
                    Some(Transaction::Disputed(amount)) => {
                        let new_held = match self.held.checked_sub(amount) {
                            Some(v) => v,
                            None => return Err(ProcessingError::BalanceOverflow),
                        };
                        let new_total = match self.total.checked_sub(amount) {
                            Some(v) => v,
                            None => return Err(ProcessingError::BalanceOverflow),
                        };
                        self.held = new_held;
                        self.total = new_total;
                        self.locked = true;
                        tx_history.insert(*tx, Transaction::Reversed(amount));
                        Ok(())
                    },
                    _ => Ok(()),
                }
            },
        }
    }
}

} // verus!
