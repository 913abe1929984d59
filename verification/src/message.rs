//! The event type carried from the input stream to the per-client accounts.

use vstd::prelude::*;

verus! {

/// One validated event of the input stream.
///
/// Every variant names the client whose account it concerns and a transaction
/// id. Deposits and withdrawals additionally carry an amount, counted in minor
/// currency units. A `Message` is immutable once constructed.
#[derive(Clone, Copy, Debug, PartialEq, Eq, Structural)]
pub enum Message {
    Deposit { client: u16, tx: u32, amount: i64 },
    Withdraw { client: u16, tx: u32, amount: i64 },
    Dispute { client: u16, tx: u32 },
    Resolve { client: u16, tx: u32 },
    Chargeback { client: u16, tx: u32 },
}

impl Message {
    /// The client id carried by any message.
    pub open spec fn spec_client_id(&self) -> u16 {
        match *self {
            Message::Deposit { client, .. } => client,
            Message::Withdraw { client, .. } => client,
            Message::Dispute { client, .. } => client,
            Message::Resolve { client, .. } => client,
            Message::Chargeback { client, .. } => client,
        }
    }

    /// The transaction id carried by any message.
    pub open spec fn spec_transaction_id(&self) -> u32 {
        match *self {
            Message::Deposit { tx, .. } => tx,
            Message::Withdraw { tx, .. } => tx,
            Message::Dispute { tx, .. } => tx,
            Message::Resolve { tx, .. } => tx,
            Message::Chargeback { tx, .. } => tx,
        }
    }

    pub fn client_id(&self) -> (client: u16)
        ensures
            client == self.spec_client_id(),
    {
        match self {
            Message::Deposit { client, .. } => *client,
            Message::Withdraw { client, .. } => *client,
            Message::Dispute { client, .. } => *client,
            Message::Resolve { client, .. } => *client,
            Message::Chargeback { client, .. } => *client,
        }
    }

    pub fn transaction_id(&self) -> (tx: u32)
        ensures
            tx == self.spec_transaction_id(),
    {
        match self {
            Message::Deposit { tx, .. } => *tx,
            Message::Withdraw { tx, .. } => *tx,
            Message::Dispute { tx, .. } => *tx,
            Message::Resolve { tx, .. } => *tx,
            Message::Chargeback { tx, .. } => *tx,
        }
    }

    /// Returns `true` if the message is [`Deposit`].
    ///
    /// [`Deposit`]: Message::Deposit
    #[must_use]
    pub fn is_deposit(&self) -> (b: bool)
        ensures
            b == (*self is Deposit),
    {
        matches!(self, Message::Deposit { .. })
    }

    /// The message, if any, that a raw input record of the given shape
    /// validates to. Only the five known kinds are accepted, and an amount
    /// must be present exactly on deposits and withdrawals.
    pub open spec fn spec_validate(
        kind: Seq<char>,
        client: u16,
        tx: u32,
        amount: Option<i64>,
    ) -> Option<Message> {
        if kind == "deposit"@ {
            match amount {
                Some(amount) => Some(Message::Deposit { client, tx, amount }),
                None => None,
            }
        } else if kind == "withdrawal"@ {
            match amount {
                Some(amount) => Some(Message::Withdraw { client, tx, amount }),
                None => None,
            }
        } else if kind == "dispute"@ && amount is None {
            Some(Message::Dispute { client, tx })
        } else if kind == "resolve"@ && amount is None {
            Some(Message::Resolve { client, tx })
        } else if kind == "chargeback"@ && amount is None {
            Some(Message::Chargeback { client, tx })
        } else {
            None
        }
    }

    /// Validates one raw input record, already split into its fields, into a
    /// `Message`. Returns `None` for an unknown kind and for an invalid
    /// kind/amount combination (an amount on a dispute, a deposit without
    /// one).
    pub fn try_new(kind: &str, client: u16, tx: u32, amount: Option<i64>) -> (r: Option<Message>)
        ensures
            r == Message::spec_validate(kind@, client, tx, amount),
    {
        let kind = kind.to_owned();
        if kind == "deposit".to_owned() {
            match amount {
                Some(amount) => Some(Message::Deposit { client, tx, amount }),
                None => None,
            }
        } else if kind == "withdrawal".to_owned() {
            match amount {
                Some(amount) => Some(Message::Withdraw { client, tx, amount }),
                None => None,
            }
        } else if kind == "dispute".to_owned() && amount.is_none() {
            Some(Message::Dispute { client, tx })
        } else if kind == "resolve".to_owned() && amount.is_none() {
            Some(Message::Resolve { client, tx })
        } else if kind == "chargeback".to_owned() && amount.is_none() {
            Some(Message::Chargeback { client, tx })
        } else {
            None
        }
    }
}

} // verus!
