//! The transaction log: one immutable record for every change of a balance.

use vstd::prelude::*;
use vstd::std_specs::cmp::PartialEqSpecImpl;
use crate::bank::stock::Asset;

verus! {

/// What a transaction did, as the ledger's rules see it.
pub ghost enum TransactionKind {
    Deposit,
    Withdraw,
    Sale(Seq<char>, int),
    Purchase(Seq<char>, int),
    Dividend(Seq<char>, int),
}

/// What a transaction did.
#[derive(Debug)]
pub enum TransactionType {
    /// Cash paid into the account.
    Deposit,
    /// Cash taken out of the account.
    Withdraw,
    /// A sale of the given number of units of an asset.
    Sale(Asset, u64),
    /// A purchase of the given number of units of an asset.
    Purchase(Asset, u64),
    /// A dividend paid on the given number of units of an asset.
    Dividend(Asset, u64),
}

impl View for TransactionType {
    type V = TransactionKind;

    open spec fn view(&self) -> TransactionKind {
        match self {
            TransactionType::Deposit => TransactionKind::Deposit,
            TransactionType::Withdraw => TransactionKind::Withdraw,
            TransactionType::Sale(asset, quantity) => TransactionKind::Sale(asset@, *quantity as int),
            TransactionType::Purchase(asset, quantity) => TransactionKind::Purchase(
                asset@,
                *quantity as int,
            ),
            TransactionType::Dividend(asset, quantity) => TransactionKind::Dividend(
                asset@,
                *quantity as int,
            ),
        }
    }
}

impl Clone for TransactionType {
    fn clone(&self) -> (copy: Self)
        ensures
            copy == *self,
    {
        match self {
            TransactionType::Deposit => TransactionType::Deposit,
            TransactionType::Withdraw => TransactionType::Withdraw,
            TransactionType::Sale(asset, quantity) => TransactionType::Sale(asset.clone(), *quantity),
            TransactionType::Purchase(asset, quantity) => TransactionType::Purchase(
                asset.clone(),
                *quantity,
            ),
            TransactionType::Dividend(asset, quantity) => TransactionType::Dividend(
                asset.clone(),
                *quantity,
            ),
        }
    }
}

impl PartialEq for TransactionType {
    /// Two kinds are equal when they name the same event: the same variant,
    /// and for a trade or a dividend the same symbol and number of units.
    fn eq(&self, other: &Self) -> (same: bool) {
        match (self, other) {
            (TransactionType::Deposit, TransactionType::Deposit) => true,
            (TransactionType::Withdraw, TransactionType::Withdraw) => true,
            (TransactionType::Sale(a1, q1), TransactionType::Sale(a2, q2)) => a1.symbol == a2.symbol
                && *q1 == *q2,
            (TransactionType::Purchase(a1, q1), TransactionType::Purchase(a2, q2)) => a1.symbol
                == a2.symbol && *q1 == *q2,
            (TransactionType::Dividend(a1, q1), TransactionType::Dividend(a2, q2)) => a1.symbol
                == a2.symbol && *q1 == *q2,
            _ => false,
        }
    }
}

impl PartialEqSpecImpl for TransactionType {
    open spec fn obeys_eq_spec() -> bool {
        true
    }

    open spec fn eq_spec(&self, other: &Self) -> bool {
        self@ == other@
    }
}

/// A transaction as the ledger's rules see it.
pub ghost struct TransactionView {
    pub kind: TransactionKind,
    pub amount: int,
    pub date: int,
    pub description: Option<Seq<char>>,
}

impl TransactionView {
    /// The signed change that the transaction made to the cash balance: money
    /// comes in with a deposit, a sale or a dividend, and leaves with a
    /// withdrawal or a purchase.
    pub open spec fn cash_effect(self) -> int {
        match self.kind {
            TransactionKind::Deposit => self.amount,
            TransactionKind::Withdraw => -self.amount,
            TransactionKind::Sale(_, _) => self.amount,
            TransactionKind::Purchase(_, _) => -self.amount,
            TransactionKind::Dividend(_, _) => self.amount,
        }
    }
}

/// The text of an optional string.
pub open spec fn text_of(text: Option<String>) -> Option<Seq<char>> {
    match text {
        Some(s) => Some(s@),
        None => None,
    }
}

/// One entry of an account's log.
#[derive(Debug)]
pub struct Transaction {
    /// What happened.
    pub transaction_type: TransactionType,
    /// The amount of cash that moved, unsigned; the kind gives the direction.
    pub amount: u64,
    /// When it happened, in seconds since 1970-01-01T00:00:00Z.
    pub date: i64,
    /// A free-form note.
    pub description: Option<String>,
}

impl View for Transaction {
    type V = TransactionView;

    open spec fn view(&self) -> TransactionView {
        TransactionView {
            kind: self.transaction_type@,
            amount: self.amount as int,
            date: self.date as int,
            description: text_of(self.description),
        }
    }
}

impl Clone for Transaction {
    fn clone(&self) -> (copy: Self)
        ensures
            copy == *self,
    {
        Transaction {
            transaction_type: self.transaction_type.clone(),
            amount: self.amount,
            date: self.date,
            description: match &self.description {
                Some(text) => Some(text.clone()),
                None => None,
            },
        }
    }
}

impl Transaction {
    /// A log entry with the given fields.
    pub fn new(
        transaction_type: TransactionType,
        amount: u64,
        date: i64,
        description: Option<String>,
    ) -> (transaction: Self)
        ensures
            transaction.transaction_type == transaction_type,
            transaction.amount == amount,
            transaction.date == date,
            transaction.description == description,
    {
        Transaction {
            transaction_type: transaction_type,
            amount: amount,
            date: date,
            description: description,
        }
    }
}

/// The log entries of `log`, each as the rules see it.
pub open spec fn log_view(log: Seq<Transaction>) -> Seq<TransactionView> {
    Seq::new(log.len(), |i: int| log[i]@)
}

/// The sum of the signed cash effects of the entries of `log`.
pub open spec fn ledger_total(log: Seq<TransactionView>) -> int
    decreases log.len(),
{
    if log.len() == 0 {
        0
    } else {
        ledger_total(log.drop_last()) + log.last().cash_effect()
    }
}

/// Appending an entry to a log adds its cash effect to the log's total.
pub proof fn lemma_total_of_push(log: Seq<TransactionView>, entry: TransactionView)
    ensures
        ledger_total(log.push(entry)) == ledger_total(log) + entry.cash_effect(),
{
    assert(log.push(entry).drop_last() =~= log);
}

} // verus!
