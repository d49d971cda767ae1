//! The failures that ledger and broker operations report.

use vstd::prelude::*;
use vstd::string::StringExecFns;

verus! {

/// Why an operation was refused. No refused operation changes any state.
#[derive(Debug)]
pub enum BankError {
    /// No account is registered under the given id.
    AccountNotFound,
    /// An account is already registered under the given id.
    AccountAlreadyExists,
    /// The cash balance does not cover the amount.
    InsufficientFunds,
    /// The account still holds cash and cannot be closed.
    CloseAccountWithBalance,
    /// The account holds fewer units of the asset than were asked for.
    InsufficientQuantity,
    /// No quoted price exists at or before the requested instant.
    PriceUnavailable,
    /// The instant falls outside the asset's trading hours.
    MarketClosed,
    /// The market data provider failed; the text is its own report.
    UpstreamProviderError(String),
    /// Stored state could not be read or written; the text says why.
    PersistenceError(String),
    /// Any other failure, described by the text.
    Other(String),
}

impl BankError {
    /// The text shown for an error: a fixed sentence for each kind, followed
    /// by the carried report where there is one.
    pub open spec fn message_text(self) -> Seq<char> {
        match self {
            BankError::AccountNotFound => "Account not found"@,
            BankError::AccountAlreadyExists => "Account already exists"@,
            BankError::InsufficientFunds => "Insufficient funds"@,
            BankError::CloseAccountWithBalance => "Cannot close account with balance"@,
            BankError::InsufficientQuantity => "Insufficient quantity of investment"@,
            BankError::PriceUnavailable => "Cannot find price"@,
            BankError::MarketClosed => "Market is closed"@,
            BankError::UpstreamProviderError(report) => "Provider error: "@ + report@,
            BankError::PersistenceError(report) => "Persistence error: "@ + report@,
            BankError::Other(report) => "Other error: "@ + report@,
        }
    }

    /// Renders the error as text.
    pub fn message(&self) -> (text: String)
        ensures
            text@ == self.message_text(),
    {
        match self {
            BankError::AccountNotFound => String::from_str("Account not found"),
            BankError::AccountAlreadyExists => String::from_str("Account already exists"),
            BankError::InsufficientFunds => String::from_str("Insufficient funds"),
            BankError::CloseAccountWithBalance => String::from_str(
                "Cannot close account with balance",
            ),
            BankError::InsufficientQuantity => String::from_str(
                "Insufficient quantity of investment",
            ),
            BankError::PriceUnavailable => String::from_str("Cannot find price"),
            BankError::MarketClosed => String::from_str("Market is closed"),
            BankError::UpstreamProviderError(report) => String::from_str("Provider error: ").concat(
                report.as_str(),
            ),
            BankError::PersistenceError(report) => String::from_str("Persistence error: ").concat(
                report.as_str(),
            ),
            BankError::Other(report) => String::from_str("Other error: ").concat(report.as_str()),
        }
    }
}

} // verus!
