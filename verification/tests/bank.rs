use std::collections::HashMap;
use trading_simulator::bank::accounts::{Account, AccountType, CheckingAccount, InvestmentAccount};
use trading_simulator::bank::error::BankError;
use trading_simulator::bank::stock::{Asset, Dividend, Holding};
use trading_simulator::bank::transactions::{Transaction, TransactionType};
use trading_simulator::bank::Bank;

#[test]
fn test_bank() {
    let mut bank = Bank::empty();
    let id = bank.open_account(None, AccountType::Checking).unwrap();
    let account = bank.get_checking_account(id).unwrap();
    assert_eq!(account.get_id(), id);
    assert_eq!(account.get_balance(), 0);
    assert_eq!(account.get_nickname(), None);
}

#[test]
fn test_close_account() {
    let mut bank = Bank::empty();
    let id = bank.open_account(None, AccountType::Checking).unwrap();
    assert!(bank.close_account(id).is_ok());
    assert!(bank.close_account(id).is_err());

    let id = bank.open_account(None, AccountType::Checking).unwrap();
    let account = bank.get_checking_account_mut(id).unwrap();
    account.deposit(10);
    assert!(bank.close_account(id).is_err());
}

#[test]
fn closing_reports_why_it_failed() {
    let mut bank = Bank::empty();
    assert!(matches!(bank.close_account(1), Err(BankError::AccountNotFound)));
    let id = bank.open_account_at(None, AccountType::Checking, 5).unwrap();
    bank.get_checking_account_mut(id).unwrap().deposit_at(1, 6);
    assert!(matches!(bank.close_account(id), Err(BankError::CloseAccountWithBalance)));
    assert_eq!(bank.get_checking_accounts().len(), 1);
    bank.get_checking_account_mut(id).unwrap().withdraw_at(1, 7).unwrap();
    assert!(bank.close_account(id).is_ok());
    assert_eq!(bank.get_checking_accounts().len(), 0);
    assert!(matches!(bank.get_checking_account(id), Err(BankError::AccountNotFound)));
}

#[test]
fn ids_count_up_in_each_registry() {
    let mut bank = Bank::empty();
    assert_eq!(bank.open_account_at(None, AccountType::Checking, 0).unwrap(), 1);
    assert_eq!(bank.open_account_at(None, AccountType::Checking, 0).unwrap(), 2);
    assert_eq!(bank.open_account_at(None, AccountType::Investment, 0).unwrap(), 1);
    assert_eq!(bank.open_account_at(None, AccountType::Checking, 0).unwrap(), 3);
    bank.close_account(2).unwrap();
    assert_eq!(bank.open_account_at(None, AccountType::Checking, 0).unwrap(), 4);
    bank.close_account(4).unwrap();
    bank.close_account(3).unwrap();
    assert_eq!(bank.open_account_at(None, AccountType::Checking, 0).unwrap(), 2);
    assert_eq!(bank.get_investment_accounts().len(), 1);
    let mut ids = bank.get_investment_account_ids();
    ids.sort();
    assert_eq!(ids, vec![1]);
}

#[test]
fn opened_accounts_are_empty_and_keep_their_nickname() {
    let mut bank = Bank::empty();
    let id = bank.open_account_at(Some("Investment".to_string()), AccountType::Investment, 42).unwrap();
    let account = bank.get_investment_account(id).unwrap();
    assert_eq!(account.get_id(), id);
    assert_eq!(account.get_balance(), 0);
    assert_eq!(account.get_nickname(), Some("Investment".to_string()));
    assert_eq!(account.get_created_at(), 42);
    assert_eq!(account.get_account_type(), AccountType::Investment);
    assert_eq!(account.get_investments().len(), 0);
    assert!(matches!(bank.get_investment_account(id + 1), Err(BankError::AccountNotFound)));
    assert!(matches!(bank.get_investment_account_mut(id + 1), Err(BankError::AccountNotFound)));
    assert!(matches!(bank.get_checking_account_mut(id), Err(BankError::AccountNotFound)));
}

#[test]
fn bank_from_accounts_keeps_them() {
    let mut accounts = HashMap::new();
    accounts.insert(7, CheckingAccount::new_at(7, 30, None, 1));
    let mut bank = Bank::new(accounts);
    assert_eq!(bank.get_checking_account(7).unwrap().get_balance(), 30);
    assert_eq!(bank.get_investment_accounts().len(), 0);
    assert_eq!(bank.open_account_at(None, AccountType::Checking, 2).unwrap(), 8);
}

#[test]
fn complex_bank_state() {
    let mut bank = Bank::empty();
    let id = bank.open_account(Some("Nickname".to_string()), AccountType::Checking).unwrap();
    let account = bank.get_checking_account_mut(id).unwrap();
    account.deposit(10);
    assert_eq!(account.get_balance(), 10);
    let id2 = bank.open_account(Some("Nickname2".to_string()), AccountType::Checking).unwrap();
    let account = bank.get_checking_account_mut(id2).unwrap();
    account.deposit(20);
    assert_eq!(account.get_balance(), 20);
    let id3 = bank.open_account(Some("Investment".to_string()), AccountType::Investment).unwrap();
    let account = bank.get_investment_account_mut(id3).unwrap();
    account.deposit(40);
    assert_eq!(account.get_balance(), 40);
    account.purchase_investment("AAPL".to_string(), 10, 2).unwrap();
    assert_eq!(account.get_balance(), 20);
    assert_eq!(account.get_investments().len(), 1);
    account.purchase_investment("GOOGL".to_string(), 20, 1).unwrap();
    assert_eq!(account.get_balance(), 0);
    assert_eq!(account.get_investments().len(), 2);

    assert_eq!(bank.get_checking_accounts().len(), 2);
    assert_eq!(bank.get_checking_account(id).unwrap().get_balance(), 10);
    assert_eq!(bank.get_checking_account(id2).unwrap().get_balance(), 20);
    let account = bank.get_investment_account(id3).unwrap();
    assert_eq!(account.get_holding("AAPL").unwrap().quantity, 2);
    assert_eq!(account.get_holding("AAPL").unwrap().average_cost_per_unit, 10);
    assert_eq!(account.get_holding("GOOGL").unwrap().quantity, 1);
    assert_eq!(account.get_holding("GOOGL").unwrap().average_cost_per_unit, 20);
}

#[test]
fn assets_holdings_and_records_keep_what_they_are_given() {
    let asset = Asset::new("AAPL".to_string());
    assert_eq!(asset.get_symbol(), "AAPL");
    assert_eq!(asset.clone().symbol, "AAPL");
    let holding = Holding::new(12, 3, "MSFT".to_string());
    assert_eq!(holding.get_price(), 12);
    assert_eq!(holding.get_quantity(), 3);
    assert_eq!(holding.get_symbol(), "MSFT");
    let dividend = Dividend::new(24, Asset::new("KO".to_string()), 19_000);
    assert_eq!(dividend.amount, 24);
    assert_eq!(dividend.asset.symbol, "KO");
    assert_eq!(dividend.date, 19_000);
    let record = Transaction::new(TransactionType::Deposit, 5, 9, Some("note".to_string()));
    assert!(record.transaction_type == TransactionType::Deposit);
    assert_eq!(record.amount, 5);
    assert_eq!(record.date, 9);
    assert_eq!(record.clone().description, Some("note".to_string()));
}

#[test]
fn transaction_kinds_compare_by_symbol_and_quantity() {
    let sale = TransactionType::Sale(Asset::new("A".to_string()), 2);
    assert!(sale == TransactionType::Sale(Asset::new("A".to_string()), 2));
    assert!(sale != TransactionType::Sale(Asset::new("A".to_string()), 3));
    assert!(sale != TransactionType::Sale(Asset::new("B".to_string()), 2));
    assert!(sale != TransactionType::Purchase(Asset::new("A".to_string()), 2));
    assert!(TransactionType::Deposit != TransactionType::Withdraw);
    assert!(
        TransactionType::Dividend(Asset::new("A".to_string()), 2)
            == TransactionType::Dividend(Asset::new("A".to_string()), 2)
    );
}

#[test]
fn errors_have_their_messages() {
    assert_eq!(BankError::AccountNotFound.message(), "Account not found");
    assert_eq!(BankError::AccountAlreadyExists.message(), "Account already exists");
    assert_eq!(BankError::InsufficientFunds.message(), "Insufficient funds");
    assert_eq!(BankError::CloseAccountWithBalance.message(), "Cannot close account with balance");
    assert_eq!(BankError::InsufficientQuantity.message(), "Insufficient quantity of investment");
    assert_eq!(BankError::PriceUnavailable.message(), "Cannot find price");
    assert_eq!(BankError::MarketClosed.message(), "Market is closed");
    assert_eq!(BankError::UpstreamProviderError("down".to_string()).message(), "Provider error: down");
    assert_eq!(BankError::PersistenceError("disk".to_string()).message(), "Persistence error: disk");
    assert_eq!(BankError::Other("odd".to_string()).message(), "Other error: odd");
}

#[test]
fn bank_from_a_map_of_accounts() {
    let mut accounts = HashMap::new();
    accounts.insert(2, CheckingAccount::new_at(2, 5, Some("Two".to_string()), 1));
    let bank = Bank::from(accounts);
    assert_eq!(bank.get_checking_accounts().len(), 1);
    assert_eq!(bank.get_checking_account(2).unwrap().get_nickname(), Some("Two".to_string()));
    assert_eq!(bank.get_investment_accounts().len(), 0);
}

#[test]
fn closing_an_investment_account_looks_at_its_cash_only() {
    let mut bank = Bank::empty();
    assert!(matches!(bank.close_investment_account(1), Err(BankError::AccountNotFound)));
    let id = bank.open_account_at(None, AccountType::Investment, 0).unwrap();
    let account = bank.get_investment_account_mut(id).unwrap();
    account.deposit_at(10, 1);
    account.purchase_investment_at("A".to_string(), 2, 4, 2).unwrap();
    assert!(matches!(
        bank.close_investment_account(id),
        Err(BankError::CloseAccountWithBalance)
    ));
    bank.get_investment_account_mut(id).unwrap().withdraw_at(2, 3).unwrap();
    assert!(bank.close_investment_account(id).is_ok());
    assert_eq!(bank.get_investment_accounts().len(), 0);
    assert!(matches!(bank.close_investment_account(id), Err(BankError::AccountNotFound)));
}

#[test]
fn accounts_are_put_together_from_their_parts() {
    let log = vec![Transaction::new(TransactionType::Deposit, 5, 9, None)];
    let account = CheckingAccount::from_parts(4, 5, Some("Four".to_string()), 8, log.clone());
    assert_eq!(account.get_id(), 4);
    assert_eq!(account.get_balance(), 5);
    assert_eq!(account.get_created_at(), 8);
    assert_eq!(account.get_transactions().len(), 1);

    let held = vec![Holding::new(3, 2, "A".to_string()), Holding::new(4, 1, "B".to_string())];
    assert!(InvestmentAccount::holdings_valid(&held));
    let account = InvestmentAccount::from_parts(6, 7, None, 8, held, log.clone()).unwrap();
    assert_eq!(account.get_id(), 6);
    assert_eq!(account.get_balance(), 7);
    assert_eq!(account.get_holding("B").unwrap().average_cost_per_unit, 4);
    assert_eq!(account.get_transactions()[0].amount, 5);

    let twice = vec![Holding::new(3, 2, "A".to_string()), Holding::new(4, 1, "A".to_string())];
    assert!(!InvestmentAccount::holdings_valid(&twice));
    assert!(InvestmentAccount::from_parts(6, 7, None, 8, twice, Vec::new()).is_none());
    let empty = vec![Holding::new(3, 0, "A".to_string())];
    assert!(!InvestmentAccount::holdings_valid(&empty));
    assert!(InvestmentAccount::from_parts(6, 7, None, 8, empty, Vec::new()).is_none());
    assert!(InvestmentAccount::holdings_valid(&Vec::new()));

    let mut checking = HashMap::new();
    checking.insert(4, account_with(4, 1));
    let mut investment = HashMap::new();
    investment.insert(6, account);
    let bank = Bank::from_accounts(checking, investment);
    assert_eq!(bank.get_checking_account(4).unwrap().get_balance(), 1);
    assert_eq!(bank.get_investment_account(6).unwrap().get_balance(), 7);
}

fn account_with(id: u32, balance: u64) -> CheckingAccount {
    CheckingAccount::new_at(id, balance, None, 0)
}

#[test]
fn an_entry_added_by_hand_moves_the_balance_by_its_effect() {
    let mut bank = Bank::empty();
    let id = bank.open_account_at(None, AccountType::Investment, 0).unwrap();
    let account = bank.get_investment_account_mut(id).unwrap();
    account.add_transaction(Transaction::new(TransactionType::Deposit, 50, 1, None));
    account.add_transaction(Transaction::new(
        TransactionType::Dividend(Asset::new("A".to_string()), 3),
        6,
        2,
        None,
    ));
    account.add_transaction(Transaction::new(TransactionType::Withdraw, 10, 3, None));
    account.add_transaction(Transaction::new(
        TransactionType::Purchase(Asset::new("A".to_string()), 1),
        5,
        4,
        None,
    ));
    account.add_transaction(Transaction::new(
        TransactionType::Sale(Asset::new("A".to_string()), 1),
        7,
        5,
        None,
    ));
    assert_eq!(account.get_balance(), 50 + 6 - 10 - 5 + 7);
    assert_eq!(account.get_transactions().len(), 5);
    assert_eq!(account.get_investments().len(), 0);
}

#[test]
fn closing_finds_an_account_of_either_kind() {
    let mut bank = Bank::empty();
    let first = bank.open_account_at(None, AccountType::Investment, 0).unwrap();
    let second = bank.open_account_at(None, AccountType::Investment, 0).unwrap();
    assert_eq!((first, second), (1, 2));
    bank.get_investment_account_mut(second).unwrap().deposit_at(5, 1);
    // No cash account has these ids, so the investment accounts are meant.
    assert!(matches!(bank.close_account(second), Err(BankError::CloseAccountWithBalance)));
    assert_eq!(bank.get_investment_account(second).unwrap().get_balance(), 5);
    assert_eq!(bank.get_investment_accounts().len(), 2);
    assert!(bank.close_account(first).is_ok());
    assert_eq!(bank.get_investment_accounts().len(), 1);
    assert!(matches!(bank.get_investment_account(first), Err(BankError::AccountNotFound)));
    assert!(matches!(bank.close_account(first), Err(BankError::AccountNotFound)));
    assert!(matches!(bank.close_account(3), Err(BankError::AccountNotFound)));
}

#[test]
fn closing_looks_among_the_cash_accounts_first() {
    let mut bank = Bank::empty();
    let cash = bank.open_account_at(None, AccountType::Checking, 0).unwrap();
    let invested = bank.open_account_at(None, AccountType::Investment, 0).unwrap();
    assert_eq!(cash, invested);
    bank.get_checking_account_mut(cash).unwrap().deposit_at(1, 1);
    // The cash account holds cash: nothing is closed, not even the empty
    // investment account of the same id.
    assert!(matches!(bank.close_account(cash), Err(BankError::CloseAccountWithBalance)));
    assert_eq!(bank.get_investment_accounts().len(), 1);
    bank.get_checking_account_mut(cash).unwrap().withdraw_at(1, 2).unwrap();
    assert!(bank.close_account(cash).is_ok());
    assert_eq!(bank.get_checking_accounts().len(), 0);
    assert_eq!(bank.get_investment_accounts().len(), 1);
    assert!(bank.close_account(cash).is_ok());
    assert_eq!(bank.get_investment_accounts().len(), 0);
}
