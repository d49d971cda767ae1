use trading_simulator::bank::accounts::{Account, AccountType, CheckingAccount, InvestmentAccount};
use trading_simulator::bank::error::BankError;
use trading_simulator::bank::transactions::TransactionType;

#[test]
fn test_checking_account() {
    let account = CheckingAccount::new(1, 0, None);
    assert_eq!(account.get_id(), 1);
    assert_eq!(account.get_balance(), 0);
    assert_eq!(account.get_nickname(), None);
    assert_eq!(account.get_account_type(), AccountType::Checking);
}

#[test]
fn test_investment_account() {
    let account = InvestmentAccount::new(1, 0, None);
    assert_eq!(account.get_id(), 1);
    assert_eq!(account.get_balance(), 0);
    assert_eq!(account.get_nickname(), None);
    assert_eq!(account.get_account_type(), AccountType::Investment);
}

#[test]
fn test_deposit() {
    let mut account = CheckingAccount::new(1, 0, None);
    assert_eq!(account.deposit(100), 100);
}

#[test]
fn test_withdraw() {
    let mut account = CheckingAccount::new(1, 100, None);
    assert_eq!(account.withdraw(50).unwrap(), 50);
}

#[test]
fn test_withdraw_insufficient_funds() {
    let mut account = CheckingAccount::new(1, 0, None);
    assert!(account.withdraw(50).is_err());
}

#[test]
fn test_purchase_investment() {
    let mut account = InvestmentAccount::new(1, 100, None);
    account.purchase_investment("AAPL".to_string(), 100, 1).unwrap();
    assert_eq!(account.get_investments().len(), 1);
    assert_eq!(account.get_holding("AAPL").unwrap().quantity, 1);
    assert_eq!(account.get_holding("AAPL").unwrap().average_cost_per_unit, 100);

    account.deposit(100);
    account.purchase_investment("AAPL".to_string(), 100, 1).unwrap();
    assert_eq!(account.get_investments().len(), 1);
    assert_eq!(account.get_holding("AAPL").unwrap().quantity, 2);
    assert_eq!(account.get_holding("AAPL").unwrap().average_cost_per_unit, 100);

    account.deposit(100);
    account.purchase_investment("AAPL".to_string(), 10, 1).unwrap();
    assert_eq!(account.get_investments().len(), 1);
    assert_eq!(account.get_holding("AAPL").unwrap().quantity, 3);
    assert_eq!(account.get_holding("AAPL").unwrap().average_cost_per_unit, 70);
}

#[test]
fn test_purchase_investment_insufficient_funds() {
    let mut account = InvestmentAccount::new(1, 0, None);
    assert!(account.purchase_investment("AAPL".to_string(), 100, 1).is_err());
}

#[test]
fn test_sell_investment() {
    let mut account = InvestmentAccount::new(1, 100, None);
    account.purchase_investment("AAPL".to_string(), 100, 1).unwrap();
    account.sell_investment("AAPL".to_string(), 100, 1).unwrap();
    assert_eq!(account.get_investments().len(), 0);
}

#[test]
fn test_sell_investment_insufficient_quantity() {
    let mut account = InvestmentAccount::new(1, 100, None);
    account.purchase_investment("AAPL".to_string(), 100, 1).unwrap();
    assert!(account.sell_investment("AAPL".to_string(), 100, 2).is_err());
}

#[test]
fn test_sell_investment_mean_remains() {
    let mut account = InvestmentAccount::new(1, 100, None);
    account.purchase_investment("AAPL".to_string(), 50, 2).unwrap();
    assert_eq!(account.get_holding("AAPL").unwrap().average_cost_per_unit, 50);
    account.sell_investment("AAPL".to_string(), 100, 1).unwrap();
    assert_eq!(account.get_holding("AAPL").unwrap().quantity, 1);
    assert_eq!(account.get_holding("AAPL").unwrap().average_cost_per_unit, 50);
    assert_eq!(account.get_balance(), 100);
}

#[test]
fn deposit_and_withdraw_are_logged_with_their_amounts() {
    let mut account = CheckingAccount::new_at(3, 0, Some("Rent".to_string()), 1_000);
    assert_eq!(account.get_created_at(), 1_000);
    assert_eq!(account.get_nickname(), Some("Rent".to_string()));
    assert_eq!(account.deposit_at(70, 1_100), 70);
    assert_eq!(account.withdraw_at(30, 1_200).unwrap(), 40);
    let log = account.get_transactions();
    assert_eq!(log.len(), 2);
    assert!(log[0].transaction_type == TransactionType::Deposit);
    assert_eq!(log[0].amount, 70);
    assert_eq!(log[0].date, 1_100);
    assert_eq!(log[0].description, None);
    assert!(log[1].transaction_type == TransactionType::Withdraw);
    assert_eq!(log[1].amount, 30);
    assert_eq!(log[1].date, 1_200);
}

#[test]
fn refused_withdrawal_changes_nothing() {
    let mut account = CheckingAccount::new_at(1, 10, None, 0);
    assert!(matches!(account.withdraw_at(11, 5), Err(BankError::InsufficientFunds)));
    assert_eq!(account.get_balance(), 10);
    assert_eq!(account.get_transactions().len(), 0);
    assert_eq!(account.withdraw_at(10, 6).unwrap(), 0);
}

#[test]
fn deposit_is_dated_by_the_clock() {
    let mut account = CheckingAccount::new(1, 0, None);
    assert!(account.get_created_at() > 1_600_000_000);
    account.deposit(5);
    let log = account.get_transactions();
    assert!(log[0].date >= account.get_created_at());
    assert!(log[0].date < account.get_created_at() + 3_600);
}

#[test]
fn investment_account_takes_deposits_and_withdrawals() {
    let mut account = InvestmentAccount::new_at(2, 5, None, 0);
    assert_eq!(account.deposit_at(10, 1), 15);
    assert_eq!(account.withdraw_at(15, 2).unwrap(), 0);
    assert!(matches!(account.withdraw_at(1, 3), Err(BankError::InsufficientFunds)));
    assert_eq!(account.get_transactions().len(), 2);
    assert_eq!(account.get_investments().len(), 0);
    assert_eq!(account.deposit(1), 1);
    assert_eq!(account.withdraw(1).unwrap(), 0);
}

#[test]
fn average_cost_scenario() {
    let mut account = InvestmentAccount::new_at(1, 0, None, 0);
    account.deposit_at(100, 1);
    account.purchase_investment_at("AAPL".to_string(), 10, 2, 2).unwrap();
    assert_eq!(account.get_balance(), 80);
    assert_eq!(account.get_holding("AAPL").unwrap().quantity, 2);
    assert_eq!(account.get_holding("AAPL").unwrap().average_cost_per_unit, 10);
    account.purchase_investment_at("AAPL".to_string(), 40, 1, 3).unwrap();
    assert_eq!(account.get_balance(), 40);
    assert_eq!(account.get_holding("AAPL").unwrap().quantity, 3);
    assert_eq!(account.get_holding("AAPL").unwrap().average_cost_per_unit, 20);
    account.sell_investment_at("AAPL".to_string(), 50, 1, 4).unwrap();
    assert_eq!(account.get_balance(), 90);
    assert_eq!(account.get_holding("AAPL").unwrap().quantity, 2);
    assert_eq!(account.get_holding("AAPL").unwrap().average_cost_per_unit, 20);
}

#[test]
fn average_cost_is_rounded_down() {
    let mut account = InvestmentAccount::new_at(1, 1_000, None, 0);
    account.purchase_investment_at("X".to_string(), 10, 1, 1).unwrap();
    account.purchase_investment_at("X".to_string(), 11, 2, 2).unwrap();
    // (1 * 10 + 2 * 11) / 3 = 32 / 3
    assert_eq!(account.get_holding("X").unwrap().average_cost_per_unit, 10);
    assert_eq!(account.get_holding("X").unwrap().quantity, 3);
    assert_eq!(account.get_balance(), 1_000 - 32);
}

#[test]
fn purchase_then_sale_restores_balance() {
    let mut account = InvestmentAccount::new_at(1, 500, None, 0);
    account.purchase_investment_at("MSFT".to_string(), 123, 4, 1).unwrap();
    assert_eq!(account.get_balance(), 8);
    account.sell_investment_at("MSFT".to_string(), 123, 4, 2).unwrap();
    assert_eq!(account.get_balance(), 500);
    assert_eq!(account.get_investments().len(), 0);
    assert!(account.get_holding("MSFT").is_none());
}

#[test]
fn selling_everything_removes_only_that_symbol() {
    let mut account = InvestmentAccount::new_at(1, 100, None, 0);
    account.purchase_investment_at("A".to_string(), 1, 10, 1).unwrap();
    account.purchase_investment_at("B".to_string(), 2, 10, 2).unwrap();
    account.purchase_investment_at("C".to_string(), 3, 10, 3).unwrap();
    account.sell_investment_at("B".to_string(), 5, 10, 4).unwrap();
    assert_eq!(account.get_investments().len(), 2);
    assert!(account.get_holding("B").is_none());
    assert_eq!(account.get_investments()[0].get_symbol(), "A");
    assert_eq!(account.get_investments()[1].get_symbol(), "C");
    assert_eq!(account.get_holding("C").unwrap().get_quantity(), 10);
    assert_eq!(account.get_holding("C").unwrap().get_price(), 3);
}

#[test]
fn refused_trades_change_nothing() {
    let mut account = InvestmentAccount::new_at(1, 100, None, 0);
    account.purchase_investment_at("A".to_string(), 10, 5, 1).unwrap();
    assert!(matches!(
        account.purchase_investment_at("A".to_string(), 51, 1, 2),
        Err(BankError::InsufficientFunds)
    ));
    assert!(matches!(
        account.sell_investment_at("A".to_string(), 10, 6, 3),
        Err(BankError::InsufficientQuantity)
    ));
    assert!(matches!(
        account.sell_investment_at("B".to_string(), 10, 1, 4),
        Err(BankError::InsufficientQuantity)
    ));
    assert_eq!(account.get_balance(), 50);
    assert_eq!(account.get_transactions().len(), 1);
    assert_eq!(account.get_holding("A").unwrap().quantity, 5);
}

#[test]
fn a_cost_too_large_to_count_is_not_covered() {
    let mut account = InvestmentAccount::new_at(1, u64::MAX, None, 0);
    assert!(matches!(
        account.purchase_investment_at("A".to_string(), u64::MAX, 2, 1),
        Err(BankError::InsufficientFunds)
    ));
    assert_eq!(account.get_balance(), u64::MAX);
}

#[test]
fn buying_nothing_opens_no_position() {
    let mut account = InvestmentAccount::new_at(1, 10, None, 0);
    account.purchase_investment_at("A".to_string(), 7, 0, 1).unwrap();
    assert_eq!(account.get_investments().len(), 0);
    assert_eq!(account.get_balance(), 10);
    assert_eq!(account.get_transactions().len(), 1);
    assert_eq!(account.get_transactions()[0].amount, 0);
}

#[test]
fn trades_are_logged_with_symbol_quantity_and_amount() {
    let mut account = InvestmentAccount::new_at(1, 100, None, 0);
    account.purchase_investment_at("A".to_string(), 10, 5, 11).unwrap();
    account.sell_investment_at("A".to_string(), 12, 2, 12).unwrap();
    let log = account.get_transactions();
    assert_eq!(log.len(), 2);
    match &log[0].transaction_type {
        TransactionType::Purchase(asset, quantity) => {
            assert_eq!(asset.get_symbol(), "A");
            assert_eq!(*quantity, 5);
        }
        _ => panic!("not a purchase"),
    }
    assert_eq!(log[0].amount, 50);
    assert_eq!(log[0].date, 11);
    match &log[1].transaction_type {
        TransactionType::Sale(asset, quantity) => {
            assert_eq!(asset.get_symbol(), "A");
            assert_eq!(*quantity, 2);
        }
        _ => panic!("not a sale"),
    }
    assert_eq!(log[1].amount, 24);
    assert_eq!(account.get_balance(), 74);
}

#[test]
fn balance_is_the_sum_of_the_log() {
    let mut account = InvestmentAccount::new_at(1, 0, None, 0);
    account.deposit_at(1_000, 1);
    account.purchase_investment_at("A".to_string(), 10, 5, 2).unwrap();
    let _ = account.withdraw_at(5_000, 3);
    account.withdraw_at(100, 4).unwrap();
    account.sell_investment_at("A".to_string(), 13, 3, 5).unwrap();
    let _ = account.sell_investment_at("A".to_string(), 13, 3, 6);
    let mut sum: i128 = 0;
    for entry in account.get_transactions().iter() {
        match entry.transaction_type {
            TransactionType::Deposit | TransactionType::Sale(_, _) | TransactionType::Dividend(_, _) => {
                sum += entry.amount as i128
            }
            TransactionType::Withdraw | TransactionType::Purchase(_, _) => sum -= entry.amount as i128,
        }
    }
    assert_eq!(sum, account.get_balance() as i128);
    assert_eq!(account.get_balance(), 1_000 - 50 - 100 + 39);
}

#[test]
fn from_checking_keeps_identity_and_balance() {
    let mut source = CheckingAccount::new_at(9, 0, Some("Old".to_string()), 77);
    source.deposit_at(12, 78);
    let copy = InvestmentAccount::from_checking(source);
    assert_eq!(copy.get_id(), 9);
    assert_eq!(copy.get_balance(), 12);
    assert_eq!(copy.get_nickname(), Some("Old".to_string()));
    assert_eq!(copy.get_created_at(), 77);
    assert_eq!(copy.get_transactions().len(), 0);
    assert_eq!(copy.get_investments().len(), 0);
    let back = CheckingAccount::from_checking(copy);
    assert_eq!(back.get_id(), 9);
    assert_eq!(back.get_balance(), 12);
    assert_eq!(back.get_account_type(), AccountType::Checking);
}

#[test]
fn account_types_compare_by_variant() {
    assert!(AccountType::Checking == AccountType::Checking);
    assert!(AccountType::Investment == AccountType::Investment);
    assert!(AccountType::Checking != AccountType::Investment);
}
