use trading_simulator::bank::accounts::{Account, AccountType};
use trading_simulator::bank::error::BankError;
use trading_simulator::bank::stock::{Asset, Dividend};
use trading_simulator::bank::transactions::TransactionType;
use trading_simulator::bank::Bank;
use trading_simulator::brokerage::dividends::dividend_note_from;
use trading_simulator::brokerage::{Broker, PriceEntry, Ticker};
use trading_simulator::time::ZonedTime;

const DAY: i64 = 86_400;
// 2024-05-10, in days since 1970-01-01.
const MAY_10: i32 = 19_853;

fn quotes() -> Vec<PriceEntry> {
    vec![
        PriceEntry { date: 100, close: 10, adjusted_close: None },
        PriceEntry { date: 200, close: 20, adjusted_close: Some(19) },
        PriceEntry { date: 300, close: 30, adjusted_close: None },
    ]
}

fn tickers() -> Vec<Ticker> {
    vec![
        Ticker { symbol: "AAPL".to_string(), market_open: 9 * 3_600 + 1_800, market_close: 16 * 3_600 },
        Ticker { symbol: "AAPLX".to_string(), market_open: 0, market_close: 1 },
    ]
}

fn broker_with_cash(cash: u64) -> (Broker, u32) {
    let mut bank = Bank::empty();
    let id = bank.open_account_at(None, AccountType::Investment, 0).unwrap();
    bank.get_investment_account_mut(id).unwrap().deposit_at(cash, 1);
    (Broker::new(bank), id)
}

#[test]
fn price_is_that_of_the_last_quote_within_the_limit() {
    assert_eq!(Broker::get_price(&quotes(), None).unwrap(), 30);
    assert_eq!(Broker::get_price(&quotes(), Some(ZonedTime::utc(300))).unwrap(), 30);
    assert_eq!(Broker::get_price(&quotes(), Some(ZonedTime::utc(299))).unwrap(), 19);
    assert_eq!(Broker::get_price(&quotes(), Some(ZonedTime::new(100, 7_200))).unwrap(), 10);
    assert!(matches!(
        Broker::get_price(&quotes(), Some(ZonedTime::utc(99))),
        Err(BankError::PriceUnavailable)
    ));
    assert!(matches!(Broker::get_price(&Vec::new(), None), Err(BankError::PriceUnavailable)));
}

#[test]
fn current_value_is_price_times_quantity() {
    assert_eq!(Broker::get_current_value(&quotes(), 3, Some(ZonedTime::utc(250))).unwrap(), 57);
    let dear = vec![PriceEntry { date: 1, close: u64::MAX, adjusted_close: None }];
    assert_eq!(
        Broker::get_current_value(&dear, 2, None).unwrap(),
        (u64::MAX as u128) * 2
    );
    assert!(matches!(
        Broker::get_current_value(&quotes(), 3, Some(ZonedTime::utc(1))),
        Err(BankError::PriceUnavailable)
    ));
}

#[test]
fn ticker_must_be_listed_exactly_once() {
    let found = Broker::get_ticker(&tickers(), "AAPL").unwrap();
    assert_eq!(found.symbol, "AAPL");
    assert_eq!(found.market_close, 16 * 3_600);
    match Broker::get_ticker(&tickers(), "MSFT") {
        Err(BankError::Other(text)) => assert_eq!(text, "No ticker found"),
        _ => panic!("found a ticker that is not listed"),
    }
    let mut twice = tickers();
    twice.push(Ticker { symbol: "AAPL".to_string(), market_open: 0, market_close: 0 });
    assert!(matches!(Broker::get_ticker(&twice, "AAPL"), Err(BankError::Other(_))));
}

#[test]
fn market_is_open_from_the_opening_to_the_closing_second() {
    let ticker = &tickers()[0];
    let day = 19_853 * DAY;
    assert!(!Broker::is_market_open(ticker, &ZonedTime::utc(day + 9 * 3_600 + 1_799)));
    assert!(Broker::is_market_open(ticker, &ZonedTime::utc(day + 9 * 3_600 + 1_800)));
    assert!(Broker::is_market_open(ticker, &ZonedTime::utc(day + 16 * 3_600)));
    assert!(!Broker::is_market_open(ticker, &ZonedTime::utc(day + 16 * 3_600 + 1)));
    // 14:00 UTC is 10:00 four hours west of UTC and 23:00 nine hours east.
    assert!(Broker::is_market_open(ticker, &ZonedTime::new(day + 14 * 3_600, -4 * 3_600)));
    assert!(!Broker::is_market_open(ticker, &ZonedTime::new(day + 14 * 3_600, 9 * 3_600)));
    // Before 1970 the time of day still counts from midnight.
    assert!(Broker::is_market_open(ticker, &ZonedTime::utc(-DAY + 10 * 3_600)));
}

#[test]
fn buy_checks_price_ticker_hours_account_and_funds_in_that_order() {
    let (mut broker, id) = broker_with_cash(100);
    let open = Some(ZonedTime::utc(19_853 * DAY + 10 * 3_600));
    let early = Some(ZonedTime::utc(50));
    let closed = Some(ZonedTime::utc(19_853 * DAY + 20 * 3_600));
    assert!(matches!(
        broker.buy_at("NONE", 1, id + 1, early, &quotes(), &tickers(), 5),
        Err(BankError::PriceUnavailable)
    ));
    assert!(matches!(
        broker.buy_at("NONE", 1, id + 1, closed, &quotes(), &tickers(), 5),
        Err(BankError::Other(_))
    ));
    assert!(matches!(
        broker.buy_at("AAPL", 1, id + 1, closed, &quotes(), &tickers(), 5),
        Err(BankError::MarketClosed)
    ));
    assert!(matches!(
        broker.buy_at("AAPL", 1, id + 1, open, &quotes(), &tickers(), 5),
        Err(BankError::AccountNotFound)
    ));
    assert!(matches!(
        broker.buy_at("AAPL", 4, id, open, &quotes(), &tickers(), 5),
        Err(BankError::InsufficientFunds)
    ));
    let account = broker.get_bank().get_investment_account(id).unwrap();
    assert_eq!(account.get_balance(), 100);
    assert_eq!(account.get_transactions().len(), 1);
    assert_eq!(account.get_investments().len(), 0);

    assert_eq!(broker.buy_at("AAPL", 3, id, open, &quotes(), &tickers(), 5).unwrap(), 10);
    let account = broker.get_bank().get_investment_account(id).unwrap();
    assert_eq!(account.get_holding("AAPL").unwrap().quantity, 3);
    assert_eq!(account.get_holding("AAPL").unwrap().average_cost_per_unit, 30);
    assert_eq!(account.get_transactions()[1].date, 5);
}

#[test]
fn buy_without_a_limit_is_judged_at_the_time_of_the_order() {
    let (mut broker, id) = broker_with_cash(100);
    let at_night: i64 = 19_853 * DAY + 3 * 3_600;
    let at_noon: i64 = 19_853 * DAY + 12 * 3_600;
    assert!(matches!(
        broker.buy_at("AAPL", 1, id, None, &quotes(), &tickers(), at_night),
        Err(BankError::MarketClosed)
    ));
    assert_eq!(broker.buy_at("AAPL", 1, id, None, &quotes(), &tickers(), at_noon).unwrap(), 70);
}

#[test]
fn buy_by_the_clock_takes_a_limit_within_trading_hours() {
    let (mut broker, id) = broker_with_cash(100);
    let open = Some(ZonedTime::utc(19_853 * DAY + 10 * 3_600));
    assert_eq!(broker.buy("AAPL", 2, id, open, &quotes(), &tickers()).unwrap(), 40);
    let account = broker.get_bank().get_investment_account(id).unwrap();
    assert!(account.get_transactions()[1].date > 1_600_000_000);
    assert_eq!(broker.sell("AAPL", 2, id, open, &quotes()).unwrap(), 100);
}

#[test]
fn sell_checks_price_account_and_quantity_in_that_order() {
    let (mut broker, id) = broker_with_cash(100);
    let open = Some(ZonedTime::utc(19_853 * DAY + 10 * 3_600));
    broker.buy_at("AAPL", 3, id, open, &quotes(), &tickers(), 5).unwrap();
    assert!(matches!(
        broker.sell_at("AAPL", 1, id + 1, Some(ZonedTime::utc(1)), &quotes(), 6),
        Err(BankError::PriceUnavailable)
    ));
    assert!(matches!(
        broker.sell_at("AAPL", 1, id + 1, None, &quotes(), 6),
        Err(BankError::AccountNotFound)
    ));
    assert!(matches!(
        broker.sell_at("AAPL", 4, id, None, &quotes(), 6),
        Err(BankError::InsufficientQuantity)
    ));
    assert!(matches!(
        broker.sell_at("MSFT", 1, id, None, &quotes(), 6),
        Err(BankError::InsufficientQuantity)
    ));
    // Sold at the price of the last quote before 250, which is 19.
    assert_eq!(broker.sell_at("AAPL", 2, id, Some(ZonedTime::utc(250)), &quotes(), 6).unwrap(), 48);
    let account = broker.get_bank().get_investment_account(id).unwrap();
    assert_eq!(account.get_holding("AAPL").unwrap().quantity, 1);
    assert_eq!(account.get_holding("AAPL").unwrap().average_cost_per_unit, 30);
    assert_eq!(broker.sell_at("AAPL", 1, id, None, &quotes(), 7).unwrap(), 78);
    assert!(broker.get_bank().get_investment_account(id).unwrap().get_holding("AAPL").is_none());
}

#[test]
fn dividends_in_the_window_are_kept_in_order() {
    let data = vec![
        Dividend::new(1, Asset::new("A".to_string()), 10),
        Dividend::new(2, Asset::new("A".to_string()), 11),
        Dividend::new(3, Asset::new("B".to_string()), 12),
        Dividend::new(4, Asset::new("A".to_string()), 13),
    ];
    // After day 10 and up to day 12: the time of day and the offset decide the day.
    let last_loaded = ZonedTime::new(10 * DAY - 10, 3_600);
    let date = ZonedTime::new(12 * DAY + 100, 0);
    let valid = Broker::parse_valid_dividend_data(&data, &last_loaded, &date);
    assert_eq!(valid.len(), 2);
    assert_eq!(valid[0].amount, 2);
    assert_eq!(valid[1].amount, 3);
    assert_eq!(valid[1].asset.symbol, "B");
    assert_eq!(Broker::parse_valid_dividend_data(&data, &date, &last_loaded).len(), 0);
}

fn bank_holding_aapl() -> (Broker, u32, u32) {
    let mut bank = Bank::empty();
    let first = bank.open_account_at(None, AccountType::Investment, 0).unwrap();
    let second = bank.open_account_at(None, AccountType::Investment, 0).unwrap();
    let account = bank.get_investment_account_mut(first).unwrap();
    account.deposit_at(1_000, 1);
    account.purchase_investment_at("AAPL".to_string(), 10, 10, 2).unwrap();
    account.purchase_investment_at("KO".to_string(), 5, 4, 3).unwrap();
    let account = bank.get_investment_account_mut(second).unwrap();
    account.deposit_at(1_000, 1);
    account.purchase_investment_at("AAPL".to_string(), 10, 1, 2).unwrap();
    (Broker::new(bank), first, second)
}

fn announced() -> Vec<Dividend> {
    vec![
        Dividend::new(24, Asset::new("AAPL".to_string()), MAY_10),
        Dividend::new(5, Asset::new("MSFT".to_string()), MAY_10),
        Dividend::new(7, Asset::new("AAPL".to_string()), MAY_10 - 200),
        Dividend::new(3, Asset::new("KO".to_string()), MAY_10 + 1),
    ]
}

#[test]
fn sweep_pays_each_holding_what_is_due() {
    let (mut broker, first, second) = bank_holding_aapl();
    let last_loaded = ZonedTime::utc((MAY_10 as i64 - 30) * DAY);
    let date = ZonedTime::utc((MAY_10 as i64 + 1) * DAY + 5);
    assert!(broker.can_pay_dividends(&date, &last_loaded, &announced()));
    let mark = broker.check_dividend_payments(&date, &last_loaded, &announced()).unwrap();
    assert_eq!(mark.date.timestamp, date.timestamp);
    assert_eq!(mark.to_store, Some("2024-05-11T00:00:05+00:00".to_string()));

    let account = broker.get_bank().get_investment_account(first).unwrap();
    assert_eq!(account.get_balance(), 1_000 - 100 - 20 + 240 + 12);
    let log = account.get_transactions();
    assert_eq!(log.len(), 5);
    assert!(log[3].transaction_type == TransactionType::Dividend(Asset::new("AAPL".to_string()), 10));
    assert_eq!(log[3].amount, 240);
    assert_eq!(log[3].date, MAY_10 as i64 * DAY);
    assert_eq!(log[3].description, Some("Dividend payment for AAPL on 2024-05-10".to_string()));
    assert!(log[4].transaction_type == TransactionType::Dividend(Asset::new("KO".to_string()), 4));
    assert_eq!(log[4].amount, 12);
    assert_eq!(log[4].description, Some("Dividend payment for KO on 2024-05-11".to_string()));
    assert_eq!(account.get_holding("AAPL").unwrap().quantity, 10);

    let account = broker.get_bank().get_investment_account(second).unwrap();
    assert_eq!(account.get_balance(), 1_000 - 10 + 24);
    assert_eq!(account.get_transactions().len(), 3);
}

#[test]
fn sweep_run_twice_pays_once() {
    let (mut broker, first, second) = bank_holding_aapl();
    let last_loaded = ZonedTime::utc((MAY_10 as i64 - 30) * DAY);
    let date = ZonedTime::utc((MAY_10 as i64 + 1) * DAY + 5);
    broker.check_dividend_payments(&date, &last_loaded, &announced()).unwrap();
    broker.check_dividend_payments(&date, &last_loaded, &announced()).unwrap();
    let account = broker.get_bank().get_investment_account(first).unwrap();
    assert_eq!(account.get_balance(), 1_000 - 100 - 20 + 240 + 12);
    assert_eq!(account.get_transactions().len(), 5);
    let account = broker.get_bank().get_investment_account(second).unwrap();
    assert_eq!(account.get_balance(), 1_000 - 10 + 24);
    assert_eq!(account.get_transactions().len(), 3);
    let valid = Broker::parse_valid_dividend_data(&announced(), &last_loaded, &date);
    assert_eq!(valid.len(), 3);
    assert_eq!(account.dividends_due(&valid).unwrap().len(), 0);
}

#[test]
fn sweep_that_cannot_be_counted_is_told_apart() {
    let mut bank = Bank::empty();
    let id = bank.open_account_at(None, AccountType::Investment, 0).unwrap();
    let account = bank.get_investment_account_mut(id).unwrap();
    account.deposit_at(100, 1);
    account.purchase_investment_at("AAPL".to_string(), 1, 10, 2).unwrap();
    let broker = Broker::new(bank);
    let huge = vec![Dividend::new(u64::MAX / 10 + 1, Asset::new("AAPL".to_string()), 5)];
    let fits = vec![Dividend::new((u64::MAX - 90) / 10, Asset::new("AAPL".to_string()), 5)];
    assert!(!broker.can_pay_dividends(&ZonedTime::utc(10 * DAY), &ZonedTime::utc(0), &huge));
    assert!(broker.can_pay_dividends(&ZonedTime::utc(10 * DAY), &ZonedTime::utc(0), &fits));
    // Outside the window nothing is due, whatever the amount.
    assert!(broker.can_pay_dividends(&ZonedTime::utc(4 * DAY), &ZonedTime::utc(0), &huge));
    let account = broker.get_bank().get_investment_account(id).unwrap();
    assert!(account.dividends_due(&huge).is_none());
    assert_eq!(account.dividends_due(&fits).unwrap()[0].amount, (u64::MAX - 90) / 10 * 10);
}

#[test]
fn held_symbols_are_listed_once() {
    let (broker, _, _) = bank_holding_aapl();
    let mut symbols = broker.get_bank().held_symbols();
    symbols.sort();
    assert_eq!(symbols, vec!["AAPL".to_string(), "KO".to_string()]);
    assert_eq!(Bank::empty().held_symbols().len(), 0);
}

#[test]
fn dividend_note_names_symbol_and_date() {
    assert_eq!(
        dividend_note_from(&"KO".to_string(), Some("2024-05-10".to_string())),
        Some("Dividend payment for KO on 2024-05-10".to_string())
    );
    assert_eq!(dividend_note_from(&"KO".to_string(), None), None);
}

#[test]
fn first_sweep_starts_at_its_own_date() {
    let date = ZonedTime::new(1_704_067_200, 7_200);
    let mark = Broker::check_earliest_dividend(None, &date).unwrap();
    assert_eq!(mark.date.timestamp, 1_704_067_200);
    assert_eq!(mark.date.offset, 7_200);
    assert_eq!(mark.to_store, Some("2024-01-01T02:00:00+02:00".to_string()));
    let moved = Broker::advance_watermark(&date).unwrap();
    assert_eq!(moved.to_store, Some("2024-01-01T02:00:00+02:00".to_string()));
    assert_eq!((moved.date.timestamp, moved.date.offset), (1_704_067_200, 7_200));
    assert_eq!(
        Broker::advance_watermark(&ZonedTime::utc(0)).unwrap().to_store,
        Some("1970-01-01T00:00:00+00:00".to_string())
    );
}

#[test]
fn later_sweeps_resume_from_the_stored_date() {
    let date = ZonedTime::utc(1_800_000_000);
    let mark = Broker::check_earliest_dividend(Some("2024-01-01T02:00:00+02:00"), &date).unwrap();
    assert_eq!(mark.date.timestamp, 1_704_067_200);
    assert_eq!(mark.date.offset, 7_200);
    assert_eq!(mark.to_store, None);
    let mark = Broker::check_earliest_dividend(Some("1969-12-31T23:59:59Z"), &date).unwrap();
    assert_eq!(mark.date.timestamp, -1);
    assert_eq!(mark.date.offset, 0);
    assert!(matches!(
        Broker::check_earliest_dividend(Some("yesterday"), &date),
        Err(BankError::PersistenceError(_))
    ));
}

#[test]
fn a_date_that_cannot_be_written_is_a_persistence_error() {
    assert!(matches!(
        Broker::check_earliest_dividend(None, &ZonedTime::utc(i64::MAX)),
        Err(BankError::PersistenceError(_))
    ));
    assert!(matches!(
        Broker::check_earliest_dividend(None, &ZonedTime::new(0, 86_400)),
        Err(BankError::PersistenceError(_))
    ));
    assert!(matches!(
        Broker::advance_watermark(&ZonedTime::utc(i64::MIN)),
        Err(BankError::PersistenceError(_))
    ));
    assert!(matches!(
        Broker::start_watermark(&ZonedTime::utc(0), None),
        Err(BankError::PersistenceError(_))
    ));
    assert!(matches!(Broker::read_watermark(None), Err(BankError::PersistenceError(_))));
    let mark = Broker::read_watermark(Some(ZonedTime::new(5, 6))).unwrap();
    assert_eq!((mark.date.timestamp, mark.date.offset), (5, 6));
}

#[test]
fn broker_hands_out_its_bank() {
    let (mut broker, id) = broker_with_cash(10);
    broker.get_bank_mut().get_investment_account_mut(id).unwrap().deposit_at(5, 9);
    assert_eq!(broker.get_bank().get_investment_account(id).unwrap().get_balance(), 15);
}

#[test]
fn a_sweep_whose_date_cannot_be_stored_pays_nothing() {
    let (mut broker, first, second) = bank_holding_aapl();
    let last_loaded = ZonedTime::utc((MAY_10 as i64 - 30) * DAY);
    // The date is fine as an instant, but no clock is a whole day ahead of UTC.
    let date = ZonedTime::new((MAY_10 as i64 + 1) * DAY + 5, 86_400);
    assert!(broker.can_pay_dividends(&date, &last_loaded, &announced()));
    assert!(matches!(
        broker.check_dividend_payments(&date, &last_loaded, &announced()),
        Err(BankError::PersistenceError(_))
    ));
    let account = broker.get_bank().get_investment_account(first).unwrap();
    assert_eq!(account.get_balance(), 1_000 - 100 - 20);
    assert_eq!(account.get_transactions().len(), 3);
    let account = broker.get_bank().get_investment_account(second).unwrap();
    assert_eq!(account.get_balance(), 1_000 - 10);
    assert_eq!(account.get_transactions().len(), 2);
}

#[test]
fn a_payment_announced_twice_is_paid_once() {
    let (mut broker, first, _) = bank_holding_aapl();
    let last_loaded = ZonedTime::utc((MAY_10 as i64 - 30) * DAY);
    let date = ZonedTime::utc((MAY_10 as i64 + 1) * DAY + 5);
    let twice = vec![
        Dividend::new(24, Asset::new("AAPL".to_string()), MAY_10),
        Dividend::new(3, Asset::new("KO".to_string()), MAY_10),
        Dividend::new(24, Asset::new("AAPL".to_string()), MAY_10),
        Dividend::new(99, Asset::new("AAPL".to_string()), MAY_10),
        Dividend::new(24, Asset::new("AAPL".to_string()), MAY_10 - 1),
    ];
    broker.check_dividend_payments(&date, &last_loaded, &twice).unwrap();
    let account = broker.get_bank().get_investment_account(first).unwrap();
    // AAPL is paid for the tenth and for the ninth, once each; KO for the tenth.
    assert_eq!(account.get_balance(), 1_000 - 100 - 20 + 240 + 240 + 12);
    let log = account.get_transactions();
    assert_eq!(log.len(), 6);
    assert_eq!(log[3].amount, 240);
    assert_eq!(log[3].date, MAY_10 as i64 * DAY);
    assert_eq!(log[4].amount, 240);
    assert_eq!(log[4].date, (MAY_10 as i64 - 1) * DAY);
    assert_eq!(log[5].amount, 12);
}

#[test]
fn an_order_is_countable_unless_it_would_be_carried_out_past_the_limit() {
    let mut bank = Bank::empty();
    let id = bank.open_account_at(None, AccountType::Investment, 0).unwrap();
    let account = bank.get_investment_account_mut(id).unwrap();
    account.deposit_at(u64::MAX, 1);
    let free = vec![PriceEntry { date: 100, close: 0, adjusted_close: None }];
    let dear = vec![PriceEntry { date: 100, close: 2, adjusted_close: None }];
    account.purchase_investment_at("AAPL".to_string(), 0, u64::MAX - 1, 2).unwrap();
    let mut broker = Broker::new(bank);
    let noon: i64 = 19_853 * DAY + 12 * 3_600;
    let night: i64 = 19_853 * DAY + 3 * 3_600;

    assert!(broker.purchase_fits("AAPL", 1, id, None, &free, &tickers(), noon));
    assert!(!broker.purchase_fits("AAPL", 2, id, None, &free, &tickers(), noon));
    // Refused anyway: market closed, symbol not listed, no price, no account,
    // another symbol.
    assert!(broker.purchase_fits("AAPL", 2, id, None, &free, &tickers(), night));
    assert!(broker.purchase_fits("AAPL", 2, id, None, &free, &Vec::new(), noon));
    assert!(broker.purchase_fits("AAPL", 2, id, None, &Vec::new(), &tickers(), noon));
    assert!(broker.purchase_fits("AAPL", 2, id + 1, None, &free, &tickers(), noon));
    assert!(broker.purchase_fits("AAPLX", 2, id, Some(ZonedTime::utc(1)), &free, &tickers(), noon));
    assert!(matches!(
        broker.buy_at("AAPL", 2, id, None, &free, &tickers(), night),
        Err(BankError::MarketClosed)
    ));

    // The balance is full: any proceeds are too much, but only for a sale
    // that the position covers.
    assert!(broker.sale_fits("AAPL", 1, id, None, &free));
    assert!(!broker.sale_fits("AAPL", 1, id, None, &dear));
    assert!(broker.sale_fits("AAPL", u64::MAX, id, None, &dear));
    assert!(broker.sale_fits("MSFT", 1, id, None, &dear));
    assert!(broker.sale_fits("AAPL", 1, id + 1, None, &dear));
    assert!(broker.sale_fits("AAPL", 1, id, Some(ZonedTime::utc(1)), &dear));
    assert_eq!(broker.sell_at("AAPL", 1, id, None, &free, 5).unwrap(), u64::MAX);
}
