//! The broker: what is decided around the ledger, given market data that
//! somebody else fetched.

use vstd::prelude::*;
use vstd::string::StringExecFns;
use crate::bank::accounts::Account;
use crate::bank::error::BankError;
use crate::bank::stock::{dividends_view, Dividend};
use crate::bank::{Bank, BankView};
use crate::brokerage::dividends::valid_dividends;
use crate::time::{format_rfc3339, parse_rfc3339, rfc3339_text, rfc3339_value, utc_now, ZonedTime};

pub mod dataloader;
pub mod dividends;

verus! {

/// One point of a price series.
#[derive(Debug, Clone, Copy)]
pub struct PriceEntry {
    /// When the price was quoted, in seconds since 1970-01-01T00:00:00Z.
    pub date: i64,
    /// The closing price.
    pub close: u64,
    /// The closing price adjusted for splits and dividends, where known.
    pub adjusted_close: Option<u64>,
}

impl PriceEntry {
    /// The price that trades use: the adjusted close where there is one,
    /// else the close.
    pub open spec fn price(self) -> u64 {
        match self.adjusted_close {
            Some(adjusted) => adjusted,
            None => self.close,
        }
    }

    /// Whether the quote was made no later than `limit`, where there is one.
    pub open spec fn within(self, limit: Option<ZonedTime>) -> bool {
        match limit {
            Some(latest) => self.date <= latest.timestamp,
            None => true,
        }
    }
}

/// The price of the last entry of `entries` quoted no later than `limit`,
/// if there is such an entry.
pub open spec fn latest_price(entries: Seq<PriceEntry>, limit: Option<ZonedTime>) -> Option<u64>
    decreases entries.len(),
{
    if entries.len() == 0 {
        None
    } else if entries.last().within(limit) {
        Some(entries.last().price())
    } else {
        latest_price(entries.drop_last(), limit)
    }
}

/// What the exchange publishes about a listed symbol.
#[derive(Debug)]
pub struct Ticker {
    /// The symbol.
    pub symbol: String,
    /// When trading opens, in seconds since midnight.
    pub market_open: u32,
    /// When trading closes, in seconds since midnight.
    pub market_close: u32,
}

impl Clone for Ticker {
    fn clone(&self) -> (copy: Self)
        ensures
            copy == *self,
    {
        Ticker {
            symbol: self.symbol.clone(),
            market_open: self.market_open,
            market_close: self.market_close,
        }
    }
}

impl Ticker {
    /// Whether the clock of `at` shows a time within trading hours, the
    /// opening and the closing second included.
    pub open spec fn trades_at(self, at: ZonedTime) -> bool {
        self.market_open <= at.local_second_of_day() <= self.market_close
    }
}

/// How many of `entries` are listed under `symbol`.
pub open spec fn listings(entries: Seq<Ticker>, symbol: Seq<char>) -> nat
    decreases entries.len(),
{
    if entries.len() == 0 {
        0
    } else if entries.last().symbol@ == symbol {
        listings(entries.drop_last(), symbol) + 1
    } else {
        listings(entries.drop_last(), symbol)
    }
}

/// The last of `entries` listed under `symbol`; where exactly one is, that
/// one.
pub open spec fn listing(entries: Seq<Ticker>, symbol: Seq<char>) -> Ticker
    decreases entries.len(),
{
    if entries.len() == 0 {
        arbitrary()
    } else if entries.last().symbol@ == symbol {
        entries.last()
    } else {
        listing(entries.drop_last(), symbol)
    }
}

/// The instant at which a trade asked for at `now` is judged: the limit
/// given, else `now` itself, seen from UTC.
pub open spec fn trade_time(date_limit: Option<ZonedTime>, now: i64) -> ZonedTime {
    match date_limit {
        Some(limit) => limit,
        None => ZonedTime { timestamp: now, offset: 0 },
    }
}

impl BankView {
    /// The bank after the investment account `id` bought `quantity` units
    /// of `symbol` at `price` each on `date`.
    pub open spec fn purchase(
        self,
        id: u32,
        symbol: Seq<char>,
        price: int,
        quantity: int,
        date: int,
    ) -> BankView {
        BankView {
            checking: self.checking,
            investment: self.investment.insert(
                id,
                self.investment[id].purchase(symbol, price, quantity, date),
            ),
        }
    }

    /// The bank after the investment account `id` sold `quantity` units of
    /// `symbol` at `price` each on `date`.
    pub open spec fn sell(self, id: u32, symbol: Seq<char>, price: int, quantity: int, date: int)
        -> BankView {
        BankView {
            checking: self.checking,
            investment: self.investment.insert(
                id,
                self.investment[id].sell(symbol, price, quantity, date),
            ),
        }
    }
}

/// What a purchase order comes to. The order is carried out where a price
/// is quoted, the symbol is listed once, the market is open at the time of
/// the trade, the account exists and its balance covers the cost; the
/// result is then the new balance. Otherwise nothing changes and the error
/// names the first of these that failed.
pub open spec fn bought(
    before: BankView,
    after: BankView,
    symbol: Seq<char>,
    quantity: u64,
    account_id: u32,
    date_limit: Option<ZonedTime>,
    quotes: Seq<PriceEntry>,
    tickers: Seq<Ticker>,
    now: i64,
    result: Result<u64, BankError>,
) -> bool {
    match latest_price(quotes, date_limit) {
        None => result matches Err(e) && e is PriceUnavailable && after == before,
        Some(price) => {
            if listings(tickers, symbol) != 1 {
                result matches Err(BankError::Other(text)) && text@ == "No ticker found"@ && after
                    == before
            } else if !listing(tickers, symbol).trades_at(trade_time(date_limit, now)) {
                result matches Err(e) && e is MarketClosed && after == before
            } else if !before.investment.contains_key(account_id) {
                result matches Err(e) && e is AccountNotFound && after == before
            } else if !before.investment[account_id].can_purchase(price as int, quantity as int) {
                result matches Err(e) && e is InsufficientFunds && after == before
            } else {
                &&& result matches Ok(balance) && balance
                    == after.investment[account_id].account.balance
                &&& after == before.purchase(
                    account_id,
                    symbol,
                    price as int,
                    quantity as int,
                    now as int,
                )
            }
        },
    }
}

/// What a sale order comes to. The order is carried out where a price is
/// quoted, the account exists and holds the units; the result is then the
/// new balance. Otherwise nothing changes and the error names the first of
/// these that failed.
pub open spec fn sold(
    before: BankView,
    after: BankView,
    symbol: Seq<char>,
    quantity: u64,
    account_id: u32,
    date_limit: Option<ZonedTime>,
    quotes: Seq<PriceEntry>,
    now: i64,
    result: Result<u64, BankError>,
) -> bool {
    match latest_price(quotes, date_limit) {
        None => result matches Err(e) && e is PriceUnavailable && after == before,
        Some(price) => {
            if !before.investment.contains_key(account_id) {
                result matches Err(e) && e is AccountNotFound && after == before
            } else if !before.investment[account_id].can_sell(symbol, quantity as int) {
                result matches Err(e) && e is InsufficientQuantity && after == before
            } else {
                &&& result matches Ok(balance) && balance
                    == after.investment[account_id].account.balance
                &&& after == before.sell(
                    account_id,
                    symbol,
                    price as int,
                    quantity as int,
                    now as int,
                )
            }
        },
    }
}

/// Whether a purchase ordered at `now`, where it would be carried out on a
/// symbol already held, leaves a position that 64 bits can count. An order
/// that is refused anyway is countable.
pub open spec fn purchase_countable(
    bank: BankView,
    symbol: Seq<char>,
    quantity: u64,
    account_id: u32,
    date_limit: Option<ZonedTime>,
    quotes: Seq<PriceEntry>,
    tickers: Seq<Ticker>,
    now: i64,
) -> bool {
    latest_price(quotes, date_limit) matches Some(price) ==> (listings(tickers, symbol) == 1
        && listing(tickers, symbol).trades_at(trade_time(date_limit, now))
        && bank.investment.contains_key(account_id) && bank.investment[account_id].can_purchase(
        price as int,
        quantity as int,
    ) && bank.investment[account_id].holds(symbol)
        ==> bank.investment[account_id].holding(symbol).quantity + quantity <= u64::MAX)
}

/// Whether a sale, where it would be carried out, leaves a balance that 64
/// bits can count.
pub open spec fn sale_countable(
    bank: BankView,
    symbol: Seq<char>,
    quantity: u64,
    account_id: u32,
    date_limit: Option<ZonedTime>,
    quotes: Seq<PriceEntry>,
) -> bool {
    latest_price(quotes, date_limit) matches Some(price) ==> (bank.investment.contains_key(
        account_id,
    ) && bank.investment[account_id].can_sell(symbol, quantity as int)
        ==> bank.investment[account_id].account.balance + price * quantity <= u64::MAX)
}

/// Where the dividend sweep resumes, and what to write down about it.
#[derive(Debug)]
pub struct Watermark {
    /// The last date already checked: only later payments are still open.
    pub date: ZonedTime,
    /// The text to store as the new record, where the record must change.
    pub to_store: Option<String>,
}

/// The broker: takes orders against the bank it holds.
#[derive(Debug)]
pub struct Broker {
    bank: Bank,
}

impl View for Broker {
    type V = BankView;

    closed spec fn view(&self) -> BankView {
        self.bank@
    }
}

impl Broker {
    /// Whether the bank that the broker holds is valid.
    pub open spec fn wf(&self) -> bool {
        self@.wf()
    }

    /// A broker for `bank`.
    pub fn new(bank: Bank) -> (broker: Self)
        ensures
            broker@ == bank@,
    {
        Broker { bank: bank }
    }

    /// The bank.
    pub fn get_bank(&self) -> (bank: &Bank)
        ensures
            bank@ == self@,
    {
        &self.bank
    }

    /// The bank, to be changed in place.
    pub fn get_bank_mut(&mut self) -> (bank: &mut Bank)
        ensures
            bank@ == old(self)@,
            final(self)@ == final(bank)@,
    {
        &mut self.bank
    }

    /// The price of the last entry of `entries` quoted no later than
    /// `date_limit`.
    pub fn get_price(entries: &Vec<PriceEntry>, date_limit: Option<ZonedTime>) -> (result: Result<
        u64,
        BankError,
    >)
        ensures
            match result {
                Ok(price) => latest_price(entries@, date_limit) == Some(price),
                Err(e) => e is PriceUnavailable && latest_price(entries@, date_limit) is None,
            },
    {
        let mut i: usize = entries.len();
        assert(entries@.take(i as int) =~= entries@);
        while i > 0
            invariant
                i <= entries.len(),
                latest_price(entries@, date_limit) == latest_price(entries@.take(i as int), date_limit),
            decreases i,
        {
            let entry = entries[i - 1];
            let counts: bool = match date_limit {
                Some(latest) => entry.date <= latest.timestamp,
                None => true,
            };
            proof {
                assert(entries@.take(i as int).last() == entry);
                assert(entries@.take(i as int).drop_last() =~= entries@.take(i as int - 1));
            }
            if counts {
                return Ok(
                    match entry.adjusted_close {
                        Some(adjusted) => adjusted,
                        None => entry.close,
                    },
                );
            }
            i = i - 1;
        }
        Err(BankError::PriceUnavailable)
    }

    /// The one entry of `entries` listed under `symbol`. Where none or several
    /// are, the search has failed.
    pub fn get_ticker(entries: &Vec<Ticker>, symbol: &str) -> (result: Result<Ticker, BankError>)
        ensures
            match result {
                Ok(ticker) => listings(entries@, symbol@) == 1 && ticker == listing(entries@, symbol@),
                Err(BankError::Other(text)) => listings(entries@, symbol@) != 1 && text@
                    == "No ticker found"@,
                Err(_) => false,
            },
    {
        let wanted = String::from_str(symbol);
        let mut found: Option<usize> = None;
        let mut count: usize = 0;
        let mut i: usize = 0;
        assert(entries@.take(0) =~= Seq::<Ticker>::empty());
        while i < entries.len()
            invariant
                i <= entries.len(),
                wanted@ == symbol@,
                count <= i,
                count == listings(entries@.take(i as int), symbol@),
                count > 0 ==> (found matches Some(at) && at < i && entries[at as int] == listing(
                    entries@.take(i as int),
                    symbol@,
                )),
            decreases entries.len() - i,
        {
            proof {
                assert(entries@.take(i as int + 1).last() == entries[i as int]);
                assert(entries@.take(i as int + 1).drop_last() =~= entries@.take(i as int));
            }
            if entries[i].symbol == wanted {
                found = Some(i);
                count = count + 1;
            }
            i = i + 1;
        }
        assert(entries@.take(entries.len() as int) =~= entries@);
        match found {
            Some(at) => {
                if count == 1 {
                    return Ok(entries[at].clone());
                }
            },
            None => {},
        }
        Err(BankError::Other(String::from_str("No ticker found")))
    }

    /// Whether the clock of `at` shows a time within the trading hours of
    /// `ticker`.
    pub fn is_market_open(ticker: &Ticker, at: &ZonedTime) -> (open: bool)
        ensures
            open == ticker.trades_at(*at),
    {
        let second: u32 = at.time();
        if second < ticker.market_open || second > ticker.market_close {
            return false;
        }
        true
    }

    /// What `quantity` units are worth at the price of the last entry of
    /// `entries` quoted no later than `date_limit`.
    pub fn get_current_value(entries: &Vec<PriceEntry>, quantity: u64, date_limit: Option<ZonedTime>)
        -> (result: Result<u128, BankError>)
        ensures
            match result {
                Ok(value) => latest_price(entries@, date_limit) matches Some(price) && value == price
                    * quantity,
                Err(e) => e is PriceUnavailable && latest_price(entries@, date_limit) is None,
            },
    {
        match Self::get_price(entries, date_limit) {
            Ok(price) => {
                assert(0 <= price * quantity <= u64::MAX * u64::MAX) by (nonlinear_arith)
                    requires
                        0 <= price <= u64::MAX,
                        0 <= quantity <= u64::MAX,
                ;
                Ok((price as u128) * (quantity as u128))
            },
            Err(e) => Err(e),
        }
    }

    /// Whether a purchase ordered at `now` can be counted: what `buy_at`
    /// asks of its caller beside a valid bank.
    pub fn purchase_fits(
        &self,
        symbol: &str,
        quantity: u64,
        account_id: u32,
        date_limit: Option<ZonedTime>,
        quotes: &Vec<PriceEntry>,
        tickers: &Vec<Ticker>,
        now: i64,
    ) -> (fits: bool)
        requires
            self.wf(),
        ensures
            fits == purchase_countable(
                self@,
                symbol@,
                quantity,
                account_id,
                date_limit,
                quotes@,
                tickers@,
                now,
            ),
    {
        let price: u64 = match Self::get_price(quotes, date_limit) {
            Ok(price) => price,
            Err(_) => {
                return true;
            },
        };
        let ticker = match Self::get_ticker(tickers, symbol) {
            Ok(ticker) => ticker,
            Err(_) => {
                return true;
            },
        };
        let at = match date_limit {
            Some(limit) => limit,
            None => ZonedTime::utc(now),
        };
        if !Self::is_market_open(&ticker, &at) {
            return true;
        }
        let account = match self.bank.get_investment_account(account_id) {
            Ok(account) => account,
            Err(_) => {
                return true;
            },
        };
        assert(0 <= price * quantity <= u64::MAX * u64::MAX) by (nonlinear_arith)
            requires
                0 <= price <= u64::MAX,
                0 <= quantity <= u64::MAX,
        ;
        if (account.get_balance() as u128) < (price as u128) * (quantity as u128) {
            return true;
        }
        match account.get_holding(symbol) {
            Some(held) => held.quantity <= u64::MAX - quantity,
            None => true,
        }
    }

    /// Whether a sale can be counted: what `sell_at` and `sell` ask of
    /// their caller beside a valid bank.
    pub fn sale_fits(
        &self,
        symbol: &str,
        quantity: u64,
        account_id: u32,
        date_limit: Option<ZonedTime>,
        quotes: &Vec<PriceEntry>,
    ) -> (fits: bool)
        requires
            self.wf(),
        ensures
            fits == sale_countable(self@, symbol@, quantity, account_id, date_limit, quotes@),
    {
        let price: u64 = match Self::get_price(quotes, date_limit) {
            Ok(price) => price,
            Err(_) => {
                return true;
            },
        };
        let account = match self.bank.get_investment_account(account_id) {
            Ok(account) => account,
            Err(_) => {
                return true;
            },
        };
        match account.get_holding(symbol) {
            Some(held) => {
                if held.quantity < quantity {
                    return true;
                }
            },
            None => {
                return true;
            },
        }
        assert(0 <= price * quantity <= u64::MAX * u64::MAX) by (nonlinear_arith)
            requires
                0 <= price <= u64::MAX,
                0 <= quantity <= u64::MAX,
        ;
        (price as u128) * (quantity as u128) <= (u64::MAX - account.get_balance()) as u128
    }

    /// Buys `quantity` units of `symbol` for the investment account
    /// `account_id` at the latest price of `quotes`, with `now` as the time
    /// of the order: see [`bought`].
    pub fn buy_at(
        &mut self,
        symbol: &str,
        quantity: u64,
        account_id: u32,
        date_limit: Option<ZonedTime>,
        quotes: &Vec<PriceEntry>,
        tickers: &Vec<Ticker>,
        now: i64,
    ) -> (result: Result<u64, BankError>)
        requires
            old(self).wf(),
            purchase_countable(
                old(self)@,
                symbol@,
                quantity,
                account_id,
                date_limit,
                quotes@,
                tickers@,
                now,
            ),
        ensures
            final(self).wf(),
            bought(
                old(self)@,
                final(self)@,
                symbol@,
                quantity,
                account_id,
                date_limit,
                quotes@,
                tickers@,
                now,
                result,
            ),
    {
        let price: u64 = match Self::get_price(quotes, date_limit) {
            Ok(price) => price,
            Err(e) => {
                return Err(e);
            },
        };
        let ticker = match Self::get_ticker(tickers, symbol) {
            Ok(ticker) => ticker,
            Err(e) => {
                return Err(e);
            },
        };
        let at = match date_limit {
            Some(limit) => limit,
            None => ZonedTime::utc(now),
        };
        if !Self::is_market_open(&ticker, &at) {
            return Err(BankError::MarketClosed);
        }
        let ghost before = self@;
        let account = match self.bank.get_investment_account_mut(account_id) {
            Ok(account) => account,
            Err(e) => {
                return Err(e);
            },
        };
        match account.purchase_investment_at(String::from_str(symbol), price, quantity, now) {
            Ok(()) => Ok(account.get_balance()),
            Err(e) => {
                proof {
                    assert(before.investment.insert(account_id, before.investment[account_id])
                        =~= before.investment);
                }
                Err(e)
            },
        }
    }

    /// Buys `quantity` units of `symbol` for the investment account
    /// `account_id` at the latest price of `quotes`, with the current time
    /// as the time of the order: see [`bought`].
    pub fn buy(
        &mut self,
        symbol: &str,
        quantity: u64,
        account_id: u32,
        date_limit: Option<ZonedTime>,
        quotes: &Vec<PriceEntry>,
        tickers: &Vec<Ticker>,
    ) -> (result: Result<u64, BankError>)
        requires
            old(self).wf(),
            forall|now: i64|
                #[trigger] purchase_countable(
                    old(self)@,
                    symbol@,
                    quantity,
                    account_id,
                    date_limit,
                    quotes@,
                    tickers@,
                    now,
                ),
        ensures
            final(self).wf(),
            exists|now: i64|
                bought(
                    old(self)@,
                    final(self)@,
                    symbol@,
                    quantity,
                    account_id,
                    date_limit,
                    quotes@,
                    tickers@,
                    now,
                    result,
                ),
    {
        let now: i64 = utc_now();
        self.buy_at(symbol, quantity, account_id, date_limit, quotes, tickers, now)
    }

    /// Sells `quantity` units of `symbol` from the investment account
    /// `account_id` at the latest price of `quotes`, with `now` as the time
    /// of the order: see [`sold`].
    pub fn sell_at(
        &mut self,
        symbol: &str,
        quantity: u64,
        account_id: u32,
        date_limit: Option<ZonedTime>,
        quotes: &Vec<PriceEntry>,
        now: i64,
    ) -> (result: Result<u64, BankError>)
        requires
            old(self).wf(),
            sale_countable(old(self)@, symbol@, quantity, account_id, date_limit, quotes@),
        ensures
            final(self).wf(),
            sold(
                old(self)@,
                final(self)@,
                symbol@,
                quantity,
                account_id,
                date_limit,
                quotes@,
                now,
                result,
            ),
    {
        let price: u64 = match Self::get_price(quotes, date_limit) {
            Ok(price) => price,
            Err(e) => {
                return Err(e);
            },
        };
        let ghost before = self@;
        let account = match self.bank.get_investment_account_mut(account_id) {
            Ok(account) => account,
            Err(e) => {
                return Err(e);
            },
        };
        match account.sell_investment_at(String::from_str(symbol), price, quantity, now) {
            Ok(()) => Ok(account.get_balance()),
            Err(e) => {
                proof {
                    assert(before.investment.insert(account_id, before.investment[account_id])
                        =~= before.investment);
                }
                Err(e)
            },
        }
    }

    /// Sells `quantity` units of `symbol` from the investment account
    /// `account_id` at the latest price of `quotes`, with the current time
    /// as the time of the order: see [`sold`].
    pub fn sell(
        &mut self,
        symbol: &str,
        quantity: u64,
        account_id: u32,
        date_limit: Option<ZonedTime>,
        quotes: &Vec<PriceEntry>,
    ) -> (result: Result<u64, BankError>)
        requires
            old(self).wf(),
            sale_countable(old(self)@, symbol@, quantity, account_id, date_limit, quotes@),
        ensures
            final(self).wf(),
            exists|now: i64|
                sold(
                    old(self)@,
                    final(self)@,
                    symbol@,
                    quantity,
                    account_id,
                    date_limit,
                    quotes@,
                    now,
                    result,
                ),
    {
        let now: i64 = utc_now();
        self.sell_at(symbol, quantity, account_id, date_limit, quotes, now)
    }

    /// Whether every investment account can take, within 64 bits, the
    /// dividends of `data` paid after the day of `last_loaded` and no later
    /// than the day of `date`.
    pub fn can_pay_dividends(&self, date: &ZonedTime, last_loaded: &ZonedTime, data: &Vec<Dividend>)
        -> (payable: bool)
        requires
            self.wf(),
        ensures
            payable == self@.dividends_fit(
                valid_dividends(
                    dividends_view(data@),
                    last_loaded.local_day(),
                    date.local_day(),
                ),
            ),
    {
        let valid = Self::parse_valid_dividend_data(data, last_loaded, date);
        self.bank.dividends_payable(&valid)
    }

    /// Pays every investment account the dividends of `data` that are paid
    /// after the day of `last_loaded` and no later than the day of `date`,
    /// and that neither its log nor this sweep shows as paid. The sweep
    /// done, the watermark moves to `date`: the result is the new watermark,
    /// with the text to store for it. Where `date` has no such text the
    /// watermark could not be kept, so nothing is paid and the sweep fails.
    ///
    /// Every balance must be able to take its payments within 64 bits,
    /// which is what `can_pay_dividends` tests.
    pub fn check_dividend_payments(
        &mut self,
        date: &ZonedTime,
        last_loaded: &ZonedTime,
        data: &Vec<Dividend>,
    ) -> (result: Result<Watermark, BankError>)
        requires
            old(self).wf(),
            old(self)@.dividends_fit(
                valid_dividends(
                    dividends_view(data@),
                    last_loaded.local_day(),
                    date.local_day(),
                ),
            ),
        ensures
            final(self).wf(),
            match result {
                Ok(mark) => {
                    &&& mark.date == *date
                    &&& mark.to_store matches Some(text) && rfc3339_text(
                        date.timestamp as int,
                        date.offset as int,
                    ) == Some(text@)
                    &&& final(self)@ == old(self)@.pay_dividends(
                        valid_dividends(
                            dividends_view(data@),
                            last_loaded.local_day(),
                            date.local_day(),
                        ),
                    )
                    &&& old(self)@.pays_once(
                        valid_dividends(
                            dividends_view(data@),
                            last_loaded.local_day(),
                            date.local_day(),
                        ),
                    )
                },
                Err(e) => {
                    &&& e is PersistenceError
                    &&& rfc3339_text(date.timestamp as int, date.offset as int) is None
                    &&& *final(self) == *old(self)
                },
            },
    {
        let mark = match Self::advance_watermark(date) {
            Ok(mark) => mark,
            Err(e) => {
                return Err(e);
            },
        };
        let valid = Self::parse_valid_dividend_data(data, last_loaded, date);
        self.bank.pay_dividends(&valid);
        Ok(mark)
    }

    /// The watermark of a first sweep: `date_time` itself, to be stored as
    /// `text`. Where the date has no text the record cannot be kept.
    pub fn start_watermark(date_time: &ZonedTime, text: Option<String>) -> (result: Result<
        Watermark,
        BankError,
    >)
        ensures
            match result {
                Ok(mark) => text is Some && mark.date == *date_time && mark.to_store == text,
                Err(e) => text is None && e is PersistenceError,
            },
    {
        match text {
            Some(written) => Ok(Watermark { date: *date_time, to_store: Some(written) }),
            None => Err(BankError::PersistenceError(String::from_str("date out of range"))),
        }
    }

    /// The watermark of a later sweep: the date read from the record, which
    /// stays as it is. Where nothing could be read the record is broken.
    pub fn read_watermark(parsed: Option<ZonedTime>) -> (result: Result<Watermark, BankError>)
        ensures
            match result {
                Ok(mark) => parsed == Some(mark.date) && mark.to_store is None,
                Err(e) => parsed is None && e is PersistenceError,
            },
    {
        match parsed {
            Some(date) => Ok(Watermark { date: date, to_store: None }),
            None => Err(BankError::PersistenceError(String::from_str("invalid date"))),
        }
    }

    /// Finds the date from which dividends are still open. Where nothing is
    /// stored yet, no sweep has run: the date is `date_time`, to be stored in
    /// RFC 3339. Otherwise it is the date that the stored text holds.
    pub fn check_earliest_dividend(stored: Option<&str>, date_time: &ZonedTime) -> (result: Result<
        Watermark,
        BankError,
    >)
        ensures
            match stored {
                None => match result {
                    Ok(mark) => mark.date == *date_time && (mark.to_store matches Some(text)
                        && rfc3339_text(date_time.timestamp as int, date_time.offset as int)
                        == Some(text@)),
                    Err(e) => e is PersistenceError && rfc3339_text(
                        date_time.timestamp as int,
                        date_time.offset as int,
                    ) is None,
                },
                Some(text) => match result {
                    Ok(mark) => mark.to_store is None && rfc3339_value(text@) == Some(
                        (mark.date.timestamp as int, mark.date.offset as int),
                    ),
                    Err(e) => e is PersistenceError && rfc3339_value(text@) is None,
                },
            },
    {
        match stored {
            None => Self::start_watermark(
                date_time,
                format_rfc3339(date_time.timestamp, date_time.offset),
            ),
            Some(text) => Self::read_watermark(parse_rfc3339(text)),
        }
    }

    /// The watermark once a sweep up to `date` is done: `date` itself, to
    /// be stored in RFC 3339. Where the date has no such text the record
    /// cannot be kept.
    pub fn advance_watermark(date: &ZonedTime) -> (result: Result<Watermark, BankError>)
        ensures
            match result {
                Ok(mark) => mark.date == *date && (mark.to_store matches Some(text)
                    && rfc3339_text(date.timestamp as int, date.offset as int) == Some(text@)),
                Err(e) => e is PersistenceError && rfc3339_text(
                    date.timestamp as int,
                    date.offset as int,
                ) is None,
            },
    {
        Self::start_watermark(date, format_rfc3339(date.timestamp, date.offset))
    }
}

} // verus!
