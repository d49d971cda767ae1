//! Accounts: a cash balance with its transaction log, and for an investment
//! account the positions bought with that cash.

use vstd::prelude::*;
use vstd::std_specs::cmp::PartialEqSpecImpl;
use vstd::string::StringExecFns;
use crate::bank::error::BankError;
use crate::bank::ledger::Operation;
use crate::bank::stock::{Asset, Holding, HoldingView};
use crate::bank::transactions::{
    ledger_total, log_view, text_of, Transaction, TransactionKind, TransactionType,
    TransactionView,
};
use crate::time::utc_now;

verus! {

/// The two kinds of account.
#[derive(Debug, Clone, Copy)]
pub enum AccountType {
    Checking,
    Investment,
}

impl PartialEq for AccountType {
    fn eq(&self, other: &Self) -> (same: bool) {
        match (self, other) {
            (AccountType::Checking, AccountType::Checking) => true,
            (AccountType::Investment, AccountType::Investment) => true,
            _ => false,
        }
    }
}

impl PartialEqSpecImpl for AccountType {
    open spec fn obeys_eq_spec() -> bool {
        true
    }

    open spec fn eq_spec(&self, other: &Self) -> bool {
        *self == *other
    }
}

/// The state that every account has: who it is, how much cash it holds, and
/// the log of what happened to that cash.
pub ghost struct AccountView {
    pub id: u32,
    pub balance: int,
    pub nickname: Option<Seq<char>>,
    pub created_at: int,
    pub transactions: Seq<TransactionView>,
}

impl AccountView {
    /// A valid account never owes cash.
    pub open spec fn wf(self) -> bool {
        self.balance >= 0
    }

    /// The account after `entry` was appended to its log and its cash effect
    /// applied to the balance. Every operation on an account is one such step.
    pub open spec fn record(self, entry: TransactionView) -> AccountView {
        AccountView {
            id: self.id,
            balance: self.balance + entry.cash_effect(),
            nickname: self.nickname,
            created_at: self.created_at,
            transactions: self.transactions.push(entry),
        }
    }

    /// The log entry written by a deposit of `amount` at `date`.
    pub open spec fn deposit_entry(amount: int, date: int) -> TransactionView {
        TransactionView { kind: TransactionKind::Deposit, amount, date, description: None }
    }

    /// The log entry written by a withdrawal of `amount` at `date`.
    pub open spec fn withdraw_entry(amount: int, date: int) -> TransactionView {
        TransactionView { kind: TransactionKind::Withdraw, amount, date, description: None }
    }

    /// The account after a deposit of `amount` at `date`.
    pub open spec fn deposit(self, amount: int, date: int) -> AccountView {
        self.record(Self::deposit_entry(amount, date))
    }

    /// Whether the balance covers a withdrawal of `amount`.
    pub open spec fn can_withdraw(self, amount: int) -> bool {
        self.balance >= amount
    }

    /// The account after a withdrawal of `amount` at `date`.
    pub open spec fn withdraw(self, amount: int, date: int) -> AccountView {
        self.record(Self::withdraw_entry(amount, date))
    }

    /// The balance that the account had before the first entry of its log.
    pub open spec fn opening_balance(self) -> int {
        self.balance - ledger_total(self.transactions)
    }

    /// The date of the newest log entry.
    pub open spec fn last_date(self) -> int {
        self.transactions.last().date
    }
}

/// What every account can do: report who it is and what it holds in cash,
/// take deposits and pay out withdrawals.
pub trait Account: Sized {
    /// The account's state as the rules see it.
    spec fn ledger(&self) -> AccountView;

    /// The account's own invariant.
    spec fn wf(&self) -> bool;

    /// Which kind of account this is.
    spec fn account_type(&self) -> AccountType;

    /// The id under which the bank keeps the account.
    fn get_id(&self) -> (id: u32)
        ensures
            id == self.ledger().id,
    ;

    /// The cash that the account holds.
    fn get_balance(&self) -> (balance: u64)
        ensures
            balance == self.ledger().balance,
    ;

    /// The name that the owner gave the account, if any.
    fn get_nickname(&self) -> (nickname: Option<String>)
        ensures
            text_of(nickname) == self.ledger().nickname,
    ;

    /// Adds `amount` to the balance and logs a deposit dated now. Returns the
    /// new balance.
    fn deposit(&mut self, amount: u64) -> (balance: u64)
        requires
            old(self).wf(),
            old(self).ledger().balance + amount <= u64::MAX,
        ensures
            final(self).wf(),
            balance == final(self).ledger().balance,
            final(self).ledger() == old(self).ledger().deposit(
                amount as int,
                final(self).ledger().last_date(),
            ),
    ;

    /// Takes `amount` from the balance and logs a withdrawal dated now, if
    /// the balance covers it. Returns the new balance.
    fn withdraw(&mut self, amount: u64) -> (result: Result<u64, BankError>)
        requires
            old(self).wf(),
        ensures
            final(self).wf(),
            match result {
                Ok(balance) => {
                    &&& old(self).ledger().can_withdraw(amount as int)
                    &&& final(self).ledger() == old(self).ledger().withdraw(
                        amount as int,
                        final(self).ledger().last_date(),
                    )
                    &&& balance == final(self).ledger().balance
                },
                Err(e) => {
                    &&& e is InsufficientFunds
                    &&& !old(self).ledger().can_withdraw(amount as int)
                    &&& final(self).ledger() == old(self).ledger()
                },
            },
    ;

    /// Which kind of account this is.
    fn get_account_type(&self) -> (account_type: AccountType)
        ensures
            account_type == self.account_type(),
    ;

    /// When the account was created, in seconds since 1970-01-01T00:00:00Z.
    fn get_created_at(&self) -> (created_at: i64)
        ensures
            created_at == self.ledger().created_at,
    ;
}

/// A cash account: a balance and the log of what changed it.
#[derive(Debug)]
pub struct CheckingAccount {
    id: u32,
    balance: u64,
    nickname: Option<String>,
    created_at: i64,
    transactions: Vec<Transaction>,
}

impl View for CheckingAccount {
    type V = AccountView;

    closed spec fn view(&self) -> AccountView {
        AccountView {
            id: self.id,
            balance: self.balance as int,
            nickname: text_of(self.nickname),
            created_at: self.created_at as int,
            transactions: log_view(self.transactions@),
        }
    }
}

impl CheckingAccount {
    /// An account with the given id, opening balance and nickname, created at
    /// `created_at`, with an empty log.
    pub fn new_at(id: u32, balance: u64, nickname: Option<String>, created_at: i64) -> (account:
        Self)
        ensures
            account.wf(),
            account@ == (AccountView {
                id,
                balance: balance as int,
                nickname: text_of(nickname),
                created_at: created_at as int,
                transactions: Seq::empty(),
            }),
    {
        let account = CheckingAccount {
            id: id,
            balance: balance,
            nickname: nickname,
            created_at: created_at,
            transactions: Vec::new(),
        };
        assert(account@.transactions =~= Seq::empty());
        account
    }

    /// An account with the given id, opening balance and nickname, created
    /// now, with an empty log.
    pub fn new(id: u32, balance: u64, nickname: Option<String>) -> (account: Self)
        ensures
            account.wf(),
            account@ == (AccountView {
                id,
                balance: balance as int,
                nickname: text_of(nickname),
                created_at: account@.created_at,
                transactions: Seq::empty(),
            }),
    {
        let now: i64 = utc_now();
        Self::new_at(id, balance, nickname, now)
    }

    /// The log, oldest entry first.
    pub fn get_transactions(&self) -> (log: &Vec<Transaction>)
        ensures
            log_view(log@) == self@.transactions,
    {
        &self.transactions
    }

    /// Adds `amount` to the balance and logs a deposit dated `date`. Returns
    /// the new balance.
    pub fn deposit_at(&mut self, amount: u64, date: i64) -> (balance: u64)
        requires
            old(self).wf(),
            old(self)@.balance + amount <= u64::MAX,
        ensures
            final(self).wf(),
            balance == final(self)@.balance,
            final(self)@ == old(self)@.deposit(amount as int, date as int),
            final(self)@ == old(self)@.apply(
                Operation::Deposit { amount: amount as int, date: date as int },
            ),
    {
        self.balance = self.balance + amount;
        self.transactions.push(Transaction::new(TransactionType::Deposit, amount, date, None));
        assert(self@.transactions =~= old(self)@.transactions.push(
            AccountView::deposit_entry(amount as int, date as int),
        ));
        self.balance
    }

    /// Takes `amount` from the balance and logs a withdrawal dated `date`, if
    /// the balance covers it; otherwise changes nothing. Returns the new
    /// balance.
    pub fn withdraw_at(&mut self, amount: u64, date: i64) -> (result: Result<u64, BankError>)
        requires
            old(self).wf(),
        ensures
            final(self).wf(),
            final(self)@ == old(self)@.apply(
                Operation::Withdraw { amount: amount as int, date: date as int },
            ),
            match result {
                Ok(balance) => {
                    &&& old(self)@.can_withdraw(amount as int)
                    &&& final(self)@ == old(self)@.withdraw(amount as int, date as int)
                    &&& balance == final(self)@.balance
                },
                Err(e) => {
                    &&& e is InsufficientFunds
                    &&& !old(self)@.can_withdraw(amount as int)
                    &&& *final(self) == *old(self)
                },
            },
    {
        if self.balance < amount {
            return Err(BankError::InsufficientFunds);
        }
        self.balance = self.balance - amount;
        self.transactions.push(Transaction::new(TransactionType::Withdraw, amount, date, None));
        assert(self@.transactions =~= old(self)@.transactions.push(
            AccountView::withdraw_entry(amount as int, date as int),
        ));
        Ok(self.balance)
    }

    /// An account put together from what was stored of it.
    pub fn from_parts(
        id: u32,
        balance: u64,
        nickname: Option<String>,
        created_at: i64,
        transactions: Vec<Transaction>,
    ) -> (account: Self)
        ensures
            account.wf(),
            account@ == (AccountView {
                id,
                balance: balance as int,
                nickname: text_of(nickname),
                created_at: created_at as int,
                transactions: log_view(transactions@),
            }),
    {
        CheckingAccount {
            id: id,
            balance: balance,
            nickname: nickname,
            created_at: created_at,
            transactions: transactions,
        }
    }

    /// A cash account with the identity and balance of `account` and an
    /// empty log.
    pub fn from_checking<T: Account>(account: T) -> (copy: Self)
        ensures
            copy.wf(),
            copy@ == (AccountView {
                id: account.ledger().id,
                balance: account.ledger().balance,
                nickname: account.ledger().nickname,
                created_at: account.ledger().created_at,
                transactions: Seq::empty(),
            }),
    {
        let copy = CheckingAccount {
            id: account.get_id(),
            balance: account.get_balance(),
            nickname: account.get_nickname(),
            created_at: account.get_created_at(),
            transactions: Vec::new(),
        };
        assert(copy@.transactions =~= Seq::empty());
        copy
    }
}

impl Account for CheckingAccount {
    open spec fn ledger(&self) -> AccountView {
        self@
    }

    open spec fn wf(&self) -> bool {
        self@.wf()
    }

    open spec fn account_type(&self) -> AccountType {
        AccountType::Checking
    }

    fn get_id(&self) -> (id: u32) {
        self.id
    }

    fn get_balance(&self) -> (balance: u64) {
        self.balance
    }

    fn get_nickname(&self) -> (nickname: Option<String>) {
        match &self.nickname {
            Some(name) => Some(name.clone()),
            None => None,
        }
    }

    fn deposit(&mut self, amount: u64) -> (balance: u64) {
        let now: i64 = utc_now();
        self.deposit_at(amount, now)
    }

    fn withdraw(&mut self, amount: u64) -> (result: Result<u64, BankError>)
        ensures
            result is Err ==> *final(self) == *old(self),
    {
        let now: i64 = utc_now();
        self.withdraw_at(amount, now)
    }

    fn get_created_at(&self) -> (created_at: i64) {
        self.created_at
    }

    fn get_account_type(&self) -> (account_type: AccountType) {
        AccountType::Checking
    }
}

/// The positions of `assets`, each as the rules see it.
pub open spec fn holdings_view(assets: Seq<Holding>) -> Seq<HoldingView> {
    Seq::new(assets.len(), |i: int| assets[i]@)
}

/// Whether `holdings` has a position in `symbol`.
pub open spec fn holds(holdings: Seq<HoldingView>, symbol: Seq<char>) -> bool {
    exists|i: int| 0 <= i < holdings.len() && (#[trigger] holdings[i]).symbol == symbol
}

/// Where the position in `symbol` stands in `holdings`, if there is one.
pub open spec fn position(holdings: Seq<HoldingView>, symbol: Seq<char>) -> int {
    choose|i: int| 0 <= i < holdings.len() && (#[trigger] holdings[i]).symbol == symbol
}

/// Valid holdings have one position per symbol, each of at least one unit.
pub open spec fn holdings_wf(holdings: Seq<HoldingView>) -> bool {
    &&& forall|i: int, j: int|
        0 <= i < j < holdings.len() ==> (#[trigger] holdings[i]).symbol != (
        #[trigger] holdings[j]).symbol
    &&& forall|i: int|
        0 <= i < holdings.len() ==> (#[trigger] holdings[i]).quantity > 0 && holdings[i].average_cost_per_unit
            >= 0
}

/// In valid holdings the position in a symbol is the only place where that
/// symbol stands.
pub proof fn lemma_position_unique(holdings: Seq<HoldingView>, symbol: Seq<char>, i: int)
    requires
        holdings_wf(holdings),
        0 <= i < holdings.len(),
        holdings[i].symbol == symbol,
    ensures
        holds(holdings, symbol),
        position(holdings, symbol) == i,
{
    let j = position(holdings, symbol);
    assert(0 <= j < holdings.len() && holdings[j].symbol == symbol);
    if j < i {
        assert(holdings[j].symbol != holdings[i].symbol);
    }
    if i < j {
        assert(holdings[i].symbol != holdings[j].symbol);
    }
}

/// The state of an investment account: the cash side and the positions.
pub ghost struct InvestmentView {
    pub account: AccountView,
    pub holdings: Seq<HoldingView>,
}

impl InvestmentView {
    /// A valid investment account never owes cash and has valid holdings.
    pub open spec fn wf(self) -> bool {
        &&& self.account.wf()
        &&& holdings_wf(self.holdings)
    }

    /// Whether the account has a position in `symbol`.
    pub open spec fn holds(self, symbol: Seq<char>) -> bool {
        holds(self.holdings, symbol)
    }

    /// The account's position in `symbol`, where it has one.
    pub open spec fn holding(self, symbol: Seq<char>) -> HoldingView
        recommends
            self.holds(symbol),
    {
        self.holdings[position(self.holdings, symbol)]
    }

    /// The account after a deposit of `amount` at `date`.
    pub open spec fn deposit(self, amount: int, date: int) -> InvestmentView {
        InvestmentView { account: self.account.deposit(amount, date), holdings: self.holdings }
    }

    /// The account after a withdrawal of `amount` at `date`.
    pub open spec fn withdraw(self, amount: int, date: int) -> InvestmentView {
        InvestmentView { account: self.account.withdraw(amount, date), holdings: self.holdings }
    }

    /// Whether the balance covers `quantity` units at `price` each.
    pub open spec fn can_purchase(self, price: int, quantity: int) -> bool {
        self.account.balance >= price * quantity
    }

    /// The log entry written by a purchase.
    pub open spec fn purchase_entry(symbol: Seq<char>, price: int, quantity: int, date: int)
        -> TransactionView {
        TransactionView {
            kind: TransactionKind::Purchase(symbol, quantity),
            amount: price * quantity,
            date,
            description: None,
        }
    }

    /// The holdings after `quantity` units of `symbol` were bought at `price`
    /// each. An existing position grows and its average cost becomes the
    /// weighted average of what was held and what was bought; otherwise a new
    /// position is added at the end, unless nothing was bought.
    pub open spec fn holdings_after_purchase(self, symbol: Seq<char>, price: int, quantity: int)
        -> Seq<HoldingView> {
        if self.holds(symbol) {
            let held = self.holding(symbol);
            self.holdings.update(
                position(self.holdings, symbol),
                HoldingView {
                    symbol,
                    average_cost_per_unit: (held.average_cost_per_unit * held.quantity + price
                        * quantity) / (held.quantity + quantity),
                    quantity: held.quantity + quantity,
                },
            )
        } else if quantity > 0 {
            self.holdings.push(
                HoldingView {
                    symbol,
                    average_cost_per_unit: (price * quantity) / quantity,
                    quantity,
                },
            )
        } else {
            self.holdings
        }
    }

    /// The account after `quantity` units of `symbol` were bought at `price`
    /// each on `date`.
    pub open spec fn purchase(self, symbol: Seq<char>, price: int, quantity: int, date: int)
        -> InvestmentView {
        InvestmentView {
            account: self.account.record(Self::purchase_entry(symbol, price, quantity, date)),
            holdings: self.holdings_after_purchase(symbol, price, quantity),
        }
    }

    /// Whether the account holds at least `quantity` units of `symbol`.
    pub open spec fn can_sell(self, symbol: Seq<char>, quantity: int) -> bool {
        self.holds(symbol) && self.holding(symbol).quantity >= quantity
    }

    /// The log entry written by a sale.
    pub open spec fn sale_entry(symbol: Seq<char>, price: int, quantity: int, date: int)
        -> TransactionView {
        TransactionView {
            kind: TransactionKind::Sale(symbol, quantity),
            amount: price * quantity,
            date,
            description: None,
        }
    }

    /// The holdings after `quantity` units of `symbol` were sold. The
    /// position shrinks and keeps its average cost; a position sold in full
    /// is removed.
    pub open spec fn holdings_after_sale(self, symbol: Seq<char>, quantity: int) -> Seq<
        HoldingView,
    > {
        let held = self.holding(symbol);
        if held.quantity == quantity {
            self.holdings.remove(position(self.holdings, symbol))
        } else {
            self.holdings.update(
                position(self.holdings, symbol),
                HoldingView {
                    symbol: held.symbol,
                    average_cost_per_unit: held.average_cost_per_unit,
                    quantity: held.quantity - quantity,
                },
            )
        }
    }

    /// The account after `quantity` units of `symbol` were sold at `price`
    /// each on `date`.
    pub open spec fn sell(self, symbol: Seq<char>, price: int, quantity: int, date: int)
        -> InvestmentView {
        InvestmentView {
            account: self.account.record(Self::sale_entry(symbol, price, quantity, date)),
            holdings: self.holdings_after_sale(symbol, quantity),
        }
    }
}

/// The weighted average of two unit costs lies between them, so it is never
/// larger than the larger of the two.
pub proof fn lemma_average_bounded(avg: int, held: int, price: int, bought: int, bound: int)
    requires
        0 <= avg <= bound,
        0 <= price <= bound,
        held > 0,
        bought >= 0,
    ensures
        0 <= (avg * held + price * bought) / (held + bought) <= bound,
{
    assert(avg * held + price * bought <= bound * (held + bought)) by (nonlinear_arith)
        requires
            0 <= avg <= bound,
            0 <= price <= bound,
            held > 0,
            bought >= 0,
    ;
    assert(0 <= avg * held + price * bought) by (nonlinear_arith)
        requires
            0 <= avg,
            0 <= price,
            held > 0,
            bought >= 0,
    ;
    let basis = avg * held + price * bought;
    let units = held + bought;
    assert(0 <= basis / units <= bound) by (nonlinear_arith)
        requires
            0 <= basis <= bound * units,
            units > 0,
    ;
}

/// Dividing the cost of `quantity` units at `price` each by `quantity` gives
/// back `price`.
pub proof fn lemma_unit_cost(price: int, quantity: int)
    requires
        quantity > 0,
    ensures
        (price * quantity) / quantity == price,
{
    assert((price * quantity) / quantity == price) by (nonlinear_arith)
        requires
            quantity > 0,
    ;
}

/// An account that holds cash and, bought with it, positions in assets.
#[derive(Debug)]
pub struct InvestmentAccount {
    id: u32,
    balance: u64,
    nickname: Option<String>,
    created_at: i64,
    assets: Vec<Holding>,
    transactions: Vec<Transaction>,
}

impl View for InvestmentAccount {
    type V = InvestmentView;

    closed spec fn view(&self) -> InvestmentView {
        InvestmentView {
            account: AccountView {
                id: self.id,
                balance: self.balance as int,
                nickname: text_of(self.nickname),
                created_at: self.created_at as int,
                transactions: log_view(self.transactions@),
            },
            holdings: holdings_view(self.assets@),
        }
    }
}

impl InvestmentAccount {
    /// An account with the given id, opening balance and nickname, created at
    /// `created_at`, with no positions and an empty log.
    pub fn new_at(id: u32, balance: u64, nickname: Option<String>, created_at: i64) -> (account:
        Self)
        ensures
            account.wf(),
            account@ == (InvestmentView {
                account: AccountView {
                    id,
                    balance: balance as int,
                    nickname: text_of(nickname),
                    created_at: created_at as int,
                    transactions: Seq::empty(),
                },
                holdings: Seq::empty(),
            }),
    {
        let account = InvestmentAccount {
            id: id,
            balance: balance,
            nickname: nickname,
            created_at: created_at,
            assets: Vec::new(),
            transactions: Vec::new(),
        };
        assert(account@.account.transactions =~= Seq::empty());
        assert(account@.holdings =~= Seq::empty());
        account
    }

    /// An account with the given id, opening balance and nickname, created
    /// now, with no positions and an empty log.
    pub fn new(id: u32, balance: u64, nickname: Option<String>) -> (account: Self)
        ensures
            account.wf(),
            account@ == (InvestmentView {
                account: AccountView {
                    id,
                    balance: balance as int,
                    nickname: text_of(nickname),
                    created_at: account@.account.created_at,
                    transactions: Seq::empty(),
                },
                holdings: Seq::empty(),
            }),
    {
        let now: i64 = utc_now();
        Self::new_at(id, balance, nickname, now)
    }

    /// The positions, in the order in which they were opened.
    pub fn get_investments(&self) -> (holdings: &Vec<Holding>)
        ensures
            holdings_view(holdings@) == self@.holdings,
    {
        &self.assets
    }

    /// The log, oldest entry first.
    pub fn get_transactions(&self) -> (log: &Vec<Transaction>)
        ensures
            log_view(log@) == self@.account.transactions,
    {
        &self.transactions
    }

    /// Where the position in `symbol` stands, if the account has one.
    fn find(&self, symbol: &String) -> (found: Option<usize>)
        requires
            self.wf(),
        ensures
            match found {
                Some(i) => {
                    &&& i < self.assets.len()
                    &&& self@.holds(symbol@)
                    &&& position(self@.holdings, symbol@) == i
                    &&& self@.holding(symbol@) == self.assets[i as int]@
                },
                None => !self@.holds(symbol@),
            },
    {
        let mut i: usize = 0;
        while i < self.assets.len()
            invariant
                i <= self.assets.len(),
                self.wf(),
                forall|j: int| 0 <= j < i ==> (#[trigger] self@.holdings[j]).symbol != symbol@,
            decreases self.assets.len() - i,
        {
            if self.assets[i].asset.symbol == *symbol {
                proof {
                    lemma_position_unique(self@.holdings, symbol@, i as int);
                }
                return Some(i);
            }
            i = i + 1;
        }
        None
    }

    /// The position in `symbol`, if the account has one.
    pub fn get_holding(&self, symbol: &str) -> (holding: Option<&Holding>)
        requires
            self.wf(),
        ensures
            match holding {
                Some(h) => self@.holds(symbol@) && h@ == self@.holding(symbol@),
                None => !self@.holds(symbol@),
            },
    {
        let wanted = String::from_str(symbol);
        match self.find(&wanted) {
            Some(i) => Some(&self.assets[i]),
            None => None,
        }
    }

    /// Adds `amount` to the balance and logs a deposit dated `date`. Returns
    /// the new balance.
    pub fn deposit_at(&mut self, amount: u64, date: i64) -> (balance: u64)
        requires
            old(self).wf(),
            old(self)@.account.balance + amount <= u64::MAX,
        ensures
            final(self).wf(),
            balance == final(self)@.account.balance,
            final(self)@ == old(self)@.deposit(amount as int, date as int),
            final(self)@ == old(self)@.apply(
                Operation::Deposit { amount: amount as int, date: date as int },
            ),
    {
        self.balance = self.balance + amount;
        self.transactions.push(Transaction::new(TransactionType::Deposit, amount, date, None));
        assert(self@.account.transactions =~= old(self)@.account.transactions.push(
            AccountView::deposit_entry(amount as int, date as int),
        ));
        self.balance
    }

    /// Takes `amount` from the balance and logs a withdrawal dated `date`, if
    /// the balance covers it; otherwise changes nothing. Returns the new
    /// balance.
    pub fn withdraw_at(&mut self, amount: u64, date: i64) -> (result: Result<u64, BankError>)
        requires
            old(self).wf(),
        ensures
            final(self).wf(),
            final(self)@ == old(self)@.apply(
                Operation::Withdraw { amount: amount as int, date: date as int },
            ),
            match result {
                Ok(balance) => {
                    &&& old(self)@.account.can_withdraw(amount as int)
                    &&& final(self)@ == old(self)@.withdraw(amount as int, date as int)
                    &&& balance == final(self)@.account.balance
                },
                Err(e) => {
                    &&& e is InsufficientFunds
                    &&& !old(self)@.account.can_withdraw(amount as int)
                    &&& *final(self) == *old(self)
                },
            },
    {
        if self.balance < amount {
            return Err(BankError::InsufficientFunds);
        }
        self.transactions.push(Transaction::new(TransactionType::Withdraw, amount, date, None));
        self.balance = self.balance - amount;
        assert(self@.account.transactions =~= old(self)@.account.transactions.push(
            AccountView::withdraw_entry(amount as int, date as int),
        ));
        Ok(self.balance)
    }

    /// Buys `quantity` units of `symbol` at `price` each, dated `date`, if
    /// the balance covers the cost; otherwise changes nothing.
    ///
    /// The grown position must still be countable: where the purchase
    /// succeeds on a symbol already held, the units held and the units bought
    /// together fit in 64 bits.
    pub fn purchase_investment_at(&mut self, symbol: String, price: u64, quantity: u64, date: i64)
        -> (result: Result<(), BankError>)
        requires
            old(self).wf(),
            old(self)@.can_purchase(price as int, quantity as int) && old(self)@.holds(symbol@)
                ==> old(self)@.holding(symbol@).quantity + quantity <= u64::MAX,
        ensures
            final(self).wf(),
            final(self)@ == old(self)@.apply(
                Operation::Purchase {
                    symbol: symbol@,
                    price: price as int,
                    quantity: quantity as int,
                    date: date as int,
                },
            ),
            match result {
                Ok(()) => {
                    &&& old(self)@.can_purchase(price as int, quantity as int)
                    &&& final(self)@ == old(self)@.purchase(
                        symbol@,
                        price as int,
                        quantity as int,
                        date as int,
                    )
                },
                Err(e) => {
                    &&& e is InsufficientFunds
                    &&& !old(self)@.can_purchase(price as int, quantity as int)
                    &&& *final(self) == *old(self)
                },
            },
    {
        assert(0 <= price * quantity <= u64::MAX * u64::MAX) by (nonlinear_arith)
            requires
                0 <= price <= u64::MAX,
                0 <= quantity <= u64::MAX,
        ;
        let total_cost: u128 = (price as u128) * (quantity as u128);
        if (self.balance as u128) < total_cost {
            return Err(BankError::InsufficientFunds);
        }
        let cost: u64 = total_cost as u64;
        let found = self.find(&symbol);
        self.balance = self.balance - cost;
        match found {
            Some(i) => {
                let held_cost: u64 = self.assets[i].average_cost_per_unit;
                let held_quantity: u64 = self.assets[i].quantity;
                proof {
                    assert(old(self)@.holdings[i as int] == old(self).assets[i as int]@);
                    assert(held_quantity > 0);
                    assert(0 <= held_cost * held_quantity <= u64::MAX * u64::MAX)
                        by (nonlinear_arith)
                        requires
                            0 <= held_cost <= u64::MAX,
                            0 <= held_quantity <= u64::MAX,
                    ;
                    lemma_average_bounded(
                        held_cost as int,
                        held_quantity as int,
                        price as int,
                        quantity as int,
                        u64::MAX as int,
                    );
                }
                let basis: u128 = (held_cost as u128) * (held_quantity as u128) + total_cost;
                let units: u128 = (held_quantity as u128) + (quantity as u128);
                let average: u128 = basis / units;
                let grown = Holding::new(average as u64, held_quantity + quantity, symbol.clone());
                self.assets.set(i, grown);
                proof {
                    assert(self@.holdings =~= old(self)@.holdings_after_purchase(
                        symbol@,
                        price as int,
                        quantity as int,
                    ));
                }
            },
            None => {
                if quantity > 0 {
                    proof {
                        lemma_unit_cost(price as int, quantity as int);
                    }
                    let average: u128 = total_cost / (quantity as u128);
                    self.assets.push(Holding::new(average as u64, quantity, symbol.clone()));
                }
                proof {
                    assert(self@.holdings =~= old(self)@.holdings_after_purchase(
                        symbol@,
                        price as int,
                        quantity as int,
                    ));
                }
            },
        }
        let transaction = Transaction::new(
            TransactionType::Purchase(Asset::new(symbol), quantity),
            cost,
            date,
            None,
        );
        self.transactions.push(transaction);
        proof {
            assert(self@.account.transactions =~= old(self)@.account.transactions.push(
                InvestmentView::purchase_entry(symbol@, price as int, quantity as int, date as int),
            ));
        }
        Ok(())
    }

    /// Buys `quantity` units of `symbol` at `price` each, dated now, if the
    /// balance covers the cost; otherwise changes nothing.
    pub fn purchase_investment(&mut self, symbol: String, price: u64, quantity: u64) -> (result:
        Result<(), BankError>)
        requires
            old(self).wf(),
            old(self)@.can_purchase(price as int, quantity as int) && old(self)@.holds(symbol@)
                ==> old(self)@.holding(symbol@).quantity + quantity <= u64::MAX,
        ensures
            final(self).wf(),
            match result {
                Ok(()) => {
                    &&& old(self)@.can_purchase(price as int, quantity as int)
                    &&& final(self)@ == old(self)@.purchase(
                        symbol@,
                        price as int,
                        quantity as int,
                        final(self)@.account.last_date(),
                    )
                },
                Err(e) => {
                    &&& e is InsufficientFunds
                    &&& !old(self)@.can_purchase(price as int, quantity as int)
                    &&& *final(self) == *old(self)
                },
            },
    {
        let now: i64 = utc_now();
        self.purchase_investment_at(symbol, price, quantity, now)
    }

    /// Sells `quantity` units of `symbol` at `price` each, dated `date`, if
    /// the account holds that many; otherwise changes nothing.
    ///
    /// The proceeds must be countable: where the sale succeeds, the balance
    /// and the proceeds together fit in 64 bits.
    pub fn sell_investment_at(&mut self, symbol: String, price: u64, quantity: u64, date: i64)
        -> (result: Result<(), BankError>)
        requires
            old(self).wf(),
            old(self)@.can_sell(symbol@, quantity as int) ==> old(self)@.account.balance + price
                * quantity <= u64::MAX,
        ensures
            final(self).wf(),
            final(self)@ == old(self)@.apply(
                Operation::Sell {
                    symbol: symbol@,
                    price: price as int,
                    quantity: quantity as int,
                    date: date as int,
                },
            ),
            match result {
                Ok(()) => {
                    &&& old(self)@.can_sell(symbol@, quantity as int)
                    &&& final(self)@ == old(self)@.sell(
                        symbol@,
                        price as int,
                        quantity as int,
                        date as int,
                    )
                },
                Err(e) => {
                    &&& e is InsufficientQuantity
                    &&& !old(self)@.can_sell(symbol@, quantity as int)
                    &&& *final(self) == *old(self)
                },
            },
    {
        let found = self.find(&symbol);
        let i: usize = match found {
            Some(i) => i,
            None => {
                return Err(BankError::InsufficientQuantity);
            },
        };
        let held_quantity: u64 = self.assets[i].quantity;
        if held_quantity < quantity {
            return Err(BankError::InsufficientQuantity);
        }
        assert(0 <= price * quantity) by (nonlinear_arith)
            requires
                0 <= price,
                0 <= quantity,
        ;
        let proceeds: u64 = price * quantity;
        self.balance = self.balance + proceeds;
        if held_quantity == quantity {
            let _ = self.assets.remove(i);
        } else {
            let kept = Holding::new(
                self.assets[i].average_cost_per_unit,
                held_quantity - quantity,
                symbol.clone(),
            );
            self.assets.set(i, kept);
        }
        proof {
            assert(self@.holdings =~= old(self)@.holdings_after_sale(symbol@, quantity as int));
        }
        let transaction = Transaction::new(
            TransactionType::Sale(Asset::new(symbol), quantity),
            proceeds,
            date,
            None,
        );
        self.transactions.push(transaction);
        proof {
            assert(self@.account.transactions =~= old(self)@.account.transactions.push(
                InvestmentView::sale_entry(symbol@, price as int, quantity as int, date as int),
            ));
        }
        Ok(())
    }

    /// Sells `quantity` units of `symbol` at `price` each, dated now, if the
    /// account holds that many; otherwise changes nothing.
    pub fn sell_investment(&mut self, symbol: String, price: u64, quantity: u64) -> (result:
        Result<(), BankError>)
        requires
            old(self).wf(),
            old(self)@.can_sell(symbol@, quantity as int) ==> old(self)@.account.balance + price
                * quantity <= u64::MAX,
        ensures
            final(self).wf(),
            match result {
                Ok(()) => {
                    &&& old(self)@.can_sell(symbol@, quantity as int)
                    &&& final(self)@ == old(self)@.sell(
                        symbol@,
                        price as int,
                        quantity as int,
                        final(self)@.account.last_date(),
                    )
                },
                Err(e) => {
                    &&& e is InsufficientQuantity
                    &&& !old(self)@.can_sell(symbol@, quantity as int)
                    &&& *final(self) == *old(self)
                },
            },
    {
        let now: i64 = utc_now();
        self.sell_investment_at(symbol, price, quantity, now)
    }

    /// Whether `assets` are valid holdings: one position per symbol, each
    /// of at least one unit.
    pub fn holdings_valid(assets: &Vec<Holding>) -> (valid: bool)
        ensures
            valid == holdings_wf(holdings_view(assets@)),
    {
        let ghost held = holdings_view(assets@);
        let mut j: usize = 0;
        while j < assets.len()
            invariant
                j <= assets.len(),
                held == holdings_view(assets@),
                forall|a: int, b: int|
                    0 <= a < b < j ==> (#[trigger] held[a]).symbol != (#[trigger] held[b]).symbol,
                forall|a: int| 0 <= a < j ==> (#[trigger] held[a]).quantity > 0,
            decreases assets.len() - j,
        {
            if assets[j].quantity == 0 {
                assert(!(held[j as int].quantity > 0));
                return false;
            }
            let mut i: usize = 0;
            while i < j
                invariant
                    i <= j,
                    j < assets.len(),
                    held == holdings_view(assets@),
                    forall|a: int| 0 <= a < i ==> (#[trigger] held[a]).symbol != held[j as int].symbol,
                decreases j - i,
            {
                if assets[i].asset.symbol == assets[j].asset.symbol {
                    assert(held[i as int].symbol == held[j as int].symbol);
                    return false;
                }
                i = i + 1;
            }
            j = j + 1;
        }
        true
    }

    /// An account put together from what was stored of it, if the stored
    /// positions are valid holdings.
    pub fn from_parts(
        id: u32,
        balance: u64,
        nickname: Option<String>,
        created_at: i64,
        assets: Vec<Holding>,
        transactions: Vec<Transaction>,
    ) -> (account: Option<Self>)
        ensures
            match account {
                Some(restored) => {
                    &&& holdings_wf(holdings_view(assets@))
                    &&& restored.wf()
                    &&& restored@ == (InvestmentView {
                        account: AccountView {
                            id,
                            balance: balance as int,
                            nickname: text_of(nickname),
                            created_at: created_at as int,
                            transactions: log_view(transactions@),
                        },
                        holdings: holdings_view(assets@),
                    })
                },
                None => !holdings_wf(holdings_view(assets@)),
            },
    {
        if !Self::holdings_valid(&assets) {
            return None;
        }
        Some(
            InvestmentAccount {
                id: id,
                balance: balance,
                nickname: nickname,
                created_at: created_at,
                assets: assets,
                transactions: transactions,
            },
        )
    }

    /// Appends `transaction` to the log and applies its cash effect to the
    /// balance; the positions stay as they are.
    ///
    /// The balance after the entry must be countable: neither negative nor
    /// beyond 64 bits.
    pub fn add_transaction(&mut self, transaction: Transaction)
        requires
            old(self).wf(),
            0 <= old(self)@.account.balance + transaction@.cash_effect() <= u64::MAX,
        ensures
            final(self).wf(),
            final(self)@ == (InvestmentView {
                account: old(self)@.account.record(transaction@),
                holdings: old(self)@.holdings,
            }),
    {
        match &transaction.transaction_type {
            TransactionType::Deposit => {
                self.balance = self.balance + transaction.amount;
            },
            TransactionType::Sale(_, _) => {
                self.balance = self.balance + transaction.amount;
            },
            TransactionType::Dividend(_, _) => {
                self.balance = self.balance + transaction.amount;
            },
            TransactionType::Withdraw => {
                self.balance = self.balance - transaction.amount;
            },
            TransactionType::Purchase(_, _) => {
                self.balance = self.balance - transaction.amount;
            },
        }
        self.transactions.push(transaction);
        assert(self@.account.transactions =~= old(self)@.account.transactions.push(transaction@));
    }

    /// An investment account with the identity and balance of `account`, no
    /// positions and an empty log.
    pub fn from_checking<T: Account>(account: T) -> (copy: Self)
        ensures
            copy.wf(),
            copy@ == (InvestmentView {
                account: AccountView {
                    id: account.ledger().id,
                    balance: account.ledger().balance,
                    nickname: account.ledger().nickname,
                    created_at: account.ledger().created_at,
                    transactions: Seq::empty(),
                },
                holdings: Seq::empty(),
            }),
    {
        let copy = InvestmentAccount {
            id: account.get_id(),
            balance: account.get_balance(),
            nickname: account.get_nickname(),
            created_at: account.get_created_at(),
            assets: Vec::new(),
            transactions: Vec::new(),
        };
        assert(copy@.account.transactions =~= Seq::empty());
        assert(copy@.holdings =~= Seq::empty());
        copy
    }
}

impl Account for InvestmentAccount {
    open spec fn ledger(&self) -> AccountView {
        self@.account
    }

    open spec fn wf(&self) -> bool {
        self@.wf()
    }

    open spec fn account_type(&self) -> AccountType {
        AccountType::Investment
    }

    fn get_id(&self) -> (id: u32) {
        self.id
    }

    fn get_balance(&self) -> (balance: u64) {
        self.balance
    }

    fn get_nickname(&self) -> (nickname: Option<String>) {
        match &self.nickname {
            Some(name) => Some(name.clone()),
            None => None,
        }
    }

    fn deposit(&mut self, amount: u64) -> (balance: u64)
        ensures
            final(self)@.holdings == old(self)@.holdings,
    {
        let now: i64 = utc_now();
        self.deposit_at(amount, now)
    }

    fn withdraw(&mut self, amount: u64) -> (result: Result<u64, BankError>)
        ensures
            final(self)@.holdings == old(self)@.holdings,
            result is Err ==> *final(self) == *old(self),
    {
        let now: i64 = utc_now();
        self.withdraw_at(amount, now)
    }

    fn get_created_at(&self) -> (created_at: i64) {
        self.created_at
    }

    fn get_account_type(&self) -> (account_type: AccountType) {
        AccountType::Investment
    }
}

/// Every cash account is valid: its balance is a count of currency units.
pub proof fn checking_account_is_valid(account: &CheckingAccount)
    ensures
        account.wf(),
        account@.balance <= u64::MAX,
{
}

/// The balance of an investment account is a count of currency units, and
/// each of its positions a count of units at a cost that is one.
pub proof fn investment_account_is_bounded(account: &InvestmentAccount)
    ensures
        0 <= account@.account.balance <= u64::MAX,
        forall|i: int|
            0 <= i < account@.holdings.len() ==> 0 <= (#[trigger] account@.holdings[i]).quantity
                <= u64::MAX && 0 <= account@.holdings[i].average_cost_per_unit <= u64::MAX,
{
}

} // verus!
