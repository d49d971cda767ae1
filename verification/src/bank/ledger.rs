//! What holds of every account, whatever is done with it: the log accounts
//! for every unit of cash, no operation leaves a debt or an empty position,
//! and the average-cost rules behave as an accountant expects.

use vstd::prelude::*;
use crate::bank::accounts::{
    holdings_wf, lemma_position_unique, position, AccountView, InvestmentView,
};
use crate::bank::transactions::{ledger_total, lemma_total_of_push, TransactionView};

verus! {

/// A request made of an account.
pub ghost enum Operation {
    Deposit { amount: int, date: int },
    Withdraw { amount: int, date: int },
    Purchase { symbol: Seq<char>, price: int, quantity: int, date: int },
    Sell { symbol: Seq<char>, price: int, quantity: int, date: int },
}

impl Operation {
    /// A request is meaningful when its amounts, prices and quantities are
    /// not negative.
    pub open spec fn valid(self) -> bool {
        match self {
            Operation::Deposit { amount, .. } => amount >= 0,
            Operation::Withdraw { amount, .. } => amount >= 0,
            Operation::Purchase { price, quantity, .. } => price >= 0 && quantity >= 0,
            Operation::Sell { price, quantity, .. } => price >= 0 && quantity >= 0,
        }
    }
}

impl AccountView {
    /// Whether a cash account carries out `op`. It knows no trades.
    pub open spec fn accepts(self, op: Operation) -> bool {
        match op {
            Operation::Deposit { .. } => true,
            Operation::Withdraw { amount, .. } => self.can_withdraw(amount),
            Operation::Purchase { .. } => false,
            Operation::Sell { .. } => false,
        }
    }

    /// The account after `op` was requested: changed if the request was
    /// carried out, untouched if it was refused.
    pub open spec fn apply(self, op: Operation) -> AccountView {
        if !self.accepts(op) {
            self
        } else {
            match op {
                Operation::Deposit { amount, date } => self.deposit(amount, date),
                Operation::Withdraw { amount, date } => self.withdraw(amount, date),
                _ => self,
            }
        }
    }

    /// The account after the requests `ops` were made in order.
    pub open spec fn run(self, ops: Seq<Operation>) -> AccountView
        decreases ops.len(),
    {
        if ops.len() == 0 {
            self
        } else {
            self.run(ops.drop_last()).apply(ops.last())
        }
    }
}

impl InvestmentView {
    /// Whether an investment account carries out `op`.
    pub open spec fn accepts(self, op: Operation) -> bool {
        match op {
            Operation::Deposit { .. } => true,
            Operation::Withdraw { amount, .. } => self.account.can_withdraw(amount),
            Operation::Purchase { price, quantity, .. } => self.can_purchase(price, quantity),
            Operation::Sell { symbol, quantity, .. } => self.can_sell(symbol, quantity),
        }
    }

    /// The account after `op` was requested: changed if the request was
    /// carried out, untouched if it was refused.
    pub open spec fn apply(self, op: Operation) -> InvestmentView {
        if !self.accepts(op) {
            self
        } else {
            match op {
                Operation::Deposit { amount, date } => self.deposit(amount, date),
                Operation::Withdraw { amount, date } => self.withdraw(amount, date),
                Operation::Purchase { symbol, price, quantity, date } => self.purchase(
                    symbol,
                    price,
                    quantity,
                    date,
                ),
                Operation::Sell { symbol, price, quantity, date } => self.sell(
                    symbol,
                    price,
                    quantity,
                    date,
                ),
            }
        }
    }

    /// The account after the requests `ops` were made in order.
    pub open spec fn run(self, ops: Seq<Operation>) -> InvestmentView
        decreases ops.len(),
    {
        if ops.len() == 0 {
            self
        } else {
            self.run(ops.drop_last()).apply(ops.last())
        }
    }
}

/// Recording an entry moves the balance by exactly what the entry adds to
/// the log's total, so the opening balance never changes.
pub proof fn record_keeps_opening_balance(account: AccountView, entry: TransactionView)
    ensures
        account.record(entry).opening_balance() == account.opening_balance(),
{
    lemma_total_of_push(account.transactions, entry);
}

/// The log of a cash account is a faithful cash ledger: after any sequence
/// of deposits and withdrawals, accepted or refused, the balance differs
/// from the opening balance by exactly the sum of the signed cash effects of
/// the log's entries.
pub proof fn cash_ledger_is_faithful(account: AccountView, ops: Seq<Operation>)
    ensures
        account.run(ops).opening_balance() == account.opening_balance(),
        account.run(ops).balance == account.opening_balance() + ledger_total(
            account.run(ops).transactions,
        ),
    decreases ops.len(),
{
    if ops.len() > 0 {
        cash_ledger_is_faithful(account, ops.drop_last());
        let before = account.run(ops.drop_last());
        match ops.last() {
            Operation::Deposit { amount, date } => {
                record_keeps_opening_balance(before, AccountView::deposit_entry(amount, date));
            },
            Operation::Withdraw { amount, date } => {
                record_keeps_opening_balance(before, AccountView::withdraw_entry(amount, date));
            },
            _ => {},
        }
    }
}

/// The log of an investment account is a faithful cash ledger: after any
/// sequence of deposits, withdrawals, purchases and sales, accepted or
/// refused, the balance differs from the opening balance by exactly the sum
/// of the signed cash effects of the log's entries.
pub proof fn investment_ledger_is_faithful(account: InvestmentView, ops: Seq<Operation>)
    ensures
        account.run(ops).account.opening_balance() == account.account.opening_balance(),
        account.run(ops).account.balance == account.account.opening_balance() + ledger_total(
            account.run(ops).account.transactions,
        ),
    decreases ops.len(),
{
    if ops.len() > 0 {
        investment_ledger_is_faithful(account, ops.drop_last());
        let before = account.run(ops.drop_last());
        match ops.last() {
            Operation::Deposit { amount, date } => {
                record_keeps_opening_balance(
                    before.account,
                    AccountView::deposit_entry(amount, date),
                );
            },
            Operation::Withdraw { amount, date } => {
                record_keeps_opening_balance(
                    before.account,
                    AccountView::withdraw_entry(amount, date),
                );
            },
            Operation::Purchase { symbol, price, quantity, date } => {
                record_keeps_opening_balance(
                    before.account,
                    InvestmentView::purchase_entry(symbol, price, quantity, date),
                );
            },
            Operation::Sell { symbol, price, quantity, date } => {
                record_keeps_opening_balance(
                    before.account,
                    InvestmentView::sale_entry(symbol, price, quantity, date),
                );
            },
        }
    }
}

/// The log only grows: whatever is asked of an account, the entries that it
/// held before stay where they were, unchanged, and new ones come after
/// them.
pub proof fn log_is_append_only(account: InvestmentView, ops: Seq<Operation>)
    ensures
        account.account.transactions.is_prefix_of(account.run(ops).account.transactions),
    decreases ops.len(),
{
    if ops.len() > 0 {
        log_is_append_only(account, ops.drop_last());
    }
}

/// An account opened with no cash and an empty log holds, after any
/// sequence of operations, exactly the sum of the signed cash effects of its
/// log.
pub proof fn balance_is_sum_of_log(account: InvestmentView, ops: Seq<Operation>)
    requires
        account.account.balance == 0,
        account.account.transactions.len() == 0,
    ensures
        account.run(ops).account.balance == ledger_total(account.run(ops).account.transactions),
{
    investment_ledger_is_faithful(account, ops);
}

/// No request drives the balance or a position below what the rules allow:
/// a valid account stays valid, with a balance of at least zero and every
/// position of at least one unit, and a refused request leaves the account
/// exactly as it was.
pub proof fn operations_keep_accounts_valid(account: InvestmentView, op: Operation)
    requires
        account.wf(),
        op.valid(),
    ensures
        account.apply(op).wf(),
        !account.accepts(op) ==> account.apply(op) == account,
{
    match op {
        Operation::Purchase { symbol, price, quantity, date } => {
            assert(price * quantity >= 0) by (nonlinear_arith)
                requires
                    price >= 0,
                    quantity >= 0,
            ;
            if account.accepts(op) {
                purchase_keeps_holdings_valid(account, symbol, price, quantity);
            }
        },
        Operation::Sell { symbol, price, quantity, date } => {
            assert(price * quantity >= 0) by (nonlinear_arith)
                requires
                    price >= 0,
                    quantity >= 0,
            ;
            if account.accepts(op) {
                sale_keeps_holdings_valid(account, symbol, quantity);
            }
        },
        _ => {},
    }
}

/// No request drives the balance of a cash account below zero: a valid
/// account stays valid, and a refused request leaves it exactly as it was.
pub proof fn operations_keep_cash_accounts_valid(account: AccountView, op: Operation)
    requires
        account.wf(),
        op.valid(),
    ensures
        account.apply(op).wf(),
        !account.accepts(op) ==> account.apply(op) == account,
{
}

/// A purchase leaves the holdings valid.
pub proof fn purchase_keeps_holdings_valid(
    account: InvestmentView,
    symbol: Seq<char>,
    price: int,
    quantity: int,
)
    requires
        holdings_wf(account.holdings),
        price >= 0,
        quantity >= 0,
    ensures
        holdings_wf(account.holdings_after_purchase(symbol, price, quantity)),
{
    let after = account.holdings_after_purchase(symbol, price, quantity);
    if account.holds(symbol) {
        let i = position(account.holdings, symbol);
        let held = account.holdings[i];
        assert(held.average_cost_per_unit * held.quantity + price * quantity >= 0)
            by (nonlinear_arith)
            requires
                held.average_cost_per_unit >= 0,
                held.quantity > 0,
                price >= 0,
                quantity >= 0,
        ;
        let basis = held.average_cost_per_unit * held.quantity + price * quantity;
        let units = held.quantity + quantity;
        assert(basis / units >= 0) by (nonlinear_arith)
            requires
                basis >= 0,
                units > 0,
        ;
        assert forall|a: int, b: int| 0 <= a < b < after.len() implies (#[trigger] after[a]).symbol
            != (#[trigger] after[b]).symbol by {
            assert(account.holdings[a].symbol != account.holdings[b].symbol);
        }
    } else if quantity > 0 {
        assert((price * quantity) / quantity >= 0) by (nonlinear_arith)
            requires
                price >= 0,
                quantity > 0,
        ;
        assert forall|a: int, b: int| 0 <= a < b < after.len() implies (#[trigger] after[a]).symbol
            != (#[trigger] after[b]).symbol by {
            if b < account.holdings.len() {
                assert(account.holdings[a].symbol != account.holdings[b].symbol);
            } else {
                assert(account.holdings[a].symbol != symbol);
            }
        }
    }
}

/// A sale that the account can meet leaves the holdings valid.
pub proof fn sale_keeps_holdings_valid(account: InvestmentView, symbol: Seq<char>, quantity: int)
    requires
        holdings_wf(account.holdings),
        account.can_sell(symbol, quantity),
        quantity >= 0,
    ensures
        holdings_wf(account.holdings_after_sale(symbol, quantity)),
{
    let after = account.holdings_after_sale(symbol, quantity);
    let i = position(account.holdings, symbol);
    if account.holdings[i].quantity == quantity {
        assert forall|a: int, b: int| 0 <= a < b < after.len() implies (#[trigger] after[a]).symbol
            != (#[trigger] after[b]).symbol by {
            let a0 = if a < i { a } else { a + 1 };
            let b0 = if b < i { b } else { b + 1 };
            assert(account.holdings[a0].symbol != account.holdings[b0].symbol);
        }
        assert forall|a: int| 0 <= a < after.len() implies (#[trigger] after[a]).quantity > 0
            && after[a].average_cost_per_unit >= 0 by {
            let a0 = if a < i { a } else { a + 1 };
            assert(account.holdings[a0].quantity > 0);
        }
    } else {
        assert forall|a: int, b: int| 0 <= a < b < after.len() implies (#[trigger] after[a]).symbol
            != (#[trigger] after[b]).symbol by {
            assert(account.holdings[a].symbol != account.holdings[b].symbol);
        }
    }
}

/// Buying and at once selling the same number of units of the same symbol
/// at the same price returns the balance to what it was before the trade.
/// Where at least one unit was traded the sale is always accepted, and where
/// the symbol was not held before, the holdings too are as they were.
pub proof fn sale_undoes_purchase(
    account: InvestmentView,
    symbol: Seq<char>,
    price: int,
    quantity: int,
    bought_on: int,
    sold_on: int,
)
    requires
        account.wf(),
        price >= 0,
        quantity >= 0,
        account.can_purchase(price, quantity),
    ensures
        ({
            let bought = account.apply(Operation::Purchase { symbol, price, quantity, date: bought_on });
            let sold = bought.apply(Operation::Sell { symbol, price, quantity, date: sold_on });
            &&& sold.account.balance == account.account.balance
            &&& quantity > 0 ==> bought.can_sell(symbol, quantity)
            &&& quantity > 0 && !account.holds(symbol) ==> sold.holdings == account.holdings
        }),
{
    let bought = account.purchase(symbol, price, quantity, bought_on);
    purchase_keeps_holdings_valid(account, symbol, price, quantity);
    if account.holds(symbol) {
        let i = position(account.holdings, symbol);
        assert(bought.holdings[i].symbol == symbol);
        lemma_position_unique(bought.holdings, symbol, i);
    } else if quantity > 0 {
        let i = account.holdings.len() as int;
        assert(bought.holdings[i].symbol == symbol);
        lemma_position_unique(bought.holdings, symbol, i);
        assert(bought.holdings.remove(i) =~= account.holdings);
    }
}

/// After two purchases of a symbol not held before, the position holds the
/// units of both, at an average cost of what the two purchases cost
/// together divided by the units bought together, rounded down to a whole
/// unit of currency.
pub proof fn average_cost_of_two_purchases(
    account: InvestmentView,
    symbol: Seq<char>,
    first_price: int,
    first_quantity: int,
    first_date: int,
    second_price: int,
    second_quantity: int,
    second_date: int,
)
    requires
        account.wf(),
        !account.holds(symbol),
        first_price >= 0,
        second_price >= 0,
        first_quantity >= 0,
        second_quantity >= 0,
        first_quantity + second_quantity > 0,
    ensures
        ({
            let after = account.purchase(symbol, first_price, first_quantity, first_date).purchase(
                symbol,
                second_price,
                second_quantity,
                second_date,
            );
            let cost = first_quantity * first_price + second_quantity * second_price;
            &&& after.holds(symbol)
            &&& after.holding(symbol).quantity == first_quantity + second_quantity
            &&& after.holding(symbol).average_cost_per_unit == cost / (first_quantity
                + second_quantity)
        }),
{
    let first = account.purchase(symbol, first_price, first_quantity, first_date);
    let after = first.purchase(symbol, second_price, second_quantity, second_date);
    let i = account.holdings.len() as int;
    purchase_keeps_holdings_valid(account, symbol, first_price, first_quantity);
    purchase_keeps_holdings_valid(first, symbol, second_price, second_quantity);
    if first_quantity > 0 {
        assert(first.holdings[i].symbol == symbol);
        lemma_position_unique(first.holdings, symbol, i);
        assert((first_price * first_quantity) / first_quantity == first_price)
            by (nonlinear_arith)
            requires
                first_quantity > 0,
        ;
        assert(after.holdings[i].symbol == symbol);
        lemma_position_unique(after.holdings, symbol, i);
        assert(first_price * first_quantity + second_price * second_quantity == first_quantity
            * first_price + second_quantity * second_price) by (nonlinear_arith);
    } else {
        assert(first.holdings == account.holdings);
        assert(after.holdings[i].symbol == symbol);
        lemma_position_unique(after.holdings, symbol, i);
        assert(first_quantity * first_price + second_quantity * second_price == second_price
            * second_quantity) by (nonlinear_arith)
            requires
                first_quantity == 0,
        ;
    }
}

/// A sale of part of a position leaves the average cost of the units that
/// remain as it was.
pub proof fn sale_keeps_average_cost(
    account: InvestmentView,
    symbol: Seq<char>,
    price: int,
    quantity: int,
    date: int,
)
    requires
        account.wf(),
        quantity >= 0,
        account.can_sell(symbol, quantity),
        quantity < account.holding(symbol).quantity,
    ensures
        ({
            let after = account.sell(symbol, price, quantity, date);
            &&& after.holds(symbol)
            &&& after.holding(symbol).quantity == account.holding(symbol).quantity - quantity
            &&& after.holding(symbol).average_cost_per_unit == account.holding(
                symbol,
            ).average_cost_per_unit
        }),
{
    let after = account.sell(symbol, price, quantity, date);
    let i = position(account.holdings, symbol);
    sale_keeps_holdings_valid(account, symbol, quantity);
    assert(after.holdings[i].symbol == symbol);
    lemma_position_unique(after.holdings, symbol, i);
}

/// A sale of all the units held of a symbol removes the symbol from the
/// holdings.
pub proof fn selling_all_removes_position(
    account: InvestmentView,
    symbol: Seq<char>,
    price: int,
    date: int,
)
    requires
        account.wf(),
        account.holds(symbol),
    ensures
        !account.sell(symbol, price, account.holding(symbol).quantity, date).holds(symbol),
{
    let quantity = account.holding(symbol).quantity;
    let after = account.sell(symbol, price, quantity, date);
    let i = position(account.holdings, symbol);
    assert forall|a: int| 0 <= a < after.holdings.len() implies (#[trigger] after.holdings[a]).symbol
        != symbol by {
        let a0 = if a < i { a } else { a + 1 };
        assert(after.holdings[a] == account.holdings[a0]);
        if a0 < i {
            assert(account.holdings[a0].symbol != account.holdings[i].symbol);
        } else {
            assert(account.holdings[i].symbol != account.holdings[a0].symbol);
        }
    }
}

} // verus!
