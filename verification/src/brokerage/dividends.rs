//! Reconciling dividends: which announced payments an account is still
//! owed, and paying each of them once.

use vstd::prelude::*;
use vstd::string::StringExecFns;
use crate::bank::accounts::{
    holdings_view, investment_account_is_bounded, Account, AccountView, InvestmentAccount,
    InvestmentView,
};
use crate::bank::stock::{dividends_view, Dividend, DividendView, Holding, HoldingView};
use crate::bank::{Bank, BankView};
use crate::brokerage::Broker;
use crate::bank::transactions::{
    ledger_total, lemma_total_of_push, log_view, Transaction, TransactionKind, TransactionType,
    TransactionView,
};
use crate::time::{
    calendar_date_text, day_number, day_of, format_date, lemma_day_of_start, midnight,
    start_of_day, ZonedTime,
};

verus! {

/// Whether `event` is paid after the day `after` and no later than the day
/// `until`.
pub open spec fn in_window(event: DividendView, after: int, until: int) -> bool {
    after < event.date <= until
}

/// The payments of `events` that fall in the window, in their order.
pub open spec fn valid_dividends(events: Seq<DividendView>, after: int, until: int) -> Seq<
    DividendView,
>
    decreases events.len(),
{
    if events.len() == 0 {
        Seq::empty()
    } else if in_window(events.last(), after, until) {
        valid_dividends(events.drop_last(), after, until).push(events.last())
    } else {
        valid_dividends(events.drop_last(), after, until)
    }
}

/// Whether `log` already holds a dividend on `quantity` units of `symbol`
/// dated on the day `day`.
pub open spec fn already_paid(
    log: Seq<TransactionView>,
    symbol: Seq<char>,
    quantity: int,
    day: int,
) -> bool {
    exists|i: int|
        0 <= i < log.len() && (#[trigger] log[i]).kind == TransactionKind::Dividend(
            symbol,
            quantity,
        ) && day_of(log[i].date) == day
}

/// The note written on a dividend paid for `symbol` on the day `day`.
pub open spec fn dividend_note(symbol: Seq<char>, day: int) -> Option<Seq<char>> {
    match calendar_date_text(start_of_day(day)) {
        Some(date) => Some("Dividend payment for "@ + symbol + " on "@ + date),
        None => None,
    }
}

/// The log entry that pays `event` on the position `holding`: the amount per
/// unit times the units held, dated at midnight UTC of the payment day.
pub open spec fn payout_entry(holding: HoldingView, event: DividendView) -> TransactionView {
    TransactionView {
        kind: TransactionKind::Dividend(holding.symbol, holding.quantity),
        amount: holding.quantity * event.amount,
        date: start_of_day(event.date),
        description: dividend_note(holding.symbol, event.date),
    }
}

/// Whether `event` is still owed on `holding`: it pays the symbol held, and
/// `log` has no dividend on that many units of it dated on the payment day.
pub open spec fn is_due(holding: HoldingView, log: Seq<TransactionView>, event: DividendView)
    -> bool {
    event.symbol == holding.symbol && !already_paid(
        log,
        holding.symbol,
        holding.quantity,
        event.date,
    )
}

/// The entries that pay on `holding` what is owed of `events`, in the order
/// of the events. An event is owed where neither `log` nor the entries for
/// the events before it show it as paid, so a payment announced twice is
/// paid once.
pub open spec fn payouts_of_holding(
    holding: HoldingView,
    log: Seq<TransactionView>,
    events: Seq<DividendView>,
) -> Seq<TransactionView>
    decreases events.len(),
{
    if events.len() == 0 {
        Seq::empty()
    } else {
        let earlier = payouts_of_holding(holding, log, events.drop_last());
        if is_due(holding, log + earlier, events.last()) {
            earlier.push(payout_entry(holding, events.last()))
        } else {
            earlier
        }
    }
}

/// The entries that pay on `holdings` what is owed of `events`: position by
/// position, and for each position in the order of the events.
pub open spec fn payouts(
    holdings: Seq<HoldingView>,
    log: Seq<TransactionView>,
    events: Seq<DividendView>,
) -> Seq<TransactionView>
    decreases holdings.len(),
{
    if holdings.len() == 0 {
        Seq::empty()
    } else {
        payouts(holdings.drop_last(), log, events) + payouts_of_holding(
            holdings.last(),
            log,
            events,
        )
    }
}

/// Whether no event pays a negative amount.
pub open spec fn amounts_valid(events: Seq<DividendView>) -> bool {
    forall|i: int| 0 <= i < events.len() ==> (#[trigger] events[i]).amount >= 0
}

impl AccountView {
    /// The account after each of `entries` was recorded in order.
    pub open spec fn record_all(self, entries: Seq<TransactionView>) -> AccountView
        decreases entries.len(),
    {
        if entries.len() == 0 {
            self
        } else {
            self.record_all(entries.drop_last()).record(entries.last())
        }
    }
}

impl InvestmentView {
    /// The entries that pay the account what it is owed of `events`.
    pub open spec fn dividends_due(self, events: Seq<DividendView>) -> Seq<TransactionView> {
        payouts(self.holdings, self.account.transactions, events)
    }

    /// Whether the balance can take what the account is owed of `events`
    /// and stay within 64 bits.
    pub open spec fn dividends_fit(self, events: Seq<DividendView>) -> bool {
        self.account.balance + ledger_total(self.dividends_due(events)) <= u64::MAX
    }

    /// The account after it was paid what it is owed of `events`: each
    /// payment is logged and credited; the positions stay as they are.
    pub open spec fn pay_dividends(self, events: Seq<DividendView>) -> InvestmentView {
        InvestmentView {
            account: self.account.record_all(self.dividends_due(events)),
            holdings: self.holdings,
        }
    }
}

/// The total of two logs joined is the sum of their totals.
pub proof fn lemma_total_of_concat(a: Seq<TransactionView>, b: Seq<TransactionView>)
    ensures
        ledger_total(a + b) == ledger_total(a) + ledger_total(b),
    decreases b.len(),
{
    if b.len() == 0 {
        assert(a + b =~= a);
    } else {
        lemma_total_of_concat(a, b.drop_last());
        assert((a + b).drop_last() =~= a + b.drop_last());
    }
}

/// Recording entries appends them to the log, moves the balance by their
/// total and changes nothing else.
pub proof fn lemma_record_all(account: AccountView, entries: Seq<TransactionView>)
    ensures
        account.record_all(entries) == (AccountView {
            id: account.id,
            balance: account.balance + ledger_total(entries),
            nickname: account.nickname,
            created_at: account.created_at,
            transactions: account.transactions + entries,
        }),
    decreases entries.len(),
{
    if entries.len() == 0 {
        assert(account.transactions + entries =~= account.transactions);
    } else {
        lemma_record_all(account, entries.drop_last());
        assert(account.transactions + entries =~= (account.transactions
            + entries.drop_last()).push(entries.last()));
    }
}

/// What is owed on one position of the first `count` events is a prefix of
/// what is owed of all of them, and is worth no more.
pub proof fn lemma_holding_payouts_grow(
    holding: HoldingView,
    log: Seq<TransactionView>,
    events: Seq<DividendView>,
    count: int,
)
    requires
        holding.quantity >= 0,
        amounts_valid(events),
        0 <= count <= events.len(),
    ensures
        0 <= ledger_total(payouts_of_holding(holding, log, events.take(count))) <= ledger_total(
            payouts_of_holding(holding, log, events),
        ),
    decreases events.len(),
{
    if events.len() == 0 {
        assert(events.take(count) =~= events);
    } else if count == events.len() {
        assert(events.take(count) =~= events);
        lemma_holding_payouts_grow(holding, log, events.drop_last(), count - 1);
        assert(amounts_valid(events.drop_last()));
        lemma_payout_worth(holding, events.last());
        assert(events[events.len() - 1].amount >= 0);
        lemma_total_of_push(
            payouts_of_holding(holding, log, events.drop_last()),
            payout_entry(holding, events.last()),
        );
    } else {
        assert(amounts_valid(events.drop_last()));
        lemma_holding_payouts_grow(holding, log, events.drop_last(), count);
        assert(events.drop_last().take(count) =~= events.take(count));
        assert(events[events.len() - 1].amount >= 0);
        lemma_payout_worth(holding, events.last());
        lemma_total_of_push(
            payouts_of_holding(holding, log, events.drop_last()),
            payout_entry(holding, events.last()),
        );
    }
}

/// A payout is worth the units held times the amount per unit, which is
/// never negative.
pub proof fn lemma_payout_worth(holding: HoldingView, event: DividendView)
    ensures
        payout_entry(holding, event).cash_effect() == holding.quantity * event.amount,
        holding.quantity >= 0 && event.amount >= 0 ==> holding.quantity * event.amount >= 0,
{
    if holding.quantity >= 0 && event.amount >= 0 {
        assert(holding.quantity * event.amount >= 0) by (nonlinear_arith)
            requires
                holding.quantity >= 0,
                event.amount >= 0,
        ;
    }
}

/// Whether every position holds at least no units.
pub open spec fn quantities_valid(holdings: Seq<HoldingView>) -> bool {
    forall|i: int| 0 <= i < holdings.len() ==> (#[trigger] holdings[i]).quantity >= 0
}

/// What is owed on the first `count` positions is worth no more than what is
/// owed on all of them.
pub proof fn lemma_payouts_grow(
    holdings: Seq<HoldingView>,
    log: Seq<TransactionView>,
    events: Seq<DividendView>,
    count: int,
)
    requires
        quantities_valid(holdings),
        amounts_valid(events),
        0 <= count <= holdings.len(),
    ensures
        0 <= ledger_total(payouts(holdings.take(count), log, events)) <= ledger_total(
            payouts(holdings, log, events),
        ),
    decreases holdings.len(),
{
    if holdings.len() == 0 {
        assert(holdings.take(count) =~= holdings);
    } else {
        assert(quantities_valid(holdings.drop_last()));
        assert(holdings[holdings.len() - 1].quantity >= 0);
        lemma_holding_payouts_grow(holdings.last(), log, events, 0);
        assert(events.take(0) =~= Seq::<DividendView>::empty());
        lemma_total_of_concat(
            payouts(holdings.drop_last(), log, events),
            payouts_of_holding(holdings.last(), log, events),
        );
        if count == holdings.len() {
            assert(holdings.take(count) =~= holdings);
            lemma_payouts_grow(holdings.drop_last(), log, events, count - 1);
        } else {
            lemma_payouts_grow(holdings.drop_last(), log, events, count);
            assert(holdings.drop_last().take(count) =~= holdings.take(count));
        }
    }
}

impl Broker {
    /// Keeps the payments of `data` that are paid after the day that
    /// `last_loaded` shows and no later than the day that `date` shows, in their
    /// order.
    pub fn parse_valid_dividend_data(data: &Vec<Dividend>, last_loaded: &ZonedTime, date: &ZonedTime)
        -> (valid: Vec<Dividend>)
        ensures
            dividends_view(valid@) == valid_dividends(
                dividends_view(data@),
                last_loaded.local_day(),
                date.local_day(),
            ),
    {
        let after: i64 = last_loaded.date_naive();
        let until: i64 = date.date_naive();
        let mut valid: Vec<Dividend> = Vec::new();
        let mut i: usize = 0;
        assert(dividends_view(data@).take(0) =~= Seq::<DividendView>::empty());
        assert(dividends_view(valid@) =~= Seq::<DividendView>::empty());
        while i < data.len()
            invariant
                i <= data.len(),
                after == last_loaded.local_day(),
                until == date.local_day(),
                dividends_view(valid@) == valid_dividends(
                    dividends_view(data@).take(i as int),
                    after as int,
                    until as int,
                ),
            decreases data.len() - i,
        {
            let ghost before = dividends_view(valid@);
            let paid_on: i64 = data[i].date as i64;
            if after < paid_on && paid_on <= until {
                valid.push(data[i].clone());
            }
            proof {
                let seen = dividends_view(data@).take(i as int + 1);
                assert(seen.drop_last() =~= dividends_view(data@).take(i as int));
                assert(seen.last() == data[i as int]@);
                if in_window(data[i as int]@, after as int, until as int) {
                    assert(dividends_view(valid@) =~= before.push(data[i as int]@));
                } else {
                    assert(dividends_view(valid@) =~= before);
                }
            }
            i = i + 1;
        }
        assert(dividends_view(data@).take(data.len() as int) =~= dividends_view(data@));
        valid
    }
}

/// Whether `log` already holds a dividend on the units of `holding` dated
/// on the day `day`.
fn was_paid(log: &Vec<Transaction>, holding: &Holding, day: i64) -> (paid: bool)
    ensures
        paid == already_paid(log_view(log@), holding@.symbol, holding@.quantity, day as int),
{
    let wanted = TransactionType::Dividend(holding.asset.clone(), holding.quantity);
    let mut i: usize = 0;
    while i < log.len()
        invariant
            i <= log.len(),
            wanted@ == TransactionKind::Dividend(holding@.symbol, holding@.quantity),
            forall|j: int|
                0 <= j < i ==> !((#[trigger] log_view(log@)[j]).kind == wanted@ && day_of(
                    log_view(log@)[j].date,
                ) == day),
        decreases log.len() - i,
    {
        if log[i].transaction_type == wanted && day_number(log[i].date) == day {
            assert(log_view(log@)[i as int].kind == wanted@);
            return true;
        }
        i = i + 1;
    }
    false
}

/// The note for a dividend paid for `symbol` on the date written as
/// `date`: "Dividend payment for", the symbol, "on" and the date. A date
/// that could not be written leaves the payment without a note.
pub fn dividend_note_from(symbol: &String, date: Option<String>) -> (note: Option<String>)
    ensures
        match date {
            Some(written) => note matches Some(text) && text@ == "Dividend payment for "@
                + symbol@ + " on "@ + written@,
            None => note is None,
        },
{
    match date {
        Some(written) => {
            let mut text = String::from_str("Dividend payment for ");
            text.append(symbol.as_str());
            text.append(" on ");
            text.append(written.as_str());
            Some(text)
        },
        None => None,
    }
}

/// The note written on a dividend paid for `symbol` on the day `day`.
fn note_for(symbol: &String, day: i32) -> (note: Option<String>)
    ensures
        match note {
            Some(text) => dividend_note(symbol@, day as int) == Some(text@),
            None => dividend_note(symbol@, day as int) is None,
        },
{
    dividend_note_from(symbol, format_date(midnight(day)))
}

/// Lists the entries that pay on `holding` what is owed of `events`, with
/// what they are worth together, or nothing where that is more than `room`.
fn payouts_on(holding: &Holding, log: &Vec<Transaction>, events: &Vec<Dividend>, room: u64)
    -> (due: Option<(Vec<Transaction>, u64)>)
    ensures
        match due {
            Some((entries, total)) => {
                &&& log_view(entries@) == payouts_of_holding(
                    holding@,
                    log_view(log@),
                    dividends_view(events@),
                )
                &&& total == ledger_total(log_view(entries@))
                &&& total <= room
                &&& forall|i: int|
                    0 <= i < entries.len() ==> (#[trigger] log_view(entries@)[i]).cash_effect()
                        >= 0
            },
            None => ledger_total(
                payouts_of_holding(holding@, log_view(log@), dividends_view(events@)),
            ) > room,
        },
{
    let ghost logged = log_view(log@);
    let ghost announced = dividends_view(events@);
    let mut entries: Vec<Transaction> = Vec::new();
    let mut total: u64 = 0;
    let mut j: usize = 0;
    proof {
        assert(announced.take(0) =~= Seq::<DividendView>::empty());
        assert(log_view(entries@) =~= Seq::<TransactionView>::empty());
        assert(amounts_valid(announced));
    }
    while j < events.len()
        invariant
            j <= events.len(),
            logged == log_view(log@),
            announced == dividends_view(events@),
            amounts_valid(announced),
            holding@.quantity >= 0,
            log_view(entries@) == payouts_of_holding(holding@, logged, announced.take(j as int)),
            total == ledger_total(log_view(entries@)),
            total <= room,
            forall|i: int|
                0 <= i < entries.len() ==> (#[trigger] log_view(entries@)[i]).cash_effect() >= 0,
        decreases events.len() - j,
    {
        let event = &events[j];
        let day: i64 = event.date as i64;
        let ghost before = log_view(entries@);
        let ghost seen = announced.take(j as int + 1);
        proof {
            assert(seen.drop_last() =~= announced.take(j as int));
            assert(seen.last() == event@);
            assert(announced[j as int].amount >= 0);
            lemma_payout_worth(holding@, event@);
            lemma_paid_in_concat(
                logged,
                before,
                holding@.symbol,
                holding@.quantity,
                event@.date,
            );
        }
        if event.asset.symbol == holding.asset.symbol && !was_paid(log, holding, day) && !was_paid(
            &entries,
            holding,
            day,
        ) {
            assert(0 <= holding.quantity * event.amount <= u64::MAX * u64::MAX)
                by (nonlinear_arith)
                requires
                    0 <= holding.quantity <= u64::MAX,
                    0 <= event.amount <= u64::MAX,
            ;
            let amount: u128 = (holding.quantity as u128) * (event.amount as u128);
            if amount > (room - total) as u128 {
                proof {
                    lemma_total_of_push(before, payout_entry(holding@, event@));
                    lemma_holding_payouts_grow(holding@, logged, announced, j as int + 1);
                }
                return None;
            }
            let entry = Transaction::new(
                TransactionType::Dividend(holding.asset.clone(), holding.quantity),
                amount as u64,
                midnight(event.date),
                note_for(&holding.asset.symbol, event.date),
            );
            proof {
                assert(entry@ == payout_entry(holding@, event@));
                lemma_total_of_push(before, entry@);
            }
            entries.push(entry);
            total = total + amount as u64;
            proof {
                assert(log_view(entries@) =~= before.push(payout_entry(holding@, event@)));
            }
        }
        j = j + 1;
    }
    proof {
        assert(announced.take(events.len() as int) =~= announced);
    }
    Some((entries, total))
}

impl InvestmentAccount {
    /// Lists the entries that pay the account what it is owed of `events`,
    /// or nothing where the balance could not take them within 64 bits. No
    /// two of the entries pay the same symbol on the same day, whatever
    /// `events` holds.
    pub fn dividends_due(&self, events: &Vec<Dividend>) -> (due: Option<Vec<Transaction>>)
        requires
            self.wf(),
        ensures
            match due {
                Some(entries) => {
                    &&& self@.dividends_fit(dividends_view(events@))
                    &&& log_view(entries@) == self@.dividends_due(dividends_view(events@))
                    &&& pays_once(log_view(entries@))
                    &&& forall|i: int|
                        0 <= i < entries.len() ==> (#[trigger] log_view(entries@)[i]).cash_effect()
                            >= 0
                },
                None => !self@.dividends_fit(dividends_view(events@)),
            },
    {
        let holdings = self.get_investments();
        let log = self.get_transactions();
        let balance: u64 = self.get_balance();
        let ghost held = self@.holdings;
        let ghost logged = self@.account.transactions;
        let ghost announced = dividends_view(events@);
        proof {
            investment_account_is_bounded(self);
            assert(quantities_valid(held));
            assert(amounts_valid(announced));
            assert(held.take(0) =~= Seq::<HoldingView>::empty());
        }
        let mut entries: Vec<Transaction> = Vec::new();
        let mut total: u64 = 0;
        assert(log_view(entries@) =~= Seq::<TransactionView>::empty());
        let mut k: usize = 0;
        while k < holdings.len()
            invariant
                k <= holdings.len(),
                holdings_view(holdings@) == held,
                log_view(log@) == logged,
                dividends_view(events@) == announced,
                held == self@.holdings,
                logged == self@.account.transactions,
                balance == self@.account.balance,
                quantities_valid(held),
                amounts_valid(announced),
                log_view(entries@) == payouts(held.take(k as int), logged, announced),
                total == ledger_total(log_view(entries@)),
                balance + total <= u64::MAX,
                forall|i: int|
                    0 <= i < entries.len() ==> (#[trigger] log_view(entries@)[i]).cash_effect()
                        >= 0,
            decreases holdings.len() - k,
        {
            let room: u64 = u64::MAX - balance - total;
            let ghost done = log_view(entries@);
            proof {
                let upto = held.take(k as int + 1);
                let latest = payouts_of_holding(holdings[k as int]@, logged, announced);
                assert(upto.drop_last() =~= held.take(k as int));
                assert(upto.last() == holdings[k as int]@);
                assert(payouts(upto, logged, announced) == done + latest);
                lemma_total_of_concat(done, latest);
            }
            match payouts_on(&holdings[k], log, events, room) {
                None => {
                    proof {
                        lemma_payouts_grow(held, logged, announced, k as int + 1);
                    }
                    return None;
                },
                Some((mut part, worth)) => {
                    let ghost added = log_view(part@);
                    entries.append(&mut part);
                    total = total + worth;
                    proof {
                        assert(log_view(entries@) =~= done + added);
                    }
                },
            }
            k = k + 1;
        }
        proof {
            assert(held.take(holdings.len() as int) =~= held);
            lemma_payouts_pay_once(held, logged, announced);
        }
        Some(entries)
    }
}

/// The first entries of a log of credits are worth no more than the whole
/// log.
pub proof fn lemma_prefix_worth(log: Seq<TransactionView>, count: int)
    requires
        forall|i: int| 0 <= i < log.len() ==> (#[trigger] log[i]).cash_effect() >= 0,
        0 <= count <= log.len(),
    ensures
        0 <= ledger_total(log.take(count)) <= ledger_total(log),
    decreases log.len(),
{
    if log.len() == 0 {
        assert(log.take(count) =~= log);
    } else if count == log.len() {
        assert(log.take(count) =~= log);
        lemma_prefix_worth(log.drop_last(), count - 1);
        assert(log[log.len() - 1].cash_effect() >= 0);
    } else {
        lemma_prefix_worth(log.drop_last(), count);
        assert(log.drop_last().take(count) =~= log.take(count));
        assert(log[log.len() - 1].cash_effect() >= 0);
    }
}

impl InvestmentAccount {
    /// Pays the account what it is owed of `events`: one log entry and one
    /// credit for each payment due, in the order of the positions and, for
    /// each position, of the events. A payment that `events` announces more
    /// than once is paid once: no two of the new entries pay the same symbol
    /// on the same day.
    ///
    /// The balance must be able to take the payments within 64 bits, which
    /// is what `dividends_due` tests.
    pub fn pay_dividends(&mut self, events: &Vec<Dividend>)
        requires
            old(self).wf(),
            old(self)@.dividends_fit(dividends_view(events@)),
        ensures
            final(self).wf(),
            final(self)@ == old(self)@.pay_dividends(dividends_view(events@)),
            pays_once(old(self)@.dividends_due(dividends_view(events@))),
    {
        let ghost start = self@;
        let ghost due = start.dividends_due(dividends_view(events@));
        match self.dividends_due(events) {
            Some(entries) => {
                let mut i: usize = 0;
                proof {
                    assert(due.take(0) =~= Seq::<TransactionView>::empty());
                }
                while i < entries.len()
                    invariant
                        i <= entries.len(),
                        self.wf(),
                        log_view(entries@) == due,
                        forall|n: int| 0 <= n < due.len() ==> (#[trigger] due[n]).cash_effect() >= 0,
                        start.account.balance + ledger_total(due) <= u64::MAX,
                        self@ == (InvestmentView {
                            account: start.account.record_all(due.take(i as int)),
                            holdings: start.holdings,
                        }),
                    decreases entries.len() - i,
                {
                    proof {
                        lemma_record_all(start.account, due.take(i as int));
                        lemma_prefix_worth(due, i as int);
                        lemma_prefix_worth(due, i as int + 1);
                        assert(due.take(i as int + 1).drop_last() =~= due.take(i as int));
                        assert(due.take(i as int + 1).last() == due[i as int]);
                        assert(entries[i as int]@ == due[i as int]);
                    }
                    self.add_transaction(entries[i].clone());
                    i = i + 1;
                }
                proof {
                    assert(due.take(entries.len() as int) =~= due);
                }
            },
            None => {
                assert(false);
            },
        }
    }
}

impl BankView {
    /// Whether every investment account can take what it is owed of
    /// `events` within 64 bits.
    pub open spec fn dividends_fit(self, events: Seq<DividendView>) -> bool {
        forall|id: u32|
            self.investment.contains_key(id) ==> (#[trigger] self.investment[id]).dividends_fit(
                events,
            )
    }

    /// Whether the sweep over `events` pays no account twice for one symbol
    /// and one day.
    pub open spec fn pays_once(self, events: Seq<DividendView>) -> bool {
        forall|id: u32|
            self.investment.contains_key(id) ==> pays_once(
                (#[trigger] self.investment[id]).dividends_due(events),
            )
    }

    /// The bank after every investment account was paid what it is owed of
    /// `events`.
    pub open spec fn pay_dividends(self, events: Seq<DividendView>) -> BankView {
        BankView {
            checking: self.checking,
            investment: Map::new(
                |id: u32| self.investment.contains_key(id),
                |id: u32| self.investment[id].pay_dividends(events),
            ),
        }
    }
}

impl Bank {
    /// Whether every investment account can take what it is owed of
    /// `events` within 64 bits.
    pub fn dividends_payable(&self, events: &Vec<Dividend>) -> (payable: bool)
        requires
            self.wf(),
        ensures
            payable == self@.dividends_fit(dividends_view(events@)),
    {
        let ids = self.get_investment_account_ids();
        let mut i: usize = 0;
        while i < ids.len()
            invariant
                i <= ids.len(),
                self.wf(),
                ids@.to_set() == self@.investment.dom(),
                forall|n: int|
                    0 <= n < i ==> (#[trigger] self@.investment[ids[n]]).dividends_fit(
                        dividends_view(events@),
                    ),
            decreases ids.len() - i,
        {
            assert(ids@.to_set().contains(ids[i as int]));
            match self.get_investment_account(ids[i]) {
                Ok(account) => {
                    if account.dividends_due(events).is_none() {
                        return false;
                    }
                },
                Err(_) => {},
            }
            i = i + 1;
        }
        proof {
            assert forall|id: u32| self@.investment.contains_key(id) implies (
            #[trigger] self@.investment[id]).dividends_fit(dividends_view(events@)) by {
                assert(ids@.to_set().contains(id));
                let n = choose|n: int| 0 <= n < ids.len() && ids[n] == id;
                assert(self@.investment[ids[n]].dividends_fit(dividends_view(events@)));
            }
        }
        true
    }

    /// Pays every investment account what it is owed of `events`, each
    /// payment once however often `events` announces it.
    ///
    /// Every balance must be able to take its payments within 64 bits, which
    /// is what `dividends_payable` tests.
    pub fn pay_dividends(&mut self, events: &Vec<Dividend>)
        requires
            old(self).wf(),
            old(self)@.dividends_fit(dividends_view(events@)),
        ensures
            final(self).wf(),
            final(self)@ == old(self)@.pay_dividends(dividends_view(events@)),
            old(self)@.pays_once(dividends_view(events@)),
    {
        let ghost start = self@;
        let ghost announced = dividends_view(events@);
        proof {
            assert forall|id: u32| start.investment.contains_key(id) implies pays_once(
                (#[trigger] start.investment[id]).dividends_due(announced),
            ) by {
                sweep_pays_each_day_once(start.investment[id], announced);
            }
        }
        let ids = self.get_investment_account_ids();
        let mut i: usize = 0;
        while i < ids.len()
            invariant
                i <= ids.len(),
                self.wf(),
                start.wf(),
                start.dividends_fit(announced),
                announced == dividends_view(events@),
                ids@.no_duplicates(),
                ids@.to_set() == start.investment.dom(),
                self@.checking == start.checking,
                self@.investment.dom() == start.investment.dom(),
                forall|n: int|
                    0 <= n < i ==> self@.investment[#[trigger] ids[n]]
                        == start.investment[ids[n]].pay_dividends(announced),
                forall|n: int|
                    i <= n < ids.len() ==> self@.investment[#[trigger] ids[n]]
                        == start.investment[ids[n]],
            decreases ids.len() - i,
        {
            let id: u32 = ids[i];
            let ghost before = self@;
            proof {
                assert(ids@.to_set().contains(id));
                assert(start.investment[id].dividends_fit(announced));
                assert(before.investment[id].wf());
            }
            match self.get_investment_account_mut(id) {
                Ok(account) => {
                    account.pay_dividends(events);
                },
                Err(_) => {},
            }
            proof {
                assert(self@.investment =~= before.investment.insert(
                    id,
                    start.investment[id].pay_dividends(announced),
                ));
                assert forall|n: int| 0 <= n < i + 1 implies self@.investment[#[trigger] ids[n]]
                    == start.investment[ids[n]].pay_dividends(announced) by {
                    if n < i {
                        assert(ids[n] != ids[i as int]);
                    }
                }
                assert forall|n: int| i + 1 <= n < ids.len() implies self@.investment[
                #[trigger] ids[n]] == start.investment[ids[n]] by {
                    assert(ids[n] != ids[i as int]);
                }
            }
            i = i + 1;
        }
        proof {
            assert forall|id: u32| start.investment.contains_key(id) implies self@.investment[id]
                == start.investment[id].pay_dividends(announced) by {
                assert(ids@.to_set().contains(id));
                let n = choose|n: int| 0 <= n < ids.len() && ids[n] == id;
                assert(self@.investment[ids[n]] == start.investment[ids[n]].pay_dividends(
                    announced,
                ));
            }
            assert(self@.investment =~= start.pay_dividends(announced).investment);
        }
    }
}

/// A dividend is found in two logs joined exactly where it is found in one
/// of them.
pub proof fn lemma_paid_in_concat(
    first: Seq<TransactionView>,
    second: Seq<TransactionView>,
    symbol: Seq<char>,
    quantity: int,
    day: int,
)
    ensures
        already_paid(first + second, symbol, quantity, day) <==> already_paid(
            first,
            symbol,
            quantity,
            day,
        ) || already_paid(second, symbol, quantity, day),
{
    let wanted = TransactionKind::Dividend(symbol, quantity);
    let joined = first + second;
    if already_paid(first, symbol, quantity, day) {
        let i = choose|i: int|
            0 <= i < first.len() && (#[trigger] first[i]).kind == wanted && day_of(first[i].date)
                == day;
        assert(joined[i] == first[i]);
    }
    if already_paid(second, symbol, quantity, day) {
        let i = choose|i: int|
            0 <= i < second.len() && (#[trigger] second[i]).kind == wanted && day_of(
                second[i].date,
            ) == day;
        assert(joined[first.len() + i] == second[i]);
    }
    if already_paid(joined, symbol, quantity, day) {
        let i = choose|i: int|
            0 <= i < joined.len() && (#[trigger] joined[i]).kind == wanted && day_of(
                joined[i].date,
            ) == day;
        if i < first.len() {
            assert(first[i] == joined[i]);
        } else {
            assert(second[i - first.len()] == joined[i]);
        }
    }
}

/// A dividend found in a log is found in the log grown by one entry.
pub proof fn lemma_paid_in_push(
    log: Seq<TransactionView>,
    entry: TransactionView,
    symbol: Seq<char>,
    quantity: int,
    day: int,
)
    requires
        already_paid(log, symbol, quantity, day),
    ensures
        already_paid(log.push(entry), symbol, quantity, day),
{
    let i = choose|i: int|
        0 <= i < log.len() && (#[trigger] log[i]).kind == TransactionKind::Dividend(
            symbol,
            quantity,
        ) && day_of(log[i].date) == day;
    assert(log.push(entry)[i] == log[i]);
}

/// Every event for the symbol of a position is shown as paid once the
/// position was paid: by the log as it was, or by one of the new entries.
pub proof fn lemma_due_is_paid_on_holding(
    holding: HoldingView,
    log: Seq<TransactionView>,
    events: Seq<DividendView>,
    i: int,
)
    requires
        0 <= i < events.len(),
        events[i].symbol == holding.symbol,
    ensures
        already_paid(
            log + payouts_of_holding(holding, log, events),
            holding.symbol,
            holding.quantity,
            events[i].date,
        ),
    decreases events.len(),
{
    let paid = payouts_of_holding(holding, log, events);
    let earlier = payouts_of_holding(holding, log, events.drop_last());
    let day = events[i].date;
    if i == events.len() - 1 {
        if is_due(holding, log + earlier, events.last()) {
            lemma_day_of_start(day);
            assert(paid[paid.len() - 1] == payout_entry(holding, events[i]));
            assert(already_paid(paid, holding.symbol, holding.quantity, day));
            lemma_paid_in_concat(log, paid, holding.symbol, holding.quantity, day);
        }
    } else {
        lemma_due_is_paid_on_holding(holding, log, events.drop_last(), i);
        assert(events.drop_last()[i] == events[i]);
        lemma_paid_in_concat(log, earlier, holding.symbol, holding.quantity, day);
        if already_paid(earlier, holding.symbol, holding.quantity, day) && paid != earlier {
            lemma_paid_in_push(
                earlier,
                payout_entry(holding, events.last()),
                holding.symbol,
                holding.quantity,
                day,
            );
        }
        lemma_paid_in_concat(log, paid, holding.symbol, holding.quantity, day);
    }
}

/// Every event for the symbol of one of the positions is shown as paid
/// once all positions were paid.
pub proof fn lemma_due_is_paid(
    holdings: Seq<HoldingView>,
    log: Seq<TransactionView>,
    events: Seq<DividendView>,
    a: int,
    i: int,
)
    requires
        0 <= a < holdings.len(),
        0 <= i < events.len(),
        events[i].symbol == holdings[a].symbol,
    ensures
        already_paid(
            log + payouts(holdings, log, events),
            holdings[a].symbol,
            holdings[a].quantity,
            events[i].date,
        ),
    decreases holdings.len(),
{
    let earlier = payouts(holdings.drop_last(), log, events);
    let latest = payouts_of_holding(holdings.last(), log, events);
    let symbol = holdings[a].symbol;
    let quantity = holdings[a].quantity;
    let day = events[i].date;
    if a == holdings.len() - 1 {
        lemma_due_is_paid_on_holding(holdings[a], log, events, i);
        lemma_paid_in_concat(log, latest, symbol, quantity, day);
    } else {
        lemma_due_is_paid(holdings.drop_last(), log, events, a, i);
        assert(holdings.drop_last()[a] == holdings[a]);
        lemma_paid_in_concat(log, earlier, symbol, quantity, day);
    }
    lemma_paid_in_concat(earlier, latest, symbol, quantity, day);
    lemma_paid_in_concat(log, earlier + latest, symbol, quantity, day);
}

/// Where nothing is due on a position, nothing is paid on it.
pub proof fn lemma_nothing_due_on_holding(
    holding: HoldingView,
    log: Seq<TransactionView>,
    events: Seq<DividendView>,
)
    requires
        forall|i: int| 0 <= i < events.len() ==> !is_due(holding, log, #[trigger] events[i]),
    ensures
        payouts_of_holding(holding, log, events) == Seq::<TransactionView>::empty(),
    decreases events.len(),
{
    if events.len() > 0 {
        assert(!is_due(holding, log, events[events.len() - 1]));
        assert forall|i: int| 0 <= i < events.drop_last().len() implies !is_due(
            holding,
            log,
            #[trigger] events.drop_last()[i],
        ) by {
            assert(events.drop_last()[i] == events[i]);
        }
        lemma_nothing_due_on_holding(holding, log, events.drop_last());
        assert(log + Seq::<TransactionView>::empty() =~= log);
    }
}

/// Where nothing is due on any position, nothing is paid.
pub proof fn lemma_nothing_due(
    holdings: Seq<HoldingView>,
    log: Seq<TransactionView>,
    events: Seq<DividendView>,
)
    requires
        forall|a: int, i: int|
            0 <= a < holdings.len() && 0 <= i < events.len() ==> !is_due(
                #[trigger] holdings[a],
                log,
                #[trigger] events[i],
            ),
    ensures
        payouts(holdings, log, events) == Seq::<TransactionView>::empty(),
    decreases holdings.len(),
{
    if holdings.len() > 0 {
        let last = holdings.len() - 1;
        assert forall|i: int| 0 <= i < events.len() implies !is_due(
            holdings.last(),
            log,
            #[trigger] events[i],
        ) by {
            assert(!is_due(holdings[last], log, events[i]));
        }
        lemma_nothing_due_on_holding(holdings.last(), log, events);
        assert forall|a: int, i: int|
            0 <= a < holdings.drop_last().len() && 0 <= i < events.len() implies !is_due(
            #[trigger] holdings.drop_last()[a],
            log,
            #[trigger] events[i],
        ) by {
            assert(!is_due(holdings[a], log, events[i]));
        }
        lemma_nothing_due(holdings.drop_last(), log, events);
        assert(payouts(holdings, log, events) =~= Seq::<TransactionView>::empty());
    }
}

/// No payment is made twice: once an account was paid what it is owed of
/// some events, it is owed nothing more of them, so paying again over the
/// same events adds no entry and no cash.
pub proof fn dividends_are_paid_once(account: InvestmentView, events: Seq<DividendView>)
    ensures
        account.pay_dividends(events).dividends_due(events) == Seq::<TransactionView>::empty(),
        account.pay_dividends(events).pay_dividends(events) == account.pay_dividends(events),
{
    let log = account.account.transactions;
    let paid = account.dividends_due(events);
    lemma_record_all(account.account, paid);
    assert forall|a: int, i: int|
        0 <= a < account.holdings.len() && 0 <= i < events.len() implies !is_due(
        #[trigger] account.holdings[a],
        log + paid,
        #[trigger] events[i],
    ) by {
        if events[i].symbol == account.holdings[a].symbol {
            lemma_due_is_paid(account.holdings, log, events, a, i);
        }
    }
    lemma_nothing_due(account.holdings, log + paid, events);
}

/// Whether two entries are dividends on the same symbol dated on the same
/// day.
pub open spec fn same_payment(first: TransactionView, second: TransactionView) -> bool {
    &&& first.kind matches TransactionKind::Dividend(symbol, _)
    &&& second.kind matches TransactionKind::Dividend(other, _)
    &&& symbol == other
    &&& day_of(first.date) == day_of(second.date)
}

/// Whether no two of `entries` are dividends on the same symbol dated on
/// the same day.
pub open spec fn pays_once(entries: Seq<TransactionView>) -> bool {
    forall|i: int, j: int|
        0 <= i < j < entries.len() ==> !same_payment(#[trigger] entries[i], #[trigger] entries[j])
}

/// Every entry that pays on a position is a dividend on its symbol and its
/// units.
pub proof fn lemma_holding_payouts_are_dividends(
    holding: HoldingView,
    log: Seq<TransactionView>,
    events: Seq<DividendView>,
    k: int,
)
    requires
        0 <= k < payouts_of_holding(holding, log, events).len(),
    ensures
        payouts_of_holding(holding, log, events)[k].kind == TransactionKind::Dividend(
            holding.symbol,
            holding.quantity,
        ),
    decreases events.len(),
{
    let earlier = payouts_of_holding(holding, log, events.drop_last());
    if k < earlier.len() {
        lemma_holding_payouts_are_dividends(holding, log, events.drop_last(), k);
    }
}

/// No two entries that pay on one position are dated on the same day.
pub proof fn lemma_holding_pays_once(
    holding: HoldingView,
    log: Seq<TransactionView>,
    events: Seq<DividendView>,
)
    ensures
        pays_once(payouts_of_holding(holding, log, events)),
    decreases events.len(),
{
    let paid = payouts_of_holding(holding, log, events);
    if events.len() > 0 {
        let earlier = payouts_of_holding(holding, log, events.drop_last());
        let day = events.last().date;
        lemma_holding_pays_once(holding, log, events.drop_last());
        assert forall|i: int, j: int| 0 <= i < j < paid.len() implies !same_payment(
            #[trigger] paid[i],
            #[trigger] paid[j],
        ) by {
            if j < earlier.len() {
                assert(paid[i] == earlier[i] && paid[j] == earlier[j]);
            } else {
                lemma_holding_payouts_are_dividends(holding, log, events.drop_last(), i);
                lemma_day_of_start(day);
                assert(paid[i] == earlier[i]);
                if day_of(earlier[i].date) == day {
                    assert(already_paid(earlier, holding.symbol, holding.quantity, day));
                    lemma_paid_in_concat(log, earlier, holding.symbol, holding.quantity, day);
                }
            }
        }
    }
}

/// Every entry that pays on some positions is a dividend on the symbol of
/// one of them.
pub proof fn lemma_payouts_are_dividends(
    holdings: Seq<HoldingView>,
    log: Seq<TransactionView>,
    events: Seq<DividendView>,
    k: int,
)
    requires
        0 <= k < payouts(holdings, log, events).len(),
    ensures
        exists|a: int|
            0 <= a < holdings.len() && payouts(holdings, log, events)[k].kind
                == TransactionKind::Dividend((#[trigger] holdings[a]).symbol, holdings[a].quantity),
    decreases holdings.len(),
{
    let earlier = payouts(holdings.drop_last(), log, events);
    if k < earlier.len() {
        lemma_payouts_are_dividends(holdings.drop_last(), log, events, k);
        let a = choose|a: int|
            0 <= a < holdings.drop_last().len() && earlier[k].kind == TransactionKind::Dividend(
                (#[trigger] holdings.drop_last()[a]).symbol,
                holdings.drop_last()[a].quantity,
            );
        assert(holdings[a] == holdings.drop_last()[a]);
    } else {
        lemma_holding_payouts_are_dividends(holdings.last(), log, events, k - earlier.len());
        assert(holdings[holdings.len() - 1] == holdings.last());
    }
}

/// Where no two positions are in the same symbol, no two entries of one
/// sweep pay the same symbol on the same day.
pub proof fn lemma_payouts_pay_once(
    holdings: Seq<HoldingView>,
    log: Seq<TransactionView>,
    events: Seq<DividendView>,
)
    requires
        forall|a: int, b: int|
            0 <= a < b < holdings.len() ==> (#[trigger] holdings[a]).symbol != (
            #[trigger] holdings[b]).symbol,
    ensures
        pays_once(payouts(holdings, log, events)),
    decreases holdings.len(),
{
    let paid = payouts(holdings, log, events);
    if holdings.len() > 0 {
        let earlier = payouts(holdings.drop_last(), log, events);
        let latest = payouts_of_holding(holdings.last(), log, events);
        assert forall|a: int, b: int| 0 <= a < b < holdings.drop_last().len() implies (
        #[trigger] holdings.drop_last()[a]).symbol != (#[trigger] holdings.drop_last()[b]).symbol by {
            assert(holdings[a].symbol != holdings[b].symbol);
        }
        lemma_payouts_pay_once(holdings.drop_last(), log, events);
        lemma_holding_pays_once(holdings.last(), log, events);
        assert forall|i: int, j: int| 0 <= i < j < paid.len() implies !same_payment(
            #[trigger] paid[i],
            #[trigger] paid[j],
        ) by {
            if j < earlier.len() {
                assert(paid[i] == earlier[i] && paid[j] == earlier[j]);
            } else if i >= earlier.len() {
                assert(paid[i] == latest[i - earlier.len()]);
                assert(paid[j] == latest[j - earlier.len()]);
            } else {
                lemma_payouts_are_dividends(holdings.drop_last(), log, events, i);
                let a = choose|a: int|
                    0 <= a < holdings.drop_last().len() && earlier[i].kind
                        == TransactionKind::Dividend(
                        (#[trigger] holdings.drop_last()[a]).symbol,
                        holdings.drop_last()[a].quantity,
                    );
                lemma_holding_payouts_are_dividends(
                    holdings.last(),
                    log,
                    events,
                    j - earlier.len(),
                );
                assert(holdings[a].symbol != holdings[holdings.len() - 1].symbol);
            }
        }
    }
}

/// One sweep pays each symbol at most once for each day, whatever the
/// provider announces and however often: no two entries that the sweep adds
/// to an account are dividends on the same symbol dated on the same day.
pub proof fn sweep_pays_each_day_once(account: InvestmentView, events: Seq<DividendView>)
    requires
        account.wf(),
    ensures
        pays_once(account.dividends_due(events)),
{
    lemma_payouts_pay_once(account.holdings, account.account.transactions, events);
}

/// Dividends keep the log a faithful cash ledger: paying an account what it
/// is owed moves its balance by exactly the sum of the entries added, so the
/// opening balance stays what it was.
pub proof fn dividends_keep_opening_balance(account: InvestmentView, events: Seq<DividendView>)
    ensures
        account.pay_dividends(events).account.opening_balance()
            == account.account.opening_balance(),
        account.pay_dividends(events).account.transactions == account.account.transactions
            + account.dividends_due(events),
        account.pay_dividends(events).account.balance == account.account.balance + ledger_total(
            account.dividends_due(events),
        ),
{
    lemma_record_all(account.account, account.dividends_due(events));
    lemma_total_of_concat(account.account.transactions, account.dividends_due(events));
}

/// Running the sweep twice over the same events pays every account once:
/// the second run leaves the bank exactly as the first left it.
pub proof fn sweep_is_idempotent(bank: BankView, events: Seq<DividendView>)
    ensures
        bank.pay_dividends(events).pay_dividends(events) == bank.pay_dividends(events),
{
    let once = bank.pay_dividends(events);
    let twice = once.pay_dividends(events);
    assert forall|id: u32| once.investment.contains_key(id) implies twice.investment[id]
        == once.investment[id] by {
        dividends_are_paid_once(bank.investment[id], events);
    }
    assert(twice.investment =~= once.investment);
}

/// Whether one of `texts` reads `text`.
pub open spec fn lists(texts: Seq<String>, text: Seq<char>) -> bool {
    exists|i: int| 0 <= i < texts.len() && (#[trigger] texts[i])@ == text
}

/// Whether one of `texts` reads as `text` does.
fn is_listed(texts: &Vec<String>, text: &String) -> (listed: bool)
    ensures
        listed == lists(texts@, text@),
{
    let mut i: usize = 0;
    while i < texts.len()
        invariant
            i <= texts.len(),
            forall|j: int| 0 <= j < i ==> (#[trigger] texts[j])@ != text@,
        decreases texts.len() - i,
    {
        if texts[i] == *text {
            return true;
        }
        i = i + 1;
    }
    false
}

impl BankView {
    /// Whether some investment account has a position in `symbol`.
    pub open spec fn holds(self, symbol: Seq<char>) -> bool {
        exists|id: u32|
            self.investment.contains_key(id) && (#[trigger] self.investment[id]).holds(symbol)
    }

    /// Whether one of the first `count` accounts of `ids` has a position in
    /// `symbol`.
    pub open spec fn holds_among(self, ids: Seq<u32>, count: int, symbol: Seq<char>) -> bool {
        exists|m: int| 0 <= m < count && (#[trigger] self.investment[ids[m]]).holds(symbol)
    }
}

/// Whether one of the first `count` positions of `holdings` is in `symbol`.
pub open spec fn holds_among(holdings: Seq<HoldingView>, count: int, symbol: Seq<char>) -> bool {
    exists|q: int| 0 <= q < count && (#[trigger] holdings[q]).symbol == symbol
}

/// A list grown by one text lists what it listed before, and that text.
pub proof fn lemma_lists_push(texts: Seq<String>, added: String, text: Seq<char>)
    ensures
        lists(texts.push(added), text) <==> lists(texts, text) || added@ == text,
{
    let grown = texts.push(added);
    if lists(texts, text) {
        let i = choose|i: int| 0 <= i < texts.len() && (#[trigger] texts[i])@ == text;
        assert(grown[i]@ == text);
    }
    if added@ == text {
        assert(grown[texts.len() as int]@ == text);
    }
    if lists(grown, text) {
        let i = choose|i: int| 0 <= i < grown.len() && (#[trigger] grown[i])@ == text;
        if i < texts.len() {
            assert(texts[i]@ == text);
        }
    }
}

/// One more position looked at adds its symbol to those seen.
pub proof fn lemma_holds_among_step(holdings: Seq<HoldingView>, count: int, symbol: Seq<char>)
    requires
        0 <= count < holdings.len(),
    ensures
        holds_among(holdings, count + 1, symbol) <==> holds_among(holdings, count, symbol)
            || holdings[count].symbol == symbol,
{
    if holds_among(holdings, count, symbol) {
        let q = choose|q: int| 0 <= q < count && (#[trigger] holdings[q]).symbol == symbol;
        assert(0 <= q < count + 1 && holdings[q].symbol == symbol);
    }
    if holdings[count].symbol == symbol {
        assert(0 <= count < count + 1 && holdings[count].symbol == symbol);
    }
    if holds_among(holdings, count + 1, symbol) {
        let q = choose|q: int| 0 <= q < count + 1 && (#[trigger] holdings[q]).symbol == symbol;
        if q < count {
            assert(0 <= q < count && holdings[q].symbol == symbol);
        }
    }
}

/// One more account looked at adds the symbols of all its positions to
/// those seen.
pub proof fn lemma_holds_among_accounts_step(
    bank: BankView,
    ids: Seq<u32>,
    count: int,
    symbol: Seq<char>,
)
    requires
        0 <= count < ids.len(),
    ensures
        bank.holds_among(ids, count + 1, symbol) <==> bank.holds_among(ids, count, symbol)
            || holds_among(
            bank.investment[ids[count]].holdings,
            bank.investment[ids[count]].holdings.len() as int,
            symbol,
        ),
{
    let here = bank.investment[ids[count]];
    if bank.holds_among(ids, count, symbol) {
        let m = choose|m: int| 0 <= m < count && (#[trigger] bank.investment[ids[m]]).holds(symbol);
        assert(0 <= m < count + 1 && bank.investment[ids[m]].holds(symbol));
    }
    if holds_among(here.holdings, here.holdings.len() as int, symbol) {
        let q = choose|q: int|
            0 <= q < here.holdings.len() && (#[trigger] here.holdings[q]).symbol == symbol;
        assert(here.holds(symbol));
        assert(0 <= count < count + 1 && bank.investment[ids[count]].holds(symbol));
    }
    if bank.holds_among(ids, count + 1, symbol) {
        let m = choose|m: int|
            0 <= m < count + 1 && (#[trigger] bank.investment[ids[m]]).holds(symbol);
        if m < count {
            assert(0 <= m < count && bank.investment[ids[m]].holds(symbol));
        } else {
            let q = choose|q: int|
                0 <= q < here.holdings.len() && (#[trigger] here.holdings[q]).symbol == symbol;
            assert(0 <= q < here.holdings.len() && here.holdings[q].symbol == symbol);
        }
    }
}

/// Looking at every account whose id is listed is looking at the whole
/// bank.
pub proof fn lemma_holds_among_all(bank: BankView, ids: Seq<u32>, symbol: Seq<char>)
    requires
        ids.to_set() == bank.investment.dom(),
    ensures
        bank.holds_among(ids, ids.len() as int, symbol) <==> bank.holds(symbol),
{
    if bank.holds(symbol) {
        let id = choose|id: u32|
            bank.investment.contains_key(id) && (#[trigger] bank.investment[id]).holds(symbol);
        assert(ids.to_set().contains(id));
        let m = choose|m: int| 0 <= m < ids.len() && ids[m] == id;
        assert(0 <= m < ids.len() && bank.investment[ids[m]].holds(symbol));
    }
    if bank.holds_among(ids, ids.len() as int, symbol) {
        let m = choose|m: int|
            0 <= m < ids.len() && (#[trigger] bank.investment[ids[m]]).holds(symbol);
        assert(ids.to_set().contains(ids[m]));
    }
}

impl Bank {
    /// The symbols in which some investment account has a position, each
    /// once, in no particular order: what a sweep has to ask the provider
    /// about, once for each.
    pub fn held_symbols(&self) -> (symbols: Vec<String>)
        requires
            self.wf(),
        ensures
            forall|symbol: Seq<char>| lists(symbols@, symbol) <==> self@.holds(symbol),
            forall|i: int, j: int|
                0 <= i < j < symbols.len() ==> (#[trigger] symbols[i])@ != (#[trigger] symbols[j])@,
    {
        let ids = self.get_investment_account_ids();
        let mut symbols: Vec<String> = Vec::new();
        let mut n: usize = 0;
        while n < ids.len()
            invariant
                n <= ids.len(),
                ids@.to_set() == self@.investment.dom(),
                forall|symbol: Seq<char>|
                    lists(symbols@, symbol) <==> self@.holds_among(ids@, n as int, symbol),
                forall|i: int, j: int|
                    0 <= i < j < symbols.len() ==> (#[trigger] symbols[i])@ != (
                    #[trigger] symbols[j])@,
            decreases ids.len() - n,
        {
            assert(ids@.to_set().contains(ids[n as int]));
            match self.get_investment_account(ids[n]) {
                Ok(account) => {
                    let holdings = account.get_investments();
                    let ghost held = account@.holdings;
                    let mut k: usize = 0;
                    while k < holdings.len()
                        invariant
                            k <= holdings.len(),
                            n < ids.len(),
                            holdings_view(holdings@) == held,
                            forall|symbol: Seq<char>|
                                lists(symbols@, symbol) <==> self@.holds_among(
                                    ids@,
                                    n as int,
                                    symbol,
                                ) || holds_among(held, k as int, symbol),
                            forall|i: int, j: int|
                                0 <= i < j < symbols.len() ==> (#[trigger] symbols[i])@ != (
                                #[trigger] symbols[j])@,
                        decreases holdings.len() - k,
                    {
                        let ghost listed = symbols@;
                        let symbol = &holdings[k].asset.symbol;
                        assert(held[k as int].symbol == symbol@);
                        if !is_listed(&symbols, symbol) {
                            symbols.push(symbol.clone());
                            proof {
                                assert forall|text: Seq<char>|
                                    lists(symbols@, text) <==> self@.holds_among(
                                        ids@,
                                        n as int,
                                        text,
                                    ) || holds_among(held, k as int + 1, text) by {
                                    lemma_lists_push(listed, symbols@[listed.len() as int], text);
                                    assert(symbols@ =~= listed.push(symbols@[listed.len() as int]));
                                    lemma_holds_among_step(held, k as int, text);
                                }
                                assert forall|i: int, j: int|
                                    0 <= i < j < symbols.len() implies (#[trigger] symbols[i])@ != (
                                #[trigger] symbols[j])@ by {
                                    if j == listed.len() {
                                        assert(listed[i]@ != symbol@);
                                    } else {
                                        assert(listed[i]@ != listed[j]@);
                                    }
                                }
                            }
                        } else {
                            proof {
                                assert forall|text: Seq<char>|
                                    lists(symbols@, text) <==> self@.holds_among(
                                        ids@,
                                        n as int,
                                        text,
                                    ) || holds_among(held, k as int + 1, text) by {
                                    lemma_holds_among_step(held, k as int, text);
                                }
                            }
                        }
                        k = k + 1;
                    }
                    proof {
                        assert forall|text: Seq<char>|
                            lists(symbols@, text) <==> self@.holds_among(
                                ids@,
                                n as int + 1,
                                text,
                            ) by {
                            lemma_holds_among_accounts_step(self@, ids@, n as int, text);
                        }
                    }
                },
                Err(_) => {
                    assert(false);
                },
            }
            n = n + 1;
        }
        proof {
            assert forall|symbol: Seq<char>| lists(symbols@, symbol) <==> self@.holds(symbol) by {
                lemma_holds_among_all(self@, ids@, symbol);
            }
        }
        symbols
    }
}

} // verus!
