//! The bank: a registry of accounts and the rules of their life cycle.

use std::collections::hash_map::Entry;
use std::collections::HashMap;
use vstd::prelude::*;
use vstd::std_specs::convert::FromSpecImpl;
use vstd::std_specs::iter::IteratorSpec;
use crate::bank::accounts::{
    checking_account_is_valid, Account, AccountType, AccountView, CheckingAccount,
    InvestmentAccount, InvestmentView,
};
use crate::bank::error::BankError;
use crate::bank::transactions::text_of;
use crate::time::utc_now;

pub mod accounts;
pub mod error;
pub mod ledger;
pub mod stock;
pub mod transactions;

verus! {

/// The cash accounts of `accounts`, each as the rules see it.
pub open spec fn checking_views(accounts: Map<u32, CheckingAccount>) -> Map<u32, AccountView> {
    Map::new(|id: u32| accounts.contains_key(id), |id: u32| accounts[id]@)
}

/// The investment accounts of `accounts`, each as the rules see it.
pub open spec fn investment_views(accounts: Map<u32, InvestmentAccount>) -> Map<
    u32,
    InvestmentView,
> {
    Map::new(|id: u32| accounts.contains_key(id), |id: u32| accounts[id]@)
}

/// Whether `id` is the id that the next account gets in a registry whose
/// ids are `ids`: one more than the largest id in use, or 1 in an empty
/// registry.
pub open spec fn is_next_id(ids: Set<u32>, id: u32) -> bool {
    &&& id >= 1
    &&& forall|k: u32| ids.contains(k) ==> k < id
    &&& id == 1 || ids.contains((id - 1) as u32)
}

/// A registry has one next id only.
pub proof fn next_id_is_unique(ids: Set<u32>, a: u32, b: u32)
    requires
        is_next_id(ids, a),
        is_next_id(ids, b),
    ensures
        a == b,
{
    if a < b {
        assert(ids.contains((b - 1) as u32));
    }
    if b < a {
        assert(ids.contains((a - 1) as u32));
    }
}

/// The state of the bank: its two registries, each keyed by account id.
pub ghost struct BankView {
    pub checking: Map<u32, AccountView>,
    pub investment: Map<u32, InvestmentView>,
}

impl BankView {
    /// A valid bank holds valid accounts only.
    pub open spec fn wf(self) -> bool {
        &&& forall|id: u32| self.checking.contains_key(id) ==> (#[trigger] self.checking[id]).wf()
        &&& forall|id: u32|
            self.investment.contains_key(id) ==> (#[trigger] self.investment[id]).wf()
    }

    /// A cash account as it is when opened: no cash, no history.
    pub open spec fn opened_checking(id: u32, nickname: Option<Seq<char>>, created_at: int)
        -> AccountView {
        AccountView { id, balance: 0, nickname, created_at, transactions: Seq::empty() }
    }

    /// An investment account as it is when opened: no cash, no positions, no
    /// history.
    pub open spec fn opened_investment(id: u32, nickname: Option<Seq<char>>, created_at: int)
        -> InvestmentView {
        InvestmentView {
            account: Self::opened_checking(id, nickname, created_at),
            holdings: Seq::empty(),
        }
    }

    /// The bank after an account of the given kind was opened under `id`.
    pub open spec fn open(
        self,
        account_type: AccountType,
        id: u32,
        nickname: Option<Seq<char>>,
        created_at: int,
    ) -> BankView {
        match account_type {
            AccountType::Checking => BankView {
                checking: self.checking.insert(
                    id,
                    Self::opened_checking(id, nickname, created_at),
                ),
                investment: self.investment,
            },
            AccountType::Investment => BankView {
                checking: self.checking,
                investment: self.investment.insert(
                    id,
                    Self::opened_investment(id, nickname, created_at),
                ),
            },
        }
    }

    /// The ids in use in the registry of the given kind.
    pub open spec fn ids(self, account_type: AccountType) -> Set<u32> {
        match account_type {
            AccountType::Checking => self.checking.dom(),
            AccountType::Investment => self.investment.dom(),
        }
    }
}

/// A bank: every account, cash or investment, under its id.
#[derive(Debug)]
pub struct Bank {
    checking_accounts: HashMap<u32, CheckingAccount>,
    investment_accounts: HashMap<u32, InvestmentAccount>,
}

impl View for Bank {
    type V = BankView;

    closed spec fn view(&self) -> BankView {
        BankView {
            checking: checking_views(self.checking_accounts@),
            investment: investment_views(self.investment_accounts@),
        }
    }
}

/// The id for the next account of a registry: one more than the largest id
/// in use, or 1 if none is.
fn next_id<V>(accounts: &HashMap<u32, V>) -> (id: u32)
    requires
        !accounts@.contains_key(u32::MAX),
    ensures
        is_next_id(accounts@.dom(), id),
{
    broadcast use vstd::std_specs::hash::group_hash_axioms;

    let mut largest: u32 = 0;
    let keys = accounts.keys();
    for key in it: keys
        invariant
            it.seq().unref().to_set() == accounts@.dom(),
            !accounts@.contains_key(u32::MAX),
            forall|i: int| 0 <= i < it.index() ==> *it.seq()[i] <= largest,
            largest == 0 || accounts@.contains_key(largest),
            largest < u32::MAX,
    {
        assert(it.seq().unref()[it.index()] == *key);
        assert(it.seq().unref().to_set().contains(*key));
        if *key > largest {
            largest = *key;
        }
    }
    largest + 1
}

/// The ids in use in a registry, each once, in no particular order.
fn ids_of<V>(accounts: &HashMap<u32, V>) -> (ids: Vec<u32>)
    ensures
        ids@.no_duplicates(),
        ids@.to_set() == accounts@.dom(),
{
    broadcast use vstd::std_specs::hash::group_hash_axioms;

    let mut ids: Vec<u32> = Vec::new();
    let keys = accounts.keys();
    let ghost all = keys.remaining().unref();
    proof {
        assert forall|i: int, j: int| 0 <= i < all.len() && 0 <= j < all.len() && i != j implies all[i]
            != all[j] by {
            assert(keys.remaining()[i] != keys.remaining()[j]);
        }
    }
    for key in it: keys
        invariant
            it.seq().unref() == all,
            all.to_set() == accounts@.dom(),
            all.no_duplicates(),
            ids@ == all.take(it.index()),
    {
        assert(all[it.index()] == *key);
        assert(all.take(it.index() + 1) =~= all.take(it.index()).push(*key));
        ids.push(*key);
    }
    proof {
        assert(ids@ =~= all);
    }
    ids
}

impl Bank {
    /// Whether the bank is valid: every account in it is.
    pub open spec fn wf(&self) -> bool {
        self@.wf()
    }

    /// A bank with the given cash accounts and no investment accounts.
    pub fn new(accounts: HashMap<u32, CheckingAccount>) -> (bank: Self)
        ensures
            bank.wf(),
            bank@.checking == checking_views(accounts@),
            bank@.investment == Map::<u32, InvestmentView>::empty(),
    {
        let bank = Bank { checking_accounts: accounts, investment_accounts: HashMap::new() };
        proof {
            assert(bank@.investment =~= Map::<u32, InvestmentView>::empty());
            assert forall|id: u32| bank@.checking.contains_key(id) implies (
            #[trigger] bank@.checking[id]).wf() by {
                checking_account_is_valid(&accounts@[id]);
            }
        }
        bank
    }

    /// A bank with the given cash and investment accounts.
    pub fn from_accounts(
        checking: HashMap<u32, CheckingAccount>,
        investment: HashMap<u32, InvestmentAccount>,
    ) -> (bank: Self)
        requires
            forall|id: u32| investment@.contains_key(id) ==> (#[trigger] investment@[id]).wf(),
        ensures
            bank.wf(),
            bank@.checking == checking_views(checking@),
            bank@.investment == investment_views(investment@),
    {
        let bank = Bank { checking_accounts: checking, investment_accounts: investment };
        proof {
            assert forall|id: u32| bank@.checking.contains_key(id) implies (
            #[trigger] bank@.checking[id]).wf() by {
                checking_account_is_valid(&checking@[id]);
            }
            assert forall|id: u32| bank@.investment.contains_key(id) implies (
            #[trigger] bank@.investment[id]).wf() by {
                assert(investment@[id].wf());
            }
        }
        bank
    }

    /// A bank with no accounts.
    pub fn empty() -> (bank: Self)
        ensures
            bank.wf(),
            bank@.checking == Map::<u32, AccountView>::empty(),
            bank@.investment == Map::<u32, InvestmentView>::empty(),
    {
        let bank = Bank { checking_accounts: HashMap::new(), investment_accounts: HashMap::new() };
        proof {
            assert(bank@.investment =~= Map::<u32, InvestmentView>::empty());
            assert(bank@.checking =~= Map::<u32, AccountView>::empty());
        }
        bank
    }

    /// Opens an account of the given kind, created at `created_at`, with no
    /// cash and no history, under the next id of its registry. Returns the id.
    ///
    /// The registry must have an id left: its largest possible id is free.
    pub fn open_account_at(
        &mut self,
        nickname: Option<String>,
        account_type: AccountType,
        created_at: i64,
    ) -> (result: Result<u32, BankError>)
        requires
            old(self).wf(),
            !old(self)@.ids(account_type).contains(u32::MAX),
        ensures
            final(self).wf(),
            result matches Ok(id) && is_next_id(old(self)@.ids(account_type), id) && final(self)@
                == old(self)@.open(account_type, id, text_of(nickname), created_at as int),
    {
        broadcast use vstd::std_specs::hash::group_hash_axioms;

        match account_type {
            AccountType::Checking => {
                let id: u32 = next_id(&self.checking_accounts);
                let account = CheckingAccount::new_at(id, 0, nickname, created_at);
                self.checking_accounts.insert(id, account);
                proof {
                    assert(self@.checking =~= old(self)@.checking.insert(
                        id,
                        BankView::opened_checking(id, text_of(nickname), created_at as int),
                    ));
                    assert forall|k: u32| self@.checking.contains_key(k) implies (
                    #[trigger] self@.checking[k]).wf() by {
                        if k != id {
                            assert(old(self)@.checking[k].wf());
                        }
                    }
                    assert(self@.investment == old(self)@.investment);
                    assert forall|k: u32| self@.investment.contains_key(k) implies (
                    #[trigger] self@.investment[k]).wf() by {
                        assert(old(self)@.investment[k].wf());
                    }
                }
                Ok(id)
            },
            AccountType::Investment => {
                let id: u32 = next_id(&self.investment_accounts);
                let account = InvestmentAccount::new_at(id, 0, nickname, created_at);
                self.investment_accounts.insert(id, account);
                proof {
                    assert(self@.investment =~= old(self)@.investment.insert(
                        id,
                        BankView::opened_investment(id, text_of(nickname), created_at as int),
                    ));
                    assert forall|k: u32| self@.investment.contains_key(k) implies (
                    #[trigger] self@.investment[k]).wf() by {
                        if k != id {
                            assert(old(self)@.investment[k].wf());
                        }
                    }
                    assert(self@.checking == old(self)@.checking);
                    assert forall|k: u32| self@.checking.contains_key(k) implies (
                    #[trigger] self@.checking[k]).wf() by {
                        assert(old(self)@.checking[k].wf());
                    }
                }
                Ok(id)
            },
        }
    }

    /// Opens an account of the given kind, created now, with no cash and no
    /// history, under the next id of its registry. Returns the id.
    ///
    /// The registry must have an id left: its largest possible id is free.
    pub fn open_account(&mut self, nickname: Option<String>, account_type: AccountType) -> (result:
        Result<u32, BankError>)
        requires
            old(self).wf(),
            !old(self)@.ids(account_type).contains(u32::MAX),
        ensures
            final(self).wf(),
            result matches Ok(id) && is_next_id(old(self)@.ids(account_type), id) && exists|
                created_at: int,
            |
                final(self)@ == #[trigger] old(self)@.open(
                    account_type,
                    id,
                    text_of(nickname),
                    created_at,
                ),
    {
        let now: i64 = utc_now();
        self.open_account_at(nickname, account_type, now)
    }

    /// Closes the account `id` and removes it from the bank, if it exists
    /// and holds no cash; otherwise changes nothing. The id is looked up
    /// among the cash accounts first and, where no cash account has it,
    /// among the investment accounts; an investment account is closed
    /// whatever positions it holds.
    pub fn close_account(&mut self, id: u32) -> (result: Result<(), BankError>)
        requires
            old(self).wf(),
        ensures
            final(self).wf(),
            match result {
                Ok(()) => {
                    if old(self)@.checking.contains_key(id) {
                        &&& old(self)@.checking[id].balance == 0
                        &&& final(self)@ == (BankView {
                            checking: old(self)@.checking.remove(id),
                            investment: old(self)@.investment,
                        })
                    } else {
                        &&& old(self)@.investment.contains_key(id)
                        &&& old(self)@.investment[id].account.balance == 0
                        &&& final(self)@ == (BankView {
                            checking: old(self)@.checking,
                            investment: old(self)@.investment.remove(id),
                        })
                    }
                },
                Err(BankError::AccountNotFound) => {
                    &&& !old(self)@.checking.contains_key(id)
                    &&& !old(self)@.investment.contains_key(id)
                    &&& *final(self) == *old(self)
                },
                Err(BankError::CloseAccountWithBalance) => {
                    &&& if old(self)@.checking.contains_key(id) {
                        old(self)@.checking[id].balance != 0
                    } else {
                        old(self)@.investment.contains_key(id)
                            && old(self)@.investment[id].account.balance != 0
                    }
                    &&& *final(self) == *old(self)
                },
                Err(_) => false,
            },
    {
        broadcast use vstd::std_specs::hash::group_hash_axioms;

        match self.checking_accounts.get(&id) {
            None => {
                return self.close_investment_account(id);
            },
            Some(account) => {
                if account.get_balance() != 0 {
                    return Err(BankError::CloseAccountWithBalance);
                }
            },
        }
        let _ = self.checking_accounts.remove(&id);
        proof {
            assert(self@.checking =~= old(self)@.checking.remove(id));
        }
        Ok(())
    }

    /// Closes the investment account `id` and removes it from the bank, if
    /// it exists and holds no cash, whatever positions it holds; otherwise
    /// changes nothing.
    pub fn close_investment_account(&mut self, id: u32) -> (result: Result<(), BankError>)
        requires
            old(self).wf(),
        ensures
            final(self).wf(),
            match result {
                Ok(()) => {
                    &&& old(self)@.investment.contains_key(id)
                    &&& old(self)@.investment[id].account.balance == 0
                    &&& final(self)@ == (BankView {
                        checking: old(self)@.checking,
                        investment: old(self)@.investment.remove(id),
                    })
                },
                Err(BankError::AccountNotFound) => {
                    &&& !old(self)@.investment.contains_key(id)
                    &&& *final(self) == *old(self)
                },
                Err(BankError::CloseAccountWithBalance) => {
                    &&& old(self)@.investment.contains_key(id)
                    &&& old(self)@.investment[id].account.balance != 0
                    &&& *final(self) == *old(self)
                },
                Err(_) => false,
            },
    {
        broadcast use vstd::std_specs::hash::group_hash_axioms;

        match self.investment_accounts.get(&id) {
            None => {
                return Err(BankError::AccountNotFound);
            },
            Some(account) => {
                if account.get_balance() != 0 {
                    return Err(BankError::CloseAccountWithBalance);
                }
            },
        }
        let _ = self.investment_accounts.remove(&id);
        proof {
            assert(self@.investment =~= old(self)@.investment.remove(id));
        }
        Ok(())
    }

    /// The investment account `id`.
    pub fn get_investment_account(&self, id: u32) -> (result: Result<
        &InvestmentAccount,
        BankError,
    >)
        ensures
            match result {
                Ok(account) => self@.investment.contains_key(id) && account@
                    == self@.investment[id],
                Err(e) => e is AccountNotFound && !self@.investment.contains_key(id),
            },
    {
        broadcast use vstd::std_specs::hash::group_hash_axioms;

        if let Some(account) = self.investment_accounts.get(&id) {
            return Ok(account);
        }
        Err(BankError::AccountNotFound)
    }

    /// The investment account `id`, to be changed in place. Whatever the
    /// caller leaves in it is what the bank holds under `id` afterwards.
    pub fn get_investment_account_mut(&mut self, id: u32) -> (result: Result<
        &mut InvestmentAccount,
        BankError,
    >)
        ensures
            match result {
                Ok(account) => {
                    &&& old(self)@.investment.contains_key(id)
                    &&& account@ == old(self)@.investment[id]
                    &&& final(self)@ == (BankView {
                        checking: old(self)@.checking,
                        investment: old(self)@.investment.insert(id, final(account)@),
                    })
                    &&& old(self).wf() ==> account.wf()
                    &&& old(self).wf() && final(account).wf() ==> final(self).wf()
                },
                Err(e) => {
                    &&& e is AccountNotFound
                    &&& !old(self)@.investment.contains_key(id)
                    &&& *final(self) == *old(self)
                },
            },
    {
        broadcast use vstd::std_specs::hash::group_hash_axioms;

        if !self.investment_accounts.contains_key(&id) {
            return Err(BankError::AccountNotFound);
        }
        match self.investment_accounts.entry(id) {
            Entry::Occupied(entry) => {
                let account = entry.into_mut();
                proof {
                    assert(investment_views(old(self).investment_accounts@.insert(id, *final(account)))
                        =~= old(self)@.investment.insert(id, final(account)@));
                }
                Ok(account)
            },
            Entry::Vacant(_entry) => {
                assert(false);
                Err(BankError::AccountNotFound)
            },
        }
    }

    /// The cash account `id`.
    pub fn get_checking_account(&self, id: u32) -> (result: Result<&CheckingAccount, BankError>)
        ensures
            match result {
                Ok(account) => self@.checking.contains_key(id) && account@ == self@.checking[id],
                Err(e) => e is AccountNotFound && !self@.checking.contains_key(id),
            },
    {
        broadcast use vstd::std_specs::hash::group_hash_axioms;

        if let Some(account) = self.checking_accounts.get(&id) {
            return Ok(account);
        }
        Err(BankError::AccountNotFound)
    }

    /// The cash account `id`, to be changed in place. Whatever the caller
    /// leaves in it is what the bank holds under `id` afterwards.
    pub fn get_checking_account_mut(&mut self, id: u32) -> (result: Result<
        &mut CheckingAccount,
        BankError,
    >)
        ensures
            match result {
                Ok(account) => {
                    &&& old(self)@.checking.contains_key(id)
                    &&& account@ == old(self)@.checking[id]
                    &&& final(self)@ == (BankView {
                        checking: old(self)@.checking.insert(id, final(account)@),
                        investment: old(self)@.investment,
                    })
                    &&& account.wf()
                    &&& old(self).wf() && final(account).wf() ==> final(self).wf()
                },
                Err(e) => {
                    &&& e is AccountNotFound
                    &&& !old(self)@.checking.contains_key(id)
                    &&& *final(self) == *old(self)
                },
            },
    {
        broadcast use vstd::std_specs::hash::group_hash_axioms;

        if !self.checking_accounts.contains_key(&id) {
            return Err(BankError::AccountNotFound);
        }
        match self.checking_accounts.entry(id) {
            Entry::Occupied(entry) => {
                let account = entry.into_mut();
                proof {
                    checking_account_is_valid(account);
                    assert(checking_views(old(self).checking_accounts@.insert(id, *final(account)))
                        =~= old(self)@.checking.insert(id, final(account)@));
                }
                Ok(account)
            },
            Entry::Vacant(_entry) => {
                assert(false);
                Err(BankError::AccountNotFound)
            },
        }
    }

    /// The ids of the investment accounts, each once, in no particular
    /// order.
    pub fn get_investment_account_ids(&self) -> (ids: Vec<u32>)
        ensures
            ids@.no_duplicates(),
            ids@.to_set() == self@.investment.dom(),
    {
        let ids = ids_of(&self.investment_accounts);
        assert(self@.investment.dom() =~= self.investment_accounts@.dom());
        ids
    }

    /// All investment accounts, by id.
    pub fn get_investment_accounts(&self) -> (accounts: &HashMap<u32, InvestmentAccount>)
        ensures
            investment_views(accounts@) == self@.investment,
    {
        &self.investment_accounts
    }

    /// All cash accounts, by id.
    pub fn get_checking_accounts(&self) -> (accounts: &HashMap<u32, CheckingAccount>)
        ensures
            checking_views(accounts@) == self@.checking,
    {
        &self.checking_accounts
    }
}

impl From<HashMap<u32, CheckingAccount>> for Bank {
    /// A bank with the given cash accounts and no investment accounts.
    fn from(accounts: HashMap<u32, CheckingAccount>) -> (bank: Self)
        ensures
            bank.wf(),
            bank@.checking == checking_views(accounts@),
            bank@.investment == Map::<u32, InvestmentView>::empty(),
    {
        Bank::new(accounts)
    }
}

impl FromSpecImpl<HashMap<u32, CheckingAccount>> for Bank {
    open spec fn obeys_from_spec() -> bool {
        false
    }

    open spec fn from_spec(accounts: HashMap<u32, CheckingAccount>) -> Self {
        arbitrary()
    }
}

} // verus!
