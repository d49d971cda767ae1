//! Tradable assets, the positions held in them, and the dividends they pay.

use vstd::prelude::*;

verus! {

/// A tradable instrument, identified by its ticker symbol.
#[derive(Debug)]
pub struct Asset {
    pub symbol: String,
}

impl View for Asset {
    type V = Seq<char>;

    open spec fn view(&self) -> Seq<char> {
        self.symbol@
    }
}

impl Clone for Asset {
    fn clone(&self) -> (copy: Self)
        ensures
            copy == *self,
    {
        Asset { symbol: self.symbol.clone() }
    }
}

impl Asset {
    /// An asset with the given ticker symbol.
    pub fn new(symbol: String) -> (asset: Self)
        ensures
            asset.symbol == symbol,
    {
        Asset { symbol: symbol }
    }

    /// The ticker symbol.
    pub fn get_symbol(&self) -> (symbol: String)
        ensures
            symbol == self.symbol,
    {
        self.symbol.clone()
    }
}

/// What a position looks like to the ledger's rules: the symbol, the units
/// held, and the running average cost of one unit.
pub ghost struct HoldingView {
    pub symbol: Seq<char>,
    pub average_cost_per_unit: int,
    pub quantity: int,
}

/// A position in one asset: the units held and what one unit cost on average.
#[derive(Debug)]
pub struct Holding {
    pub asset: Asset,
    pub average_cost_per_unit: u64,
    pub quantity: u64,
}

impl View for Holding {
    type V = HoldingView;

    open spec fn view(&self) -> HoldingView {
        HoldingView {
            symbol: self.asset@,
            average_cost_per_unit: self.average_cost_per_unit as int,
            quantity: self.quantity as int,
        }
    }
}

impl Clone for Holding {
    fn clone(&self) -> (copy: Self)
        ensures
            copy == *self,
    {
        Holding {
            asset: self.asset.clone(),
            average_cost_per_unit: self.average_cost_per_unit,
            quantity: self.quantity,
        }
    }
}

impl Holding {
    /// A position of `quantity` units of `symbol`, each costing
    /// `average_cost_per_unit` on average.
    pub fn new(average_cost_per_unit: u64, quantity: u64, symbol: String) -> (holding: Self)
        ensures
            holding@ == (HoldingView {
                symbol: symbol@,
                average_cost_per_unit: average_cost_per_unit as int,
                quantity: quantity as int,
            }),
            holding.average_cost_per_unit == average_cost_per_unit,
            holding.quantity == quantity,
    {
        Holding {
            average_cost_per_unit: average_cost_per_unit,
            quantity: quantity,
            asset: Asset::new(symbol),
        }
    }

    /// Average cost of one unit.
    pub fn get_price(&self) -> (price: u64)
        ensures
            price == self@.average_cost_per_unit,
    {
        self.average_cost_per_unit
    }

    /// Units held.
    pub fn get_quantity(&self) -> (quantity: u64)
        ensures
            quantity == self@.quantity,
    {
        self.quantity
    }

    /// Ticker symbol of the asset held.
    pub fn get_symbol(&self) -> (symbol: String)
        ensures
            symbol@ == self@.symbol,
    {
        self.asset.get_symbol()
    }
}

/// One dividend payment announced for an asset.
#[derive(Debug)]
pub struct Dividend {
    /// Amount paid for each unit held.
    pub amount: u64,
    /// The asset that pays.
    pub asset: Asset,
    /// Payment date, in days since 1970-01-01.
    pub date: i32,
}

/// A dividend payment as the rules see it.
pub ghost struct DividendView {
    pub symbol: Seq<char>,
    pub amount: int,
    pub date: int,
}

impl View for Dividend {
    type V = DividendView;

    open spec fn view(&self) -> DividendView {
        DividendView { symbol: self.asset@, amount: self.amount as int, date: self.date as int }
    }
}

impl Clone for Dividend {
    fn clone(&self) -> (copy: Self)
        ensures
            copy == *self,
    {
        Dividend { amount: self.amount, asset: self.asset.clone(), date: self.date }
    }
}

/// The payments of `events`, each as the rules see it.
pub open spec fn dividends_view(events: Seq<Dividend>) -> Seq<DividendView> {
    Seq::new(events.len(), |i: int| events[i]@)
}

impl Dividend {
    /// A payment of `amount` per unit of `asset`, made on `date`.
    pub fn new(amount: u64, asset: Asset, date: i32) -> (dividend: Self)
        ensures
            dividend.amount == amount,
            dividend.asset == asset,
            dividend.date == date,
    {
        Dividend { amount: amount, asset: asset, date: date }
    }
}

} // verus!
