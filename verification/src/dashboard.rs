//! The dashboard projection: a pure left-to-right fold of an event sequence
//! into current holdings, cost basis, value, and dividends.
//!
//! The fold is specified by `dash_fold`; `Dashboard::new` computes exactly
//! that fold.  Where an exact arithmetic result cannot be represented, the
//! fold reports a typed error instead of failing.

use vstd::prelude::*;
use crate::decimal::Decimal;
use crate::decimal::spec_mul_fits;
use crate::decimal::spec_mul_trunc;
use crate::events::DividendPaid;
use crate::events::Event;
use crate::events::PriceObtained;
use crate::events::StocksBought;
use crate::value_objects::Amount;
use crate::value_objects::Amounts;
use crate::value_objects::Asset;
use crate::value_objects::MoneyError;
use crate::value_objects::StockIdentifier;
use crate::value_objects::bag_val;

verus! {

/// Is `v` representable in the machine integers backing `Decimal`?
pub open spec fn in_i128(v: int) -> bool {
    i128::MIN <= v <= i128::MAX
}

/// Add `v` into a currency bag at `cur`.
pub open spec fn bag_add(m: Map<Seq<char>, int>, cur: Seq<char>, v: int) -> Map<Seq<char>, int> {
    m.insert(cur, bag_val(m, cur) + v)
}

/// The spec-level state of one asset in the dashboard.
#[verifier::ext_equal]
pub struct AssetModel {
    /// The asset's ticker.
    pub identifier: Seq<char>,
    /// Shares held, in 10^-12 units.
    pub amount: int,
    /// Currency of the accumulated dividends.
    pub dividends_currency: Seq<char>,
    /// Accumulated dividends, in 10^-12 units.
    pub dividends: int,
    /// Value at the last observed price, as (currency, units).
    pub value: Option<(Seq<char>, int)>,
}

/// The spec-level state of the dashboard.
#[verifier::ext_equal]
pub struct DashModel {
    /// Number of distinct assets ever bought.
    pub positions: int,
    /// Dividends received, per currency.
    pub total_dividend: Map<Seq<char>, int>,
    /// Sum spent on purchases, per currency.
    pub total_buying_price: Map<Seq<char>, int>,
    /// Sum of observed values, per currency.
    pub total_value: Map<Seq<char>, int>,
    /// Assets in first-purchase order.
    pub assets: Seq<AssetModel>,
}

/// The model of an executable asset.
pub open spec fn asset_model(a: Asset) -> AssetModel {
    AssetModel {
        identifier: a.identifier@,
        amount: a.amount@,
        dividends_currency: a.dividends.currency@,
        dividends: a.dividends.num@,
        value: match a.value {
            Some(v) => Some((v.currency@, v.num@)),
            None => None,
        },
    }
}

/// Index of the first asset with the given identifier, from position `i`.
pub open spec fn asset_index_from(s: Seq<AssetModel>, id: Seq<char>, i: int) -> Option<int>
    decreases s.len() - i when 0 <= i
{
    if i >= s.len() {
        None
    } else if s[i].identifier == id {
        Some(i)
    } else {
        asset_index_from(s, id, i + 1)
    }
}

/// Index of the first asset with the given identifier.
pub open spec fn asset_index(s: Seq<AssetModel>, id: Seq<char>) -> Option<int> {
    asset_index_from(s, id, 0)
}

/// The zero bag: one zero entry for the default currency.
pub open spec fn zero_bag() -> Map<Seq<char>, int> {
    Map::<Seq<char>, int>::empty().insert("USD"@, 0)
}

/// The dashboard before any event: no positions, zero totals.
pub open spec fn dash_init() -> DashModel {
    DashModel {
        positions: 0,
        total_dividend: zero_bag(),
        total_buying_price: zero_bag(),
        total_value: zero_bag(),
        assets: Seq::empty(),
    }
}

/// Effect of a purchase: the price times the share count is added to the
/// buying total under the price's currency; a first purchase opens a new
/// position with zero dividends in that currency and no value; a repeat
/// purchase only increases the share count, keeping dividends and value.
pub open spec fn step_stocks_bought(m: DashModel, b: StocksBought) -> Result<
    DashModel,
    MoneyError,
> {
    let cur = b.price.currency@;
    if !spec_mul_fits(b.price.num@, b.amount@) {
        Err(MoneyError::Overflow)
    } else {
        let t = spec_mul_trunc(b.price.num@, b.amount@);
        if !in_i128(bag_val(m.total_buying_price, cur) + t) {
            Err(MoneyError::Overflow)
        } else {
            let m1 = DashModel {
                positions: m.positions,
                total_dividend: m.total_dividend,
                total_buying_price: bag_add(m.total_buying_price, cur, t),
                total_value: m.total_value,
                assets: m.assets,
            };
            match asset_index(m1.assets, b.identifier@) {
                None => Ok(
                    DashModel {
                        positions: m1.positions + 1,
                        total_dividend: m1.total_dividend,
                        total_buying_price: m1.total_buying_price,
                        total_value: m1.total_value,
                        assets: m1.assets.push(
                            AssetModel {
                                identifier: b.identifier@,
                                amount: b.amount@,
                                dividends_currency: cur,
                                dividends: 0,
                                value: None,
                            },
                        ),
                    },
                ),
                Some(i) => {
                    let a = m1.assets[i];
                    if !in_i128(a.amount + b.amount@) {
                        Err(MoneyError::Overflow)
                    } else {
                        Ok(
                            DashModel {
                                positions: m1.positions,
                                total_dividend: m1.total_dividend,
                                total_buying_price: m1.total_buying_price,
                                total_value: m1.total_value,
                                assets: m1.assets.update(
                                    i,
                                    AssetModel {
                                        identifier: a.identifier,
                                        amount: a.amount + b.amount@,
                                        dividends_currency: a.dividends_currency,
                                        dividends: a.dividends,
                                        value: a.value,
                                    },
                                ),
                            },
                        )
                    }
                },
            }
        }
    }
}

/// Effect of a price observation: ignored for an identifier never bought;
/// otherwise the asset's value becomes price times shares held, and the same
/// quantity is added into the value total (repeated observations accumulate
/// there).  Dividends and share count are untouched.
pub open spec fn step_price_obtained(m: DashModel, p: PriceObtained) -> Result<
    DashModel,
    MoneyError,
> {
    match asset_index(m.assets, p.identifier@) {
        None => Ok(m),
        Some(i) => {
            let a = m.assets[i];
            let cur = p.price.currency@;
            if !spec_mul_fits(p.price.num@, a.amount) {
                Err(MoneyError::Overflow)
            } else {
                let v = spec_mul_trunc(p.price.num@, a.amount);
                if !in_i128(bag_val(m.total_value, cur) + v) {
                    Err(MoneyError::Overflow)
                } else {
                    Ok(
                        DashModel {
                            positions: m.positions,
                            total_dividend: m.total_dividend,
                            total_buying_price: m.total_buying_price,
                            total_value: bag_add(m.total_value, cur, v),
                            assets: m.assets.update(
                                i,
                                AssetModel {
                                    identifier: a.identifier,
                                    amount: a.amount,
                                    dividends_currency: a.dividends_currency,
                                    dividends: a.dividends,
                                    value: Some((cur, v)),
                                },
                            ),
                        },
                    )
                }
            }
        },
    }
}

/// Effect of a dividend: the per-share dividend times the shares held is
/// added to the asset's own dividends and to the dividend total.  For an
/// identifier never bought the held count is zero, so the total gains a
/// zero entry for the currency and no asset changes.  A dividend in a
/// currency other than the asset's dividend currency is a mismatch.
pub open spec fn step_dividend_paid(m: DashModel, d: DividendPaid) -> Result<
    DashModel,
    MoneyError,
> {
    let cur = d.price.currency@;
    match asset_index(m.assets, d.identifier@) {
        None => Ok(
            DashModel {
                positions: m.positions,
                total_dividend: bag_add(m.total_dividend, cur, 0),
                total_buying_price: m.total_buying_price,
                total_value: m.total_value,
                assets: m.assets,
            },
        ),
        Some(i) => {
            let a = m.assets[i];
            if !spec_mul_fits(d.price.num@, a.amount) {
                Err(MoneyError::Overflow)
            } else {
                let v = spec_mul_trunc(d.price.num@, a.amount);
                if a.dividends_currency != cur {
                    Err(MoneyError::CurrencyMismatch)
                } else if !in_i128(a.dividends + v) {
                    Err(MoneyError::Overflow)
                } else if !in_i128(bag_val(m.total_dividend, cur) + v) {
                    Err(MoneyError::Overflow)
                } else {
                    Ok(
                        DashModel {
                            positions: m.positions,
                            total_dividend: bag_add(m.total_dividend, cur, v),
                            total_buying_price: m.total_buying_price,
                            total_value: m.total_value,
                            assets: m.assets.update(
                                i,
                                AssetModel {
                                    identifier: a.identifier,
                                    amount: a.amount,
                                    dividends_currency: a.dividends_currency,
                                    dividends: a.dividends + v,
                                    value: a.value,
                                },
                            ),
                        },
                    )
                }
            }
        },
    }
}

/// Effect of one event on the dashboard.
pub open spec fn dash_step(m: DashModel, e: Event) -> Result<DashModel, MoneyError> {
    match e {
        Event::StocksBought(b) => step_stocks_bought(m, b),
        Event::PriceObtained(p) => step_price_obtained(m, p),
        Event::DividendPaid(d) => step_dividend_paid(m, d),
    }
}

/// The dashboard denoted by an event sequence: the left-to-right fold of
/// `dash_step` from the initial state, stopping at the first error.
pub open spec fn dash_fold(events: Seq<Event>) -> Result<DashModel, MoneyError>
    decreases events.len(),
{
    if events.len() == 0 {
        Ok(dash_init())
    } else {
        match dash_fold(events.drop_last()) {
            Ok(m) => dash_step(m, events.last()),
            Err(e) => Err(e),
        }
    }
}

/// A found asset index lies within the sequence and matches the identifier.
proof fn lemma_asset_index_in_range(s: Seq<AssetModel>, id: Seq<char>, i: int)
    requires
        0 <= i,
        asset_index_from(s, id, i) is Some,
    ensures
        i <= asset_index_from(s, id, i)->Some_0 < s.len(),
        s[asset_index_from(s, id, i)->Some_0].identifier == id,
    decreases s.len() - i,
{
    if i < s.len() && s[i].identifier != id {
        lemma_asset_index_in_range(s, id, i + 1);
    }
}

/// Once a prefix of the fold fails, the whole fold fails the same way.
proof fn lemma_dash_fold_error(events: Seq<Event>, j: int)
    requires
        0 <= j <= events.len(),
        dash_fold(events.subrange(0, j)) is Err,
    ensures
        dash_fold(events) == dash_fold(events.subrange(0, j)),
    decreases events.len() - j,
{
    if j < events.len() {
        assert(events.subrange(0, j + 1).drop_last() =~= events.subrange(0, j));
        lemma_dash_fold_error(events, j + 1);
    } else {
        assert(events.subrange(0, events.len() as int) =~= events);
    }
}

/// Each step keeps the position count equal to the number of assets.
proof fn lemma_step_preserves_positions(m: DashModel, e: Event)
    requires
        m.positions == m.assets.len(),
        dash_step(m, e) is Ok,
    ensures
        dash_step(m, e)->Ok_0.positions == dash_step(m, e)->Ok_0.assets.len(),
{
    match e {
        Event::StocksBought(b) => {
            match asset_index(m.assets, b.identifier@) {
                None => {
                    assert(dash_step(m, e)->Ok_0.assets.len() == m.assets.len() + 1);
                },
                Some(i) => {
                    lemma_asset_index_in_range(m.assets, b.identifier@, 0);
                    assert(dash_step(m, e)->Ok_0.assets.len() == m.assets.len());
                },
            }
        },
        Event::PriceObtained(p) => {
            if asset_index(m.assets, p.identifier@) is Some {
                lemma_asset_index_in_range(m.assets, p.identifier@, 0);
            }
        },
        Event::DividendPaid(d) => {
            if asset_index(m.assets, d.identifier@) is Some {
                lemma_asset_index_in_range(m.assets, d.identifier@, 0);
            }
        },
    }
}

/// The sum of the buying contributions in currency `c`: each purchase
/// priced in `c` contributes its price times its share count; other events
/// and other currencies contribute nothing.
pub open spec fn spec_buying_total(events: Seq<Event>, c: Seq<char>) -> int
    decreases events.len(),
{
    if events.len() == 0 {
        0
    } else {
        let rest = spec_buying_total(events.drop_last(), c);
        match events.last() {
            Event::StocksBought(b) => if b.price.currency@ == c {
                rest + spec_mul_trunc(b.price.num@, b.amount@)
            } else {
                rest
            },
            _ => rest,
        }
    }
}

/// Currencies are never summed together: under a successful fold over any
/// event stream, each currency's buying total is exactly the sum of that
/// currency's own purchases.
pub proof fn lemma_buying_totals_by_currency(events: Seq<Event>, c: Seq<char>)
    requires
        dash_fold(events) is Ok,
    ensures
        bag_val(dash_fold(events)->Ok_0.total_buying_price, c) == spec_buying_total(events, c),
    decreases events.len(),
{
    if events.len() > 0 {
        lemma_buying_totals_by_currency(events.drop_last(), c);
        let m = dash_fold(events.drop_last())->Ok_0;
        match events.last() {
            Event::StocksBought(b) => {
                assert(dash_fold(events) == step_stocks_bought(m, b));
            },
            Event::PriceObtained(p) => {
                assert(dash_fold(events) == step_price_obtained(m, p));
            },
            Event::DividendPaid(d) => {
                assert(dash_fold(events) == step_dividend_paid(m, d));
            },
        }
    }
}

/// Buying at prices in two different currencies contributes two separate
/// entries to the buying total, one per currency, never summed together:
/// after the two purchases each currency's buying total is exactly its own
/// purchase's price times share count.
pub proof fn lemma_two_currency_buys(b1: StocksBought, b2: StocksBought)
    requires
        b1.price.currency@ != b2.price.currency@,
        dash_fold(seq![Event::StocksBought(b1), Event::StocksBought(b2)]) is Ok,
    ensures
        ({
            let m = dash_fold(seq![Event::StocksBought(b1), Event::StocksBought(b2)])->Ok_0;
            &&& m.total_buying_price.contains_key(b1.price.currency@)
            &&& m.total_buying_price.contains_key(b2.price.currency@)
            &&& bag_val(m.total_buying_price, b1.price.currency@) == spec_mul_trunc(
                b1.price.num@,
                b1.amount@,
            )
            &&& bag_val(m.total_buying_price, b2.price.currency@) == spec_mul_trunc(
                b2.price.num@,
                b2.amount@,
            )
        }),
{
    let s = seq![Event::StocksBought(b1), Event::StocksBought(b2)];
    let c1 = b1.price.currency@;
    let c2 = b2.price.currency@;
    assert(s.drop_last() =~= seq![Event::StocksBought(b1)]);
    assert(s.drop_last().drop_last() =~= Seq::<Event>::empty());
    assert(s.drop_last().last() == Event::StocksBought(b1));
    assert(s.last() == Event::StocksBought(b2));
    assert(dash_fold(Seq::<Event>::empty()) == Ok::<DashModel, MoneyError>(dash_init()));
    assert(dash_fold(s.drop_last()) == dash_step(dash_init(), Event::StocksBought(b1)));
    let m1 = dash_fold(s.drop_last())->Ok_0;
    assert(m1 == step_stocks_bought(dash_init(), b1)->Ok_0);
    let t1 = spec_mul_trunc(b1.price.num@, b1.amount@);
    assert(bag_val(zero_bag(), c1) == 0);
    assert(m1.total_buying_price == bag_add(zero_bag(), c1, t1));
    assert(bag_val(m1.total_buying_price, c1) == t1);
    assert(bag_val(m1.total_buying_price, c2) == 0);
    let m = dash_fold(s)->Ok_0;
    assert(m == step_stocks_bought(m1, b2)->Ok_0);
    let t2 = spec_mul_trunc(b2.price.num@, b2.amount@);
    assert(m.total_buying_price == bag_add(m1.total_buying_price, c2, t2));
    assert(bag_val(m.total_buying_price, c2) == t2);
    assert(bag_val(m.total_buying_price, c1) == t1);
}

/// The portfolio dashboard: a projection of an event sequence.
#[derive(Debug)]
pub struct Dashboard {
    /// Number of distinct assets ever bought.
    pub number_of_positions: u64,
    /// Dividends received, per currency.
    pub total_dividend: Amounts,
    /// Sum spent on purchases, per currency.
    pub total_buying_price: Amounts,
    /// Sum of observed values, per currency.
    pub total_value: Amounts,
    /// The held assets, in first-purchase order.
    pub assets: Vec<Asset>,
}

impl Dashboard {
    /// The models of the held assets, in first-purchase order.
    pub open spec fn assets_model(&self) -> Seq<AssetModel> {
        self.assets@.map_values(|a: Asset| asset_model(a))
    }

    /// The dashboard's spec-level state: each component is the model of the
    /// like-named field, so `Dashboard::new`'s fold contract carries over
    /// to the fields a caller reads.
    pub open spec fn model(&self) -> DashModel {
        DashModel {
            positions: self.number_of_positions as int,
            total_dividend: self.total_dividend.as_map(),
            total_buying_price: self.total_buying_price.as_map(),
            total_value: self.total_value.as_map(),
            assets: self.assets_model(),
        }
    }

    /// Index of the asset with the given identifier, if any.
    fn find_asset(v: &Vec<Asset>, id: &StockIdentifier) -> (r: Option<usize>)
        ensures
            r matches Some(i) ==> asset_index(v@.map_values(|a: Asset| asset_model(a)), id@)
                == Some(i as int) && i < v@.len() && v@[i as int].identifier@ == id@,
            r is None ==> asset_index(v@.map_values(|a: Asset| asset_model(a)), id@) is None,
    {
        let ghost s = v@.map_values(|a: Asset| asset_model(a));
        let n = v.len();
        let mut i: usize = 0;
        while i < n
            invariant
                i <= n,
                n == v@.len(),
                s == v@.map_values(|a: Asset| asset_model(a)),
                asset_index(s, id@) == asset_index_from(s, id@, i as int),
            decreases n - i,
        {
            if v[i].identifier == *id {
                return Some(i);
            }
            i = i + 1;
        }
        None
    }

    /// Build the dashboard by folding `events`; the result is exactly the
    /// fold `dash_fold(events)`, including its error cases.
    pub fn new(events: Vec<Event>) -> (r: Result<Dashboard, MoneyError>)
        ensures
            dash_fold(events@) matches Ok(m) ==> r matches Ok(d) && d.model() == m,
            dash_fold(events@) matches Err(e) ==> r == Err::<Dashboard, MoneyError>(e),
    {
        let mut d = Dashboard {
            number_of_positions: 0,
            total_dividend: Amounts::zero(),
            total_buying_price: Amounts::zero(),
            total_value: Amounts::zero(),
            assets: Vec::new(),
        };
        proof {
            assert(d.assets_model() =~= Seq::<AssetModel>::empty());
            assert(d.model() =~= dash_init());
            assert(events@.subrange(0, 0) =~= Seq::<Event>::empty());
        }
        let n = events.len();
        let mut k: usize = 0;
        while k < n
            invariant
                k <= n,
                n == events@.len(),
                dash_fold(events@.subrange(0, k as int)) == Ok::<DashModel, MoneyError>(d.model()),
                d.model().positions == d.model().assets.len(),
            decreases n - k,
        {
            let ghost pre = d.model();
            let step = d.handle_event(&events[k]);
            proof {
                assert(events@.subrange(0, k as int + 1).drop_last() =~= events@.subrange(
                    0,
                    k as int,
                ));
                assert(events@.subrange(0, k as int + 1).last() == events@[k as int]);
            }
            match step {
                Ok(()) => {
                    proof {
                        lemma_step_preserves_positions(pre, events@[k as int]);
                    }
                },
                Err(er) => {
                    proof {
                        lemma_dash_fold_error(events@, k as int + 1);
                    }
                    return Err(er);
                },
            }
            k = k + 1;
        }
        proof {
            assert(events@.subrange(0, n as int) =~= events@);
        }
        Ok(d)
    }

    /// The held assets, in first-purchase order, copied out.
    pub fn assets(&self) -> (r: Vec<Asset>)
        ensures
            r@.map_values(|a: Asset| asset_model(a)) == self.model().assets,
            r@.len() == self.model().assets.len(),
    {
        let n = self.assets.len();
        let mut out: Vec<Asset> = Vec::new();
        let mut i: usize = 0;
        while i < n
            invariant
                i <= n,
                n == self.assets@.len(),
                out@ =~= self.assets@.subrange(0, i as int),
            decreases n - i,
        {
            out.push(self.assets[i].duplicate());
            i = i + 1;
        }
        proof {
            assert(out@ =~= self.assets@);
        }
        out
    }

    /// The number of shares currently held for `identifier` (zero when the
    /// asset was never bought).
    fn amount_of(&self, identifier: &StockIdentifier) -> (r: Decimal)
        ensures
            r@ == match asset_index(self.assets_model(), identifier@) {
                Some(i) => self.assets_model()[i].amount,
                None => 0,
            },
    {
        match Self::find_asset(&self.assets, identifier) {
            Some(i) => self.assets[i].amount,
            None => Decimal::zero(),
        }
    }

    /// Apply one event to the dashboard state.
    fn handle_event(&mut self, event: &Event) -> (r: Result<(), MoneyError>)
        requires
            old(self).number_of_positions as int == old(self).assets_model().len(),
        ensures
            dash_step(old(self).model(), *event) matches Ok(m) ==> r is Ok && final(self).model()
                == m,
            dash_step(old(self).model(), *event) matches Err(er) ==> r == Err::<(), MoneyError>(
                er,
            ),
    {
        match event {
            Event::StocksBought(e) => self.handle_stocks_bought(e),
            Event::PriceObtained(e) => self.handle_price_obtained(e),
            Event::DividendPaid(e) => self.handle_dividend_paid(e),
        }
    }

    /// Apply a purchase: extend the buying total and open or grow the
    /// position.
    fn handle_stocks_bought(&mut self, event: &StocksBought) -> (r: Result<(), MoneyError>)
        requires
            old(self).number_of_positions as int == old(self).assets_model().len(),
        ensures
            step_stocks_bought(old(self).model(), *event) matches Ok(m) ==> r is Ok && final(self).model() == m,
            step_stocks_bought(old(self).model(), *event) matches Err(er) ==> r == Err::<
                (),
                MoneyError,
            >(er),
    {
        let total = match event.price.checked_mul(event.amount) {
            Ok(t) => t,
            Err(er) => {
                return Err(er);
            },
        };
        match self.total_buying_price.upsert(total) {
            Ok(u) => u,
            Err(er) => {
                return Err(er);
            },
        };
        let asset = Asset {
            identifier: StockIdentifier { ticker: event.identifier.ticker.clone() },
            amount: event.amount,
            dividends: Amount::zero(event.currency()),
            value: None,
        };
        self.upsert_assets(asset, event.amount)
    }

    /// Apply a price observation: set the asset's value and extend the value
    /// total; unknown identifiers are ignored.
    fn handle_price_obtained(&mut self, event: &PriceObtained) -> (r: Result<(), MoneyError>)
        ensures
            step_price_obtained(old(self).model(), *event) matches Ok(m) ==> r is Ok && final(self).model() == m,
            step_price_obtained(old(self).model(), *event) matches Err(er) ==> r == Err::<
                (),
                MoneyError,
            >(er),
    {
        let idx = match Self::find_asset(&self.assets, &event.identifier) {
            Some(i) => i,
            None => {
                return Ok(());
            },
        };
        let ghost orig = self.assets@;
        let current = self.assets.remove(idx);
        let value = match event.price.checked_mul(current.amount) {
            Ok(v) => v,
            Err(er) => {
                self.assets.insert(idx, current);
                proof {
                    assert(self.assets@ =~= orig);
                }
                return Err(er);
            },
        };
        let updated = Asset {
            identifier: current.identifier,
            amount: current.amount,
            dividends: current.dividends,
            value: Some(value.duplicate()),
        };
        self.assets.insert(idx, updated);
        match self.total_value.upsert(value) {
            Ok(u) => u,
            Err(er) => {
                return Err(er);
            },
        };
        proof {
            assert(self.assets_model() =~= step_price_obtained(
                old(self).model(),
                *event,
            )->Ok_0.assets);
            assert(self.model() =~= step_price_obtained(old(self).model(), *event)->Ok_0);
        }
        Ok(())
    }

    /// Apply a dividend: grow the asset's dividends and the dividend total
    /// by the per-share dividend times the shares held.
    fn handle_dividend_paid(&mut self, event: &DividendPaid) -> (r: Result<(), MoneyError>)
        ensures
            step_dividend_paid(old(self).model(), *event) matches Ok(m) ==> r is Ok && final(self).model() == m,
            step_dividend_paid(old(self).model(), *event) matches Err(er) ==> r == Err::<
                (),
                MoneyError,
            >(er),
    {
        let idx = match Self::find_asset(&self.assets, &event.identifier) {
            Some(i) => i,
            None => {
                // no shares held: only a zero entry for the currency enters
                // the dividend total
                let zero = match event.price.checked_mul(Decimal::zero()) {
                    Ok(v) => v,
                    Err(er) => {
                        proof {
                            assert(false);
                        }
                        return Err(er);
                    },
                };
                match self.total_dividend.upsert(zero) {
                    Ok(u) => u,
                    Err(er) => {
                        proof {
                            assert(false);
                        }
                        return Err(er);
                    },
                };
                proof {
                    assert(self.model() =~= step_dividend_paid(old(self).model(), *event)->Ok_0);
                }
                return Ok(());
            },
        };
        let ghost orig = self.assets@;
        let current = self.assets.remove(idx);
        let dividend = match event.price.checked_mul(current.amount) {
            Ok(v) => v,
            Err(er) => {
                self.assets.insert(idx, current);
                proof {
                    assert(self.assets@ =~= orig);
                }
                return Err(er);
            },
        };
        let grown = match current.dividends.checked_add(&dividend) {
            Ok(v) => v,
            Err(er) => {
                self.assets.insert(idx, current);
                proof {
                    assert(self.assets@ =~= orig);
                }
                return Err(er);
            },
        };
        let updated = Asset {
            identifier: current.identifier,
            amount: current.amount,
            dividends: grown,
            value: current.value,
        };
        self.assets.insert(idx, updated);
        match self.total_dividend.upsert(dividend) {
            Ok(u) => u,
            Err(er) => {
                return Err(er);
            },
        };
        proof {
            assert(self.assets_model() =~= step_dividend_paid(
                old(self).model(),
                *event,
            )->Ok_0.assets);
            assert(self.model() =~= step_dividend_paid(old(self).model(), *event)->Ok_0);
        }
        Ok(())
    }

    /// Insert a new position or grow an existing one by `amount` shares; a
    /// new position increments the position count.
    fn upsert_assets(&mut self, asset: Asset, amount: Decimal) -> (r: Result<(), MoneyError>)
        requires
            asset_model(asset).amount == amount@,
            old(self).number_of_positions as int == old(self).assets_model().len(),
        ensures
            final(self).total_dividend == old(self).total_dividend,
            final(self).total_buying_price == old(self).total_buying_price,
            final(self).total_value == old(self).total_value,
            match asset_index(old(self).assets_model(), asset.identifier@) {
                None => r is Ok && final(self).number_of_positions == old(
                    self,
                ).number_of_positions + 1 && final(self).assets_model() == old(
                    self,
                ).assets_model().push(asset_model(asset)),
                Some(i) => {
                    let a = old(self).assets_model()[i];
                    if in_i128(a.amount + amount@) {
                        r is Ok && final(self).number_of_positions == old(
                            self,
                        ).number_of_positions && final(self).assets_model() == old(
                            self,
                        ).assets_model().update(
                            i,
                            AssetModel {
                                identifier: a.identifier,
                                amount: a.amount + amount@,
                                dividends_currency: a.dividends_currency,
                                dividends: a.dividends,
                                value: a.value,
                            },
                        )
                    } else {
                        r == Err::<(), MoneyError>(MoneyError::Overflow)
                    }
                },
            },
    {
        match Self::find_asset(&self.assets, &asset.identifier) {
            None => {
                self.assets.push(asset);
                let grown = self.assets.len();
                proof {
                    assert(self.number_of_positions as int + 1 == grown as int);
                }
                self.number_of_positions = self.number_of_positions + 1;
                proof {
                    assert(self.assets_model() =~= old(self).assets_model().push(
                        asset_model(asset),
                    ));
                }
                Ok(())
            },
            Some(i) => {
                let current = self.assets.remove(i);
                let sum = match current.amount.checked_add(amount) {
                    Some(s) => s,
                    None => {
                        self.assets.insert(i, current);
                        proof {
                            assert(self.assets@ =~= old(self).assets@);
                        }
                        return Err(MoneyError::Overflow);
                    },
                };
                let updated = Asset {
                    identifier: current.identifier,
                    amount: sum,
                    dividends: current.dividends,
                    value: current.value,
                };
                self.assets.insert(i, updated);
                proof {
                    let a = old(self).assets_model()[i as int];
                    assert(self.assets_model() =~= old(self).assets_model().update(
                        i as int,
                        AssetModel {
                            identifier: a.identifier,
                            amount: a.amount + amount@,
                            dividends_currency: a.dividends_currency,
                            dividends: a.dividends,
                            value: a.value,
                        },
                    ));
                }
                Ok(())
            },
        }
    }
}

} // verus!
