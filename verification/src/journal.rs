//! The journal projection: a chronological table of purchases and
//! dividends, one row per event, in event order.
//!
//! The mapping is specified by `journal_fold`; `Journal::new` computes
//! exactly that fold.  Price observations produce no row.

use vstd::prelude::*;
use crate::decimal::Decimal;
use crate::decimal::FRAC_UNITS;
use crate::decimal::spec_mul_fits;
use crate::decimal::spec_mul_trunc;
use crate::events::Date;
use crate::events::DividendPaid;
use crate::events::Event;
use crate::events::StocksBought;
use crate::value_objects::Amount;
use crate::value_objects::MoneyError;
use crate::value_objects::StockIdentifier;

verus! {

/// The kind of a journal row.
#[derive(Debug, Clone, Copy, PartialEq, Eq, Structural)]
pub enum JournalRowType {
    /// A stock purchase.
    Buy,
    /// A dividend payment.
    Dividend,
}

impl JournalRowType {
    /// The kind's display name.
    pub fn display_string(&self) -> (r: String)
        ensures
            *self == JournalRowType::Buy ==> r@ == "Buy"@,
            *self == JournalRowType::Dividend ==> r@ == "Dividend"@,
    {
        match self {
            JournalRowType::Buy => String::from_str("Buy"),
            JournalRowType::Dividend => String::from_str("Dividend"),
        }
    }
}

/// One row of the journal.
#[derive(Debug, Clone, PartialEq)]
pub struct JournalRow {
    /// The day the event happened.
    pub date: Option<Date>,
    /// The kind of the row.
    pub rtype: JournalRowType,
    /// The asset the event concerns.
    pub identifier: StockIdentifier,
    /// Number of shares involved.
    pub amount: Decimal,
    /// Price per share.
    pub price: Amount,
    /// Total money moved by the event.
    pub total: Amount,
}

/// One journal entry, tagged by kind.
#[derive(Debug, Clone, PartialEq)]
pub enum JournalEntry {
    /// A stock purchase.
    Buy(JournalRow),
    /// A dividend payment.
    Dividend(JournalRow),
}

/// The spec-level content of one journal row.
#[verifier::ext_equal]
pub struct RowModel {
    /// The day the event happened.
    pub date: Option<Date>,
    /// The kind of the row.
    pub rtype: JournalRowType,
    /// The asset's ticker.
    pub identifier: Seq<char>,
    /// Number of shares, in 10^-12 units.
    pub amount: int,
    /// Price per share, in 10^-12 units.
    pub price_num: int,
    /// Currency of the price.
    pub price_cur: Seq<char>,
    /// Total, in 10^-12 units.
    pub total_num: int,
    /// Currency of the total.
    pub total_cur: Seq<char>,
}

/// The spec-level content of one journal entry.
#[verifier::ext_equal]
pub struct EntryModel {
    /// Which constructor the entry uses.
    pub kind: JournalRowType,
    /// The row it carries.
    pub row: RowModel,
}

/// The model of an executable journal row.
pub open spec fn row_model(r: JournalRow) -> RowModel {
    RowModel {
        date: r.date,
        rtype: r.rtype,
        identifier: r.identifier@,
        amount: r.amount@,
        price_num: r.price.num@,
        price_cur: r.price.currency@,
        total_num: r.total.num@,
        total_cur: r.total.currency@,
    }
}

/// The model of an executable journal entry.
pub open spec fn entry_model(e: JournalEntry) -> EntryModel {
    match e {
        JournalEntry::Buy(r) => EntryModel { kind: JournalRowType::Buy, row: row_model(r) },
        JournalEntry::Dividend(r) => EntryModel {
            kind: JournalRowType::Dividend,
            row: row_model(r),
        },
    }
}

/// The row a purchase produces: its share count and price, with the total
/// equal to price times share count.
pub open spec fn buy_row(b: StocksBought) -> EntryModel {
    EntryModel {
        kind: JournalRowType::Buy,
        row: RowModel {
            date: Some(b.created_at.spec_date()),
            rtype: JournalRowType::Buy,
            identifier: b.identifier@,
            amount: b.amount@,
            price_num: b.price.num@,
            price_cur: b.price.currency@,
            total_num: spec_mul_trunc(b.price.num@, b.amount@),
            total_cur: b.price.currency@,
        },
    }
}

/// The row a dividend produces: a share count of one, with the total equal
/// to the per-share dividend.
pub open spec fn dividend_row(d: DividendPaid) -> EntryModel {
    EntryModel {
        kind: JournalRowType::Dividend,
        row: RowModel {
            date: Some(d.created_at.spec_date()),
            rtype: JournalRowType::Dividend,
            identifier: d.identifier@,
            amount: FRAC_UNITS as int,
            price_num: d.price.num@,
            price_cur: d.price.currency@,
            total_num: d.price.num@,
            total_cur: d.price.currency@,
        },
    }
}

/// The journal denoted by an event sequence: one `Buy` row per purchase,
/// one `Dividend` row per dividend, nothing for price observations, in
/// event order.
pub open spec fn journal_fold(events: Seq<Event>) -> Result<Seq<EntryModel>, MoneyError>
    decreases events.len(),
{
    if events.len() == 0 {
        Ok(Seq::empty())
    } else {
        match journal_fold(events.drop_last()) {
            Ok(rows) => match events.last() {
                Event::StocksBought(b) => if !spec_mul_fits(b.price.num@, b.amount@) {
                    Err(MoneyError::Overflow)
                } else {
                    Ok(rows.push(buy_row(b)))
                },
                Event::DividendPaid(d) => Ok(rows.push(dividend_row(d))),
                Event::PriceObtained(_) => Ok(rows),
            },
            Err(e) => Err(e),
        }
    }
}

/// Once a prefix of the fold fails, the whole fold fails the same way.
proof fn lemma_journal_fold_error(events: Seq<Event>, j: int)
    requires
        0 <= j <= events.len(),
        journal_fold(events.subrange(0, j)) is Err,
    ensures
        journal_fold(events) == journal_fold(events.subrange(0, j)),
    decreases events.len() - j,
{
    if j < events.len() {
        assert(events.subrange(0, j + 1).drop_last() =~= events.subrange(0, j));
        lemma_journal_fold_error(events, j + 1);
    } else {
        assert(events.subrange(0, events.len() as int) =~= events);
    }
}

/// The journal: a projection of an event sequence.
#[derive(Debug)]
pub struct Journal {
    /// The rows, in event order.
    pub entries: Vec<JournalEntry>,
}

impl Journal {
    /// The journal's spec-level content.
    pub open spec fn model(&self) -> Seq<EntryModel> {
        self.entries@.map_values(|e: JournalEntry| entry_model(e))
    }

    /// Build the journal from `events`; the result is exactly the fold
    /// `journal_fold(events)`, including its error cases.
    pub fn new(events: Vec<Event>) -> (r: Result<Journal, MoneyError>)
        ensures
            journal_fold(events@) matches Ok(rows) ==> r matches Ok(j) && j.model() == rows,
            journal_fold(events@) matches Err(e) ==> r == Err::<Journal, MoneyError>(e),
    {
        let mut entries: Vec<JournalEntry> = Vec::new();
        proof {
            assert(entries@.map_values(|e: JournalEntry| entry_model(e)) =~= Seq::<
                EntryModel,
            >::empty());
            assert(events@.subrange(0, 0) =~= Seq::<Event>::empty());
        }
        let n = events.len();
        let mut k: usize = 0;
        while k < n
            invariant
                k <= n,
                n == events@.len(),
                journal_fold(events@.subrange(0, k as int)) == Ok::<Seq<EntryModel>, MoneyError>(
                    entries@.map_values(|e: JournalEntry| entry_model(e)),
                ),
            decreases n - k,
        {
            let ghost before = entries@;
            proof {
                assert(events@.subrange(0, k as int + 1).drop_last() =~= events@.subrange(
                    0,
                    k as int,
                ));
                assert(events@.subrange(0, k as int + 1).last() == events@[k as int]);
            }
            match &events[k] {
                Event::StocksBought(b) => {
                    let total = match b.price.checked_mul(b.amount) {
                        Ok(t) => t,
                        Err(er) => {
                            proof {
                                lemma_journal_fold_error(events@, k as int + 1);
                            }
                            return Err(er);
                        },
                    };
                    let row = JournalRow {
                        date: Some(b.created_at.date()),
                        rtype: JournalRowType::Buy,
                        identifier: StockIdentifier { ticker: b.identifier.ticker.clone() },
                        amount: b.amount,
                        price: b.price.duplicate(),
                        total,
                    };
                    entries.push(JournalEntry::Buy(row));
                },
                Event::DividendPaid(d) => {
                    let row = JournalRow {
                        date: Some(d.created_at.date()),
                        rtype: JournalRowType::Dividend,
                        identifier: StockIdentifier { ticker: d.identifier.ticker.clone() },
                        amount: Decimal::from_int(1),
                        price: d.price.duplicate(),
                        total: d.price.duplicate(),
                    };
                    entries.push(JournalEntry::Dividend(row));
                },
                Event::PriceObtained(_) => {},
            }
            proof {
                assert(entries@.map_values(|e: JournalEntry| entry_model(e))
                    =~= journal_fold(events@.subrange(0, k as int + 1))->Ok_0);
            }
            k = k + 1;
        }
        proof {
            assert(events@.subrange(0, n as int) =~= events@);
        }
        Ok(Journal { entries })
    }
}

} // verus!
