//! Domain events: immutable, timestamped facts about the portfolio.

use vstd::prelude::*;
use crate::decimal::Decimal;
use crate::value_objects::Amount;
use crate::value_objects::Currency;
use crate::value_objects::MoneyError;
use crate::value_objects::StockIdentifier;
use crate::value_objects::amount_string_cur;
use crate::value_objects::amount_string_val;
use crate::value_objects::is_amount_string;

verus! {

/// A calendar timestamp with second precision.  Field ranges are not
/// enforced by the type; `new` validates them, and ordering uses `key`.
#[derive(Debug, Clone, Copy, PartialEq, Eq, Structural)]
pub struct Timestamp {
    /// Calendar year.
    pub year: u16,
    /// Month of the year, 1 through 12.
    pub month: u8,
    /// Day of the month, 1 through 31.
    pub day: u8,
    /// Hour of the day, 0 through 23.
    pub hour: u8,
    /// Minute of the hour, 0 through 59.
    pub minute: u8,
    /// Second of the minute, 0 through 59.
    pub second: u8,
}

impl Timestamp {
    /// Is each field within its calendar range?
    pub open spec fn wf(&self) -> bool {
        &&& 1 <= self.month <= 12
        &&& 1 <= self.day <= 31
        &&& self.hour <= 23
        &&& self.minute <= 59
        &&& self.second <= 59
    }

    /// A single number that orders timestamps field-lexicographically, year
    /// first; for well-formed timestamps this is chronological order.
    pub open spec fn key(&self) -> int {
        ((((self.year * 256 + self.month) * 256 + self.day) * 256 + self.hour) * 256
            + self.minute) * 256 + self.second
    }

    /// Build a timestamp, validating the field ranges.
    pub fn new(year: u16, month: u8, day: u8, hour: u8, minute: u8, second: u8) -> (r: Option<
        Timestamp,
    >)
        ensures
            r matches Some(t) ==> t == (Timestamp { year, month, day, hour, minute, second })
                && t.wf(),
            r is Some <==> (Timestamp { year, month, day, hour, minute, second }).wf(),
    {
        if 1 <= month && month <= 12 && 1 <= day && day <= 31 && hour <= 23 && minute <= 59
            && second <= 59 {
            Some(Timestamp { year, month, day, hour, minute, second })
        } else {
            None
        }
    }

    /// The ordering key as a machine integer.
    pub fn key_u64(&self) -> (r: u64)
        ensures
            r as int == self.key(),
    {
        ((((self.year as u64 * 256 + self.month as u64) * 256 + self.day as u64) * 256
            + self.hour as u64) * 256 + self.minute as u64) * 256 + self.second as u64
    }

    /// Is this timestamp no later than `other`, field by field?
    pub open spec fn spec_le(&self, other: &Timestamp) -> bool {
        if self.year != other.year {
            self.year < other.year
        } else if self.month != other.month {
            self.month < other.month
        } else if self.day != other.day {
            self.day < other.day
        } else if self.hour != other.hour {
            self.hour < other.hour
        } else if self.minute != other.minute {
            self.minute < other.minute
        } else {
            self.second <= other.second
        }
    }
}

/// A calendar date: the day part of a timestamp.
#[derive(Debug, Clone, Copy, PartialEq, Eq, Structural)]
pub struct Date {
    /// Calendar year.
    pub year: u16,
    /// Month of the year, 1 through 12.
    pub month: u8,
    /// Day of the month, 1 through 31.
    pub day: u8,
}

impl Timestamp {
    /// The day part of this timestamp.
    pub open spec fn spec_date(&self) -> Date {
        Date { year: self.year, month: self.month, day: self.day }
    }

    /// The day part of this timestamp.
    pub fn date(&self) -> (r: Date)
        ensures
            r == self.spec_date(),
    {
        Date { year: self.year, month: self.month, day: self.day }
    }
}

/// The ordering key agrees with field-by-field comparison, so sorting by key
/// sorts chronologically.
pub proof fn lemma_key_orders_timestamps(a: Timestamp, b: Timestamp)
    ensures
        a.key() <= b.key() <==> a.spec_le(&b),
{
}

/// A stock was bought.
#[derive(Debug, Clone, PartialEq)]
pub struct StocksBought {
    /// Event creation time.
    pub created_at: Timestamp,
    /// The number of stocks bought; fractional holdings are allowed.
    pub amount: Decimal,
    /// The price paid per stock.
    pub price: Amount,
    /// The ticker of the stock.
    pub identifier: StockIdentifier,
}

impl StocksBought {
    /// Build the event, parsing `price` as `"<number> <currency>"`.
    pub fn new(created_at: Timestamp, amount: Decimal, price: String, ticker: String) -> (r:
        Result<StocksBought, MoneyError>)
        ensures
            r matches Ok(e) ==> is_amount_string(price@) && e.created_at == created_at && e.amount@
                == amount@ && e.price.num@ == amount_string_val(price@) && e.price.currency@
                == amount_string_cur(price@) && e.identifier@ == ticker@,
            r is Err <==> !is_amount_string(price@),
            r matches Err(err) ==> err matches MoneyError::MalformedAmount(m) && m@ == price@,
    {
        match Amount::parse(price.as_str()) {
            Ok(price) => Ok(
                StocksBought {
                    created_at,
                    amount,
                    price,
                    identifier: StockIdentifier { ticker },
                },
            ),
            Err(e) => Err(e),
        }
    }

    /// The currency the purchase was paid in.
    pub fn currency(&self) -> (r: Currency)
        ensures
            r@ == self.price.currency@,
    {
        Currency(self.price.currency.0.clone())
    }
}

/// A price was obtained for a stock.
#[derive(Debug, Clone, PartialEq)]
pub struct PriceObtained {
    /// The time the price was obtained.
    pub created_at: Timestamp,
    /// The observed price per stock.
    pub price: Amount,
    /// The ticker of the stock.
    pub identifier: StockIdentifier,
}

impl PriceObtained {
    /// Build the event, parsing `price` as `"<number> <currency>"`.
    pub fn new(created_at: Timestamp, price: String, identifier: String) -> (r: Result<
        PriceObtained,
        MoneyError,
    >)
        ensures
            r matches Ok(e) ==> is_amount_string(price@) && e.created_at == created_at
                && e.price.num@ == amount_string_val(price@) && e.price.currency@
                == amount_string_cur(price@) && e.identifier@ == identifier@,
            r is Err <==> !is_amount_string(price@),
            r matches Err(err) ==> err matches MoneyError::MalformedAmount(m) && m@ == price@,
    {
        match Amount::parse(price.as_str()) {
            Ok(price) => Ok(
                PriceObtained { created_at, price, identifier: StockIdentifier { ticker: identifier } },
            ),
            Err(e) => Err(e),
        }
    }

    /// The currency the price was quoted in.
    pub fn currency(&self) -> (r: Currency)
        ensures
            r@ == self.price.currency@,
    {
        Currency(self.price.currency.0.clone())
    }
}

/// A dividend was paid for a stock.
#[derive(Debug, Clone, PartialEq)]
pub struct DividendPaid {
    /// The time the dividend was paid.
    pub created_at: Timestamp,
    /// The dividend paid per stock on hand.
    pub price: Amount,
    /// The ticker of the stock.
    pub identifier: StockIdentifier,
}

impl DividendPaid {
    /// Build the event, parsing `price` as `"<number> <currency>"`.
    pub fn new(created_at: Timestamp, price: String, identifier: String) -> (r: Result<
        DividendPaid,
        MoneyError,
    >)
        ensures
            r matches Ok(e) ==> is_amount_string(price@) && e.created_at == created_at
                && e.price.num@ == amount_string_val(price@) && e.price.currency@
                == amount_string_cur(price@) && e.identifier@ == identifier@,
            r is Err <==> !is_amount_string(price@),
            r matches Err(err) ==> err matches MoneyError::MalformedAmount(m) && m@ == price@,
    {
        match Amount::parse(price.as_str()) {
            Ok(price) => Ok(
                DividendPaid { created_at, price, identifier: StockIdentifier { ticker: identifier } },
            ),
            Err(e) => Err(e),
        }
    }
}

/// The spec-level content of an event: every field by its view.  Two events
/// with the same model are indistinguishable to the ledger's logic.
#[verifier::ext_equal]
pub enum EventModel {
    /// A stock was bought.
    StocksBought {
        /// Event creation time.
        created_at: Timestamp,
        /// Shares bought, in 10^-12 units.
        amount: int,
        /// Price per share, in 10^-12 units.
        price_num: int,
        /// Currency of the price.
        price_cur: Seq<char>,
        /// The stock's ticker.
        identifier: Seq<char>,
    },
    /// A price was obtained.
    PriceObtained {
        /// Event creation time.
        created_at: Timestamp,
        /// Price per share, in 10^-12 units.
        price_num: int,
        /// Currency of the price.
        price_cur: Seq<char>,
        /// The stock's ticker.
        identifier: Seq<char>,
    },
    /// A dividend was paid.
    DividendPaid {
        /// Event creation time.
        created_at: Timestamp,
        /// Dividend per share, in 10^-12 units.
        price_num: int,
        /// Currency of the dividend.
        price_cur: Seq<char>,
        /// The stock's ticker.
        identifier: Seq<char>,
    },
}

impl EventModel {
    /// When the modeled event was created.
    pub open spec fn model_created_at(&self) -> Timestamp {
        match *self {
            EventModel::StocksBought { created_at, .. } => created_at,
            EventModel::PriceObtained { created_at, .. } => created_at,
            EventModel::DividendPaid { created_at, .. } => created_at,
        }
    }
}

/// The model of an executable event.
pub open spec fn event_model(e: Event) -> EventModel {
    match e {
        Event::StocksBought(b) => EventModel::StocksBought {
            created_at: b.created_at,
            amount: b.amount@,
            price_num: b.price.num@,
            price_cur: b.price.currency@,
            identifier: b.identifier@,
        },
        Event::PriceObtained(p) => EventModel::PriceObtained {
            created_at: p.created_at,
            price_num: p.price.num@,
            price_cur: p.price.currency@,
            identifier: p.identifier@,
        },
        Event::DividendPaid(d) => EventModel::DividendPaid {
            created_at: d.created_at,
            price_num: d.price.num@,
            price_cur: d.price.currency@,
            identifier: d.identifier@,
        },
    }
}

/// A domain event of the ledger.
#[derive(Debug, Clone, PartialEq)]
pub enum Event {
    /// A stock was bought.
    StocksBought(StocksBought),
    /// A price was obtained for a stock.
    PriceObtained(PriceObtained),
    /// A dividend was paid for a stock.
    DividendPaid(DividendPaid),
}

impl Event {
    /// When the event was created.
    pub open spec fn spec_created_at(&self) -> Timestamp {
        match self {
            Event::StocksBought(e) => e.created_at,
            Event::PriceObtained(e) => e.created_at,
            Event::DividendPaid(e) => e.created_at,
        }
    }

    /// Build a purchase event, parsing `price` as `"<number> <currency>"`.
    pub fn new_stocks_bought(created_at: Timestamp, amount: Decimal, price: String, ticker: String)
        -> (r: Result<Event, MoneyError>)
        ensures
            r matches Ok(ev) ==> ev matches Event::StocksBought(e) && is_amount_string(price@)
                && e.created_at == created_at && e.amount@ == amount@ && e.price.num@
                == amount_string_val(price@) && e.price.currency@ == amount_string_cur(price@)
                && e.identifier@ == ticker@,
            r is Err <==> !is_amount_string(price@),
    {
        match StocksBought::new(created_at, amount, price, ticker) {
            Ok(e) => Ok(Event::StocksBought(e)),
            Err(e) => Err(e),
        }
    }

    /// Build a price observation event.
    pub fn new_price_obtained(created_at: Timestamp, price: String, identifier: String) -> (r:
        Result<Event, MoneyError>)
        ensures
            r matches Ok(ev) ==> ev matches Event::PriceObtained(e) && is_amount_string(price@)
                && e.created_at == created_at && e.price.num@ == amount_string_val(price@)
                && e.price.currency@ == amount_string_cur(price@) && e.identifier@ == identifier@,
            r is Err <==> !is_amount_string(price@),
    {
        match PriceObtained::new(created_at, price, identifier) {
            Ok(e) => Ok(Event::PriceObtained(e)),
            Err(e) => Err(e),
        }
    }

    /// Build a dividend event.
    pub fn new_dividend_paid(created_at: Timestamp, price: String, identifier: String) -> (r:
        Result<Event, MoneyError>)
        ensures
            r matches Ok(ev) ==> ev matches Event::DividendPaid(e) && is_amount_string(price@)
                && e.created_at == created_at && e.price.num@ == amount_string_val(price@)
                && e.price.currency@ == amount_string_cur(price@) && e.identifier@ == identifier@,
            r is Err <==> !is_amount_string(price@),
    {
        match DividendPaid::new(created_at, price, identifier) {
            Ok(e) => Ok(Event::DividendPaid(e)),
            Err(e) => Err(e),
        }
    }

    /// A copy of the event, equal to the original.
    pub fn duplicate(&self) -> (r: Event)
        ensures
            r == *self,
    {
        match self {
            Event::StocksBought(e) => Event::StocksBought(
                StocksBought {
                    created_at: e.created_at,
                    amount: e.amount,
                    price: e.price.duplicate(),
                    identifier: StockIdentifier { ticker: e.identifier.ticker.clone() },
                },
            ),
            Event::PriceObtained(e) => Event::PriceObtained(
                PriceObtained {
                    created_at: e.created_at,
                    price: e.price.duplicate(),
                    identifier: StockIdentifier { ticker: e.identifier.ticker.clone() },
                },
            ),
            Event::DividendPaid(e) => Event::DividendPaid(
                DividendPaid {
                    created_at: e.created_at,
                    price: e.price.duplicate(),
                    identifier: StockIdentifier { ticker: e.identifier.ticker.clone() },
                },
            ),
        }
    }

    /// When the event was created.
    pub fn created_at(&self) -> (r: Timestamp)
        ensures
            r == self.spec_created_at(),
    {
        match self {
            Event::StocksBought(e) => e.created_at,
            Event::PriceObtained(e) => e.created_at,
            Event::DividendPaid(e) => e.created_at,
        }
    }
}

} // verus!
