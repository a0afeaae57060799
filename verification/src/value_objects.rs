//! Money value objects: currencies, single-currency amounts, and the
//! multi-currency bag used by the dashboard totals.

use vstd::prelude::*;
use crate::decimal::Decimal;
use crate::decimal::dec_token_value;
use crate::decimal::is_dec_numeral;
use crate::decimal::spec_format2;
use crate::decimal::spec_mul_trunc;
use crate::decimal::spec_mul_fits;

verus! {

/// Errors arising from money parsing and arithmetic.
#[derive(Debug, Clone, PartialEq, Eq)]
pub enum MoneyError {
    /// The string is not `"<number> <currency>"` with a valid decimal number.
    MalformedAmount(String),
    /// Arithmetic between two amounts of different currencies.
    CurrencyMismatch,
    /// A result fell outside the representable decimal range.
    Overflow,
}

/// Whitespace characters recognized when splitting an amount string.
pub open spec fn is_space(c: char) -> bool {
    c == ' ' || c == '\t' || c == '\n' || c == '\r'
}

/// The whitespace-separated tokens of `s` from position `i` onward, where
/// `cur` is the partial token read just before `i`.
pub open spec fn spec_tokens_from(s: Seq<char>, i: int, cur: Seq<char>) -> Seq<Seq<char>>
    decreases s.len() - i when 0 <= i <= s.len()
{
    if i >= s.len() {
        if cur.len() > 0 {
            seq![cur]
        } else {
            seq![]
        }
    } else if is_space(s[i]) {
        if cur.len() > 0 {
            seq![cur] + spec_tokens_from(s, i + 1, Seq::empty())
        } else {
            spec_tokens_from(s, i + 1, Seq::empty())
        }
    } else {
        spec_tokens_from(s, i + 1, cur.push(s[i]))
    }
}

/// The whitespace-separated tokens of `s`.
pub open spec fn spec_tokens(s: Seq<char>) -> Seq<Seq<char>> {
    spec_tokens_from(s, 0, Seq::empty())
}

/// Run-time test matching `is_space`.
fn is_space_char(c: char) -> (r: bool)
    ensures
        r == is_space(c),
{
    c == ' ' || c == '\t' || c == '\n' || c == '\r'
}

/// Split `s` into its whitespace-separated tokens.
fn split_tokens(s: &str) -> (r: Vec<String>)
    ensures
        r@.map_values(|t: String| t@) == spec_tokens(s@),
{
    let n = s.unicode_len();
    let mut toks: Vec<String> = Vec::new();
    let mut i: usize = 0;
    while i < n
        invariant
            i <= n,
            n == s@.len(),
            toks@.map_values(|t: String| t@) + spec_tokens_from(s@, i as int, Seq::empty())
                =~= spec_tokens(s@),
        ensures
            i == n,
            toks@.map_values(|t: String| t@) + spec_tokens_from(s@, i as int, Seq::empty())
                =~= spec_tokens(s@),
        decreases n - i,
    {
        let c = s.get_char(i);
        if is_space_char(c) {
            i = i + 1;
        } else {
            // scan one token; the current character starts it
            let start = i;
            proof {
                assert(Seq::<char>::empty().push(s@[start as int]) =~= s@.subrange(
                    start as int,
                    start as int + 1,
                ));
            }
            i = i + 1;
            while i < n
                invariant
                    start <= i <= n,
                    n == s@.len(),
                    spec_tokens_from(s@, start as int, Seq::empty()) == spec_tokens_from(
                        s@,
                        i as int,
                        s@.subrange(start as int, i as int),
                    ),
                    i > start,
                ensures
                    start < i <= n,
                    spec_tokens_from(s@, start as int, Seq::empty()) == spec_tokens_from(
                        s@,
                        i as int,
                        s@.subrange(start as int, i as int),
                    ),
                    i == n || is_space(s@[i as int]),
                decreases n - i,
            {
                let c2 = s.get_char(i);
                if is_space_char(c2) {
                    break ;
                }
                proof {
                    assert(s@.subrange(start as int, i as int).push(s@[i as int]) =~= s@.subrange(
                        start as int,
                        i as int + 1,
                    ));
                }
                i = i + 1;
            }
            let tok = String::from_str(s.substring_char(start, i));
            proof {
                let cur = s@.subrange(start as int, i as int);
                assert(cur.len() > 0);
                if i < n {
                    assert(spec_tokens_from(s@, i as int, cur) =~= seq![cur] + spec_tokens_from(
                        s@,
                        i as int + 1,
                        Seq::empty(),
                    ));
                } else {
                    assert(spec_tokens_from(s@, i as int, cur) =~= seq![cur]);
                }
                assert((toks@ + seq![tok]).map_values(|t: String| t@) =~= toks@.map_values(
                    |t: String| t@,
                ) + seq![tok@]);
            }
            toks.push(tok);
            if i < n {
                i = i + 1;
            } else {
                proof {
                    assert(spec_tokens_from(s@, i as int, Seq::<char>::empty()) =~= Seq::<
                        Seq<char>,
                    >::empty());
                }
            }
        }
    }
    proof {
        assert(spec_tokens_from(s@, n as int, Seq::<char>::empty()) =~= Seq::<Seq<char>>::empty());
        assert(toks@.map_values(|t: String| t@) =~= spec_tokens(s@));
    }
    toks
}

/// A currency code.  The empty code is a sentinel meaning "no currency yet".
#[derive(Debug, Clone, Eq)]
pub struct Currency(pub String);

impl View for Currency {
    type V = Seq<char>;

    open spec fn view(&self) -> Seq<char> {
        self.0@
    }
}

impl PartialEq for Currency {
    fn eq(&self, other: &Currency) -> (r: bool) {
        self.0 == other.0
    }
}

impl vstd::std_specs::cmp::PartialEqSpecImpl for Currency {
    open spec fn obeys_eq_spec() -> bool {
        true
    }

    open spec fn eq_spec(&self, other: &Currency) -> bool {
        self.0@ == other.0@
    }
}

impl Currency {
    /// Is this the "no currency" sentinel?
    pub fn is_empty(&self) -> (r: bool)
        ensures
            r == (self@.len() == 0),
    {
        self.0.as_str().is_empty()
    }

    /// The code itself, for display.
    pub fn display_string(&self) -> (r: String)
        ensures
            r@ == self@,
    {
        self.0.clone()
    }
}

impl Default for Currency {
    /// The default currency used to zero-initialize money bags.
    fn default() -> (r: Currency)
        ensures
            r@ == "USD"@,
    {
        Currency(String::from_str("USD"))
    }
}

impl From<String> for Currency {
    fn from(s: String) -> (r: Currency) {
        Currency(s)
    }
}

impl vstd::std_specs::convert::FromSpecImpl<String> for Currency {
    open spec fn obeys_from_spec() -> bool {
        true
    }

    open spec fn from_spec(s: String) -> Currency {
        Currency(s)
    }
}

/// A ticker symbol identifying a stock or other asset.
#[derive(Debug, Clone, Eq)]
pub struct StockIdentifier {
    /// The ticker of the stock.
    pub ticker: String,
}

impl View for StockIdentifier {
    type V = Seq<char>;

    open spec fn view(&self) -> Seq<char> {
        self.ticker@
    }
}

impl PartialEq for StockIdentifier {
    fn eq(&self, other: &StockIdentifier) -> (r: bool) {
        self.ticker == other.ticker
    }
}

impl vstd::std_specs::cmp::PartialEqSpecImpl for StockIdentifier {
    open spec fn obeys_eq_spec() -> bool {
        true
    }

    open spec fn eq_spec(&self, other: &StockIdentifier) -> bool {
        self.ticker@ == other.ticker@
    }
}

impl From<String> for StockIdentifier {
    fn from(s: String) -> (r: StockIdentifier) {
        StockIdentifier { ticker: s }
    }
}

impl vstd::std_specs::convert::FromSpecImpl<String> for StockIdentifier {
    open spec fn obeys_from_spec() -> bool {
        true
    }

    open spec fn from_spec(s: String) -> StockIdentifier {
        StockIdentifier { ticker: s }
    }
}

impl StockIdentifier {
    /// The ticker itself, for display.
    pub fn display_string(&self) -> (r: String)
        ensures
            r@ == self@,
    {
        self.ticker.clone()
    }
}

/// What an amount's display looks like: the number to two decimal places,
/// then a space and the currency code unless the code is empty.
pub open spec fn spec_amount_display(v: int, cur: Seq<char>) -> Seq<char> {
    if cur.len() == 0 {
        spec_format2(v)
    } else {
        spec_format2(v) + seq![' '] + cur
    }
}

/// Is `s` a well-formed amount string, i.e. exactly two whitespace-separated
/// tokens whose first is a representable decimal numeral?
pub open spec fn is_amount_string(s: Seq<char>) -> bool {
    &&& spec_tokens(s).len() == 2
    &&& is_dec_numeral(spec_tokens(s)[0])
}

/// The numeric value (in 10^-12 units) denoted by a well-formed amount string.
pub open spec fn amount_string_val(s: Seq<char>) -> int {
    dec_token_value(spec_tokens(s)[0])->Some_0
}

/// The currency code of a well-formed amount string.
pub open spec fn amount_string_cur(s: Seq<char>) -> Seq<char> {
    spec_tokens(s)[1]
}

/// A quantity of money in one currency.
#[derive(Debug, Clone)]
pub struct Amount {
    /// The numeric value.
    pub num: Decimal,
    /// The currency the value is denominated in.
    pub currency: Currency,
}

impl PartialEq for Amount {
    fn eq(&self, other: &Amount) -> (r: bool) {
        self.num.eq_value(&other.num) && self.currency == other.currency
    }
}

impl vstd::std_specs::cmp::PartialEqSpecImpl for Amount {
    open spec fn obeys_eq_spec() -> bool {
        true
    }

    open spec fn eq_spec(&self, other: &Amount) -> bool {
        self.num@ == other.num@ && self.currency@ == other.currency@
    }
}

impl Amount {
    /// An amount of `num` units of `currency`.
    pub fn new(num: Decimal, currency: Currency) -> (r: Amount)
        ensures
            r.num@ == num@,
            r.currency@ == currency@,
    {
        Amount { num, currency }
    }

    /// Zero units of `currency`.
    pub fn zero(currency: Currency) -> (r: Amount)
        ensures
            r.num@ == 0,
            r.currency@ == currency@,
    {
        Amount { num: Decimal::zero(), currency }
    }

    /// A copy of this amount, equal to the original.
    pub fn duplicate(&self) -> (r: Amount)
        ensures
            r == *self,
    {
        Amount { num: self.num, currency: Currency(self.currency.0.clone()) }
    }

    /// Parse `"<number> <currency>"`.  Fails with `MalformedAmount` exactly
    /// when the string does not split into two whitespace-separated tokens or
    /// the first is not a representable decimal numeral.
    pub fn parse(s: &str) -> (r: Result<Amount, MoneyError>)
        ensures
            r matches Ok(a) ==> is_amount_string(s@) && a.num@ == amount_string_val(s@)
                && a.currency@ == amount_string_cur(s@),
            r is Err <==> !is_amount_string(s@),
            r matches Err(e) ==> e matches MoneyError::MalformedAmount(m) && m@ == s@,
    {
        let toks = split_tokens(s);
        proof {
            assert(toks@.map_values(|t: String| t@).len() == toks@.len());
        }
        if toks.len() != 2 {
            return Err(MoneyError::MalformedAmount(String::from_str(s)));
        }
        proof {
            assert(spec_tokens(s@)[0] == toks@[0]@);
            assert(spec_tokens(s@)[1] == toks@[1]@);
        }
        match Decimal::parse(toks[0].as_str()) {
            Some(num) => Ok(Amount { num, currency: Currency(toks[1].clone()) }),
            None => Err(MoneyError::MalformedAmount(String::from_str(s))),
        }
    }

    /// Render as `"<number to two decimals> <currency>"`, or just the number
    /// when the currency is empty.
    pub fn display_string(&self) -> (r: String)
        ensures
            r@ == spec_amount_display(self.num@, self.currency@),
    {
        proof {
            reveal_strlit(" ");
        }
        let mut out = self.num.format2();
        if !self.currency.is_empty() {
            out.append(" ");
            out.append(self.currency.0.as_str());
            proof {
                assert(out@ =~= spec_format2(self.num@) + seq![' '] + self.currency@);
            }
        }
        out
    }

    /// Sum of two amounts of the same currency.  Fails with
    /// `CurrencyMismatch` exactly when the currencies differ, and with
    /// `Overflow` exactly when they match but the sum is unrepresentable.
    pub fn checked_add(&self, rhs: &Amount) -> (r: Result<Amount, MoneyError>)
        ensures
            r matches Ok(a) ==> self.currency@ == rhs.currency@ && a.num@ == self.num@ + rhs.num@
                && a.currency@ == self.currency@,
            r == Err::<Amount, MoneyError>(MoneyError::CurrencyMismatch) <==> self.currency@ != rhs.currency@,
            r == Err::<Amount, MoneyError>(MoneyError::Overflow) <==> self.currency@ == rhs.currency@ && !(i128::MIN
                <= self.num@ + rhs.num@ <= i128::MAX),
            r is Err ==> r == Err::<Amount, MoneyError>(MoneyError::CurrencyMismatch) || r
                == Err::<Amount, MoneyError>(MoneyError::Overflow),
    {
        if !(self.currency == rhs.currency) {
            return Err(MoneyError::CurrencyMismatch);
        }
        match self.num.checked_add(rhs.num) {
            Some(num) => Ok(Amount { num, currency: Currency(self.currency.0.clone()) }),
            None => Err(MoneyError::Overflow),
        }
    }

    /// Add a bare number to the amount, keeping its currency.
    pub fn checked_add_num(&self, n: Decimal) -> (r: Result<Amount, MoneyError>)
        ensures
            r matches Ok(a) ==> a.num@ == self.num@ + n@ && a.currency@ == self.currency@,
            r == Err::<Amount, MoneyError>(MoneyError::Overflow) <==> !(i128::MIN <= self.num@ + n@ <= i128::MAX),
            r is Err ==> r == Err::<Amount, MoneyError>(MoneyError::Overflow),
    {
        match self.num.checked_add(n) {
            Some(num) => Ok(Amount { num, currency: Currency(self.currency.0.clone()) }),
            None => Err(MoneyError::Overflow),
        }
    }

    /// Scale the amount by a bare number (e.g. a share count), keeping its
    /// currency; the product is truncated to twelve fractional digits.
    pub fn checked_mul(&self, qty: Decimal) -> (r: Result<Amount, MoneyError>)
        ensures
            r matches Ok(a) ==> a.num@ == spec_mul_trunc(self.num@, qty@) && a.currency@
                == self.currency@,
            r is Err <==> !spec_mul_fits(self.num@, qty@),
            r is Err ==> r == Err::<Amount, MoneyError>(MoneyError::Overflow),
    {
        match self.num.checked_mul(qty) {
            Some(num) => Ok(Amount { num, currency: Currency(self.currency.0.clone()) }),
            None => Err(MoneyError::Overflow),
        }
    }
}

/// Do the entries of `s` carry pairwise different currencies?
pub open spec fn distinct_currencies(s: Seq<Amount>) -> bool {
    forall|i: int, j: int| 0 <= i < j < s.len() ==> s[i].currency@ != s[j].currency@
}

/// The currency-to-value map denoted by a list of amounts; a later entry for
/// the same currency replaces an earlier one.
pub open spec fn amounts_map(s: Seq<Amount>) -> Map<Seq<char>, int>
    decreases s.len(),
{
    if s.len() == 0 {
        Map::empty()
    } else {
        amounts_map(s.drop_last()).insert(s.last().currency@, s.last().num@)
    }
}

/// The value a bag holds for `k`, defaulting to zero.
pub open spec fn bag_val(m: Map<Seq<char>, int>, k: Seq<char>) -> int {
    if m.contains_key(k) {
        m[k]
    } else {
        0
    }
}

/// The (currency, value) views of a list of amounts.
pub open spec fn amount_views(s: Seq<Amount>) -> Seq<(Seq<char>, int)> {
    s.map_values(|a: Amount| (a.currency@, a.num@))
}

/// Each entry of a list with distinct currencies appears in its map.
proof fn lemma_amounts_map_entry(s: Seq<Amount>, i: int)
    requires
        distinct_currencies(s),
        0 <= i < s.len(),
    ensures
        amounts_map(s).contains_key(s[i].currency@),
        amounts_map(s)[s[i].currency@] == s[i].num@,
    decreases s.len(),
{
    if i < s.len() - 1 {
        assert(distinct_currencies(s.drop_last()));
        lemma_amounts_map_entry(s.drop_last(), i);
        assert(s.drop_last()[i] == s[i]);
        assert(s.last().currency@ != s[i].currency@);
    }
}

/// A currency no entry carries is absent from the map.
proof fn lemma_amounts_map_absent(s: Seq<Amount>, k: Seq<char>)
    requires
        forall|i: int| 0 <= i < s.len() ==> (#[trigger] s[i]).currency@ != k,
    ensures
        !amounts_map(s).contains_key(k),
    decreases s.len(),
{
    if s.len() > 0 {
        assert(forall|i: int|
            0 <= i < s.drop_last().len() ==> (#[trigger] s.drop_last()[i]).currency@ != k);
        lemma_amounts_map_absent(s.drop_last(), k);
        assert(s.last() == s[s.len() - 1]);
    }
}

/// Replacing the entry that carries a currency updates the map at that key.
proof fn lemma_amounts_map_update(s: Seq<Amount>, i: int, a: Amount)
    requires
        distinct_currencies(s),
        0 <= i < s.len(),
        s[i].currency@ == a.currency@,
    ensures
        amounts_map(s.update(i, a)) =~= amounts_map(s).insert(a.currency@, a.num@),
    decreases s.len(),
{
    let k = a.currency@;
    let m0 = amounts_map(s.drop_last());
    if i == s.len() - 1 {
        assert(s.update(i, a).drop_last() =~= s.drop_last());
        assert(s.update(i, a).last() == a);
        assert(m0.insert(k, s[i].num@).insert(k, a.num@) =~= m0.insert(k, a.num@));
    } else {
        assert(distinct_currencies(s.drop_last()));
        assert(s.drop_last()[i] == s[i]);
        lemma_amounts_map_update(s.drop_last(), i, a);
        assert(s.update(i, a).drop_last() =~= s.drop_last().update(i, a));
        assert(s.update(i, a).last() == s.last());
        let lk = s.last().currency@;
        let lv = s.last().num@;
        assert(s.last() == s[s.len() - 1]);
        assert(lk != k);
        assert(m0.insert(k, a.num@).insert(lk, lv) =~= m0.insert(lk, lv).insert(k, a.num@));
    }
}

/// Is every entry of `s` recorded in the map `m`?
pub open spec fn spec_included(s: Seq<Amount>, m: Map<Seq<char>, int>) -> bool {
    forall|i: int|
        0 <= i < s.len() ==> m.contains_key((#[trigger] s[i]).currency@) && m[s[i].currency@]
            == s[i].num@
}

/// Lexicographic order on character sequences, compared from position `i`.
pub open spec fn lex_le_from(a: Seq<char>, b: Seq<char>, i: int) -> bool
    decreases a.len() - i when 0 <= i
{
    if i >= a.len() {
        true
    } else if i >= b.len() {
        false
    } else if (a[i] as int) < (b[i] as int) {
        true
    } else if (a[i] as int) > (b[i] as int) {
        false
    } else {
        lex_le_from(a, b, i + 1)
    }
}

/// Lexicographic order on character sequences.
pub open spec fn lex_le(a: Seq<char>, b: Seq<char>) -> bool {
    lex_le_from(a, b, 0)
}

/// Lexicographic order is total.
pub proof fn lemma_lex_total(a: Seq<char>, b: Seq<char>, i: int)
    requires
        0 <= i,
    ensures
        lex_le_from(a, b, i) || lex_le_from(b, a, i),
    decreases a.len() - i,
{
    if i < a.len() && i < b.len() && a[i] == b[i] {
        lemma_lex_total(a, b, i + 1);
    }
}

/// Lexicographic order is transitive.
pub proof fn lemma_lex_trans(a: Seq<char>, b: Seq<char>, c: Seq<char>, i: int)
    requires
        0 <= i,
        lex_le_from(a, b, i),
        lex_le_from(b, c, i),
    ensures
        lex_le_from(a, c, i),
    decreases a.len() - i,
{
    if i < a.len() && i < b.len() && i < c.len() && a[i] == b[i] && b[i] == c[i] {
        lemma_lex_trans(a, b, c, i + 1);
    }
}

/// Run-time lexicographic comparison matching `lex_le`.
fn str_lex_le(a: &str, b: &str) -> (r: bool)
    ensures
        r == lex_le(a@, b@),
{
    let an = a.unicode_len();
    let bn = b.unicode_len();
    let mut i: usize = 0;
    loop
        invariant
            i <= an,
            i <= bn,
            an == a@.len(),
            bn == b@.len(),
            lex_le(a@, b@) == lex_le_from(a@, b@, i as int),
        decreases an - i,
    {
        if i == an {
            return true;
        }
        if i == bn {
            return false;
        }
        let ua = a.get_char(i) as u32;
        let ub = b.get_char(i) as u32;
        if ua < ub {
            return true;
        }
        if ua > ub {
            return false;
        }
        i = i + 1;
    }
}

/// A multi-currency money bag: at most one entry per currency code.
#[derive(Debug)]
pub struct Amounts {
    amounts: Vec<Amount>,
}

impl Amounts {
    /// The entries of the bag, in insertion order.
    pub closed spec fn entries(&self) -> Seq<Amount> {
        self.amounts@
    }

    /// The bag as a map from currency code to value.
    pub open spec fn as_map(&self) -> Map<Seq<char>, int> {
        amounts_map(self.entries())
    }

    #[verifier::type_invariant]
    spec fn inv(self) -> bool {
        distinct_currencies(self.amounts@)
    }

    /// Index of the entry carrying currency `c`, if any.
    fn find_currency(v: &Vec<Amount>, c: &Currency) -> (r: Option<usize>)
        ensures
            r matches Some(i) ==> i < v@.len() && v@[i as int].currency@ == c@,
            r is None ==> forall|i: int| 0 <= i < v@.len() ==> (#[trigger] v@[i]).currency@ != c@,
    {
        let n = v.len();
        let mut i: usize = 0;
        while i < n
            invariant
                i <= n,
                n == v@.len(),
                forall|p: int| 0 <= p < i ==> (#[trigger] v@[p]).currency@ != c@,
            decreases n - i,
        {
            if v[i].currency == *c {
                return Some(i);
            }
            i = i + 1;
        }
        None
    }

    /// A bag holding the given amounts; a later amount for a currency
    /// replaces an earlier one, as in repeated map insertion.
    pub fn new(list: Vec<Amount>) -> (r: Amounts)
        ensures
            r.as_map() == amounts_map(list@),
    {
        let mut out = Amounts { amounts: Vec::new() };
        let n = list.len();
        let mut k: usize = 0;
        while k < n
            invariant
                k <= n,
                n == list@.len(),
                out.as_map() == amounts_map(list@.subrange(0, k as int)),
            decreases n - k,
        {
            out.put(list[k].duplicate());
            k = k + 1;
            proof {
                assert(list@.subrange(0, k as int).drop_last() =~= list@.subrange(0, k - 1));
                assert(list@.subrange(0, k as int).last() == list@[k - 1]);
            }
        }
        proof {
            assert(list@.subrange(0, n as int) =~= list@);
        }
        out
    }

    /// The empty bag.
    pub fn empty() -> (r: Amounts)
        ensures
            r.as_map() == Map::<Seq<char>, int>::empty(),
            r.entries().len() == 0,
    {
        Amounts { amounts: Vec::new() }
    }

    /// The zero bag: one zero entry for the default currency, so consumers
    /// never see an entirely empty bag.
    pub fn zero() -> (r: Amounts)
        ensures
            r.as_map() == Map::<Seq<char>, int>::empty().insert("USD"@, 0),
            r.entries().len() == 1,
    {
        let mut v: Vec<Amount> = Vec::new();
        v.push(Amount::zero(Currency::default()));
        proof {
            assert(v@.drop_last() =~= Seq::<Amount>::empty());
            assert(amounts_map(Seq::<Amount>::empty()) =~= Map::<Seq<char>, int>::empty());
            assert(amounts_map(v@) =~= Map::<Seq<char>, int>::empty().insert("USD"@, 0));
        }
        Amounts { amounts: v }
    }

    /// Number of currencies in the bag.
    pub fn len(&self) -> (r: usize)
        ensures
            r == self.entries().len(),
    {
        self.amounts.len()
    }

    /// Insert `amount`, replacing any existing entry for its currency.
    fn put(&mut self, amount: Amount)
        ensures
            final(self).as_map() == old(self).as_map().insert(amount.currency@, amount.num@),
    {
        proof {
            use_type_invariant(&*self);
        }
        let mut v: Vec<Amount> = Vec::new();
        core::mem::swap(&mut v, &mut self.amounts);
        let ghost orig = v@;
        match Self::find_currency(&v, &amount.currency) {
            Some(i) => {
                let _ = v.remove(i);
                v.insert(i, amount);
                proof {
                    assert(v@ =~= orig.update(i as int, amount));
                    lemma_amounts_map_update(orig, i as int, amount);
                    assert(distinct_currencies(v@));
                }
            },
            None => {
                v.push(amount);
                proof {
                    assert(v@.drop_last() =~= orig);
                    assert(distinct_currencies(v@));
                }
            },
        }
        self.amounts = v;
    }

    /// The amount held for `currency`, defaulting to zero; the bag itself is
    /// not changed.
    pub fn for_currency(&self, currency: &Currency) -> (r: Amount)
        ensures
            r.currency@ == currency@,
            r.num@ == bag_val(self.as_map(), currency@),
    {
        proof {
            use_type_invariant(&*self);
        }
        match Self::find_currency(&self.amounts, currency) {
            Some(i) => {
                proof {
                    lemma_amounts_map_entry(self.amounts@, i as int);
                }
                Amount { num: self.amounts[i].num, currency: Currency(currency.0.clone()) }
            },
            None => {
                proof {
                    lemma_amounts_map_absent(self.amounts@, currency@);
                }
                Amount::zero(Currency(currency.0.clone()))
            },
        }
    }

    /// Add `amount` into the bag, summing with any existing entry for its
    /// currency.  Fails with `Overflow` exactly when that sum is
    /// unrepresentable, leaving the bag unchanged.
    pub fn upsert(&mut self, amount: Amount) -> (r: Result<(), MoneyError>)
        ensures
            r is Ok ==> final(self).as_map() == old(self).as_map().insert(
                amount.currency@,
                bag_val(old(self).as_map(), amount.currency@) + amount.num@,
            ),
            r is Err <==> !(i128::MIN <= bag_val(old(self).as_map(), amount.currency@)
                + amount.num@ <= i128::MAX),
            i128::MIN <= bag_val(old(self).as_map(), amount.currency@) <= i128::MAX,
            r is Err ==> r == Err::<(), MoneyError>(MoneyError::Overflow) && *final(self)
                == *old(self),
    {
        proof {
            use_type_invariant(&*self);
        }
        let existing = self.for_currency(&amount.currency);
        proof {
            existing.num.lemma_in_range();
        }
        match existing.checked_add(&amount) {
            Ok(sum) => {
                self.put(sum);
                Ok(())
            },
            Err(_) => Err(MoneyError::Overflow),
        }
    }

    /// The entries ordered by ascending currency code, for stable display.
    pub fn sorted(&self) -> (r: Vec<Amount>)
        ensures
            vstd::relations::sorted_by(r@, |x: Amount, y: Amount| lex_le(x.currency@, y.currency@)),
            amount_views(r@).to_multiset() == amount_views(self.entries()).to_multiset(),
    {
        let ghost leq = |x: Amount, y: Amount| lex_le(x.currency@, y.currency@);
        let n = self.amounts.len();
        let mut out: Vec<Amount> = Vec::new();
        let mut k: usize = 0;
        proof {
            assert(self.amounts@.subrange(0, 0) =~= Seq::<Amount>::empty());
            assert(amount_views(out@) =~= amount_views(Seq::<Amount>::empty()));
        }
        while k < n
            invariant
                k <= n,
                n == self.amounts@.len(),
                vstd::relations::sorted_by(out@, leq),
                amount_views(out@).to_multiset() == amount_views(
                    self.amounts@.subrange(0, k as int),
                ).to_multiset(),
                leq == (|x: Amount, y: Amount| lex_le(x.currency@, y.currency@)),
            decreases n - k,
        {
            let a = self.amounts[k].duplicate();
            let mut p: usize = 0;
            loop
                invariant
                    p <= out@.len(),
                    forall|q: int| 0 <= q < p ==> leq(#[trigger] out@[q], a),
                    leq == (|x: Amount, y: Amount| lex_le(x.currency@, y.currency@)),
                ensures
                    p <= out@.len(),
                    forall|q: int| 0 <= q < p ==> leq(#[trigger] out@[q], a),
                    p == out@.len() || !lex_le(out@[p as int].currency@, a.currency@),
                decreases out@.len() - p,
            {
                if p == out.len() {
                    break ;
                }
                if !str_lex_le(out[p].currency.0.as_str(), a.currency.0.as_str()) {
                    break ;
                }
                p = p + 1;
            }
            let ghost old_out = out@;
            out.insert(p, a);
            proof {
                // order around the insertion point
                assert forall|q: int| p <= q < old_out.len() implies leq(a, old_out[q]) by {
                    lemma_lex_total(old_out[p as int].currency@, a.currency@, 0);
                    if q > p {
                        assert(leq(old_out[p as int], old_out[q]));
                        lemma_lex_trans(
                            a.currency@,
                            old_out[p as int].currency@,
                            old_out[q].currency@,
                            0,
                        );
                    }
                }
                assert(vstd::relations::sorted_by(out@, leq)) by {
                    assert(forall|q: int|
                        0 <= q < out@.len() ==> out@[q] == if q < p {
                            old_out[q]
                        } else if q == p {
                            a
                        } else {
                            old_out[q - 1]
                        });
                }
                // element bookkeeping
                let pv = (a.currency@, a.num@);
                assert(amount_views(out@) =~= amount_views(old_out).insert(p as int, pv));
                vstd::seq_lib::to_multiset_insert(amount_views(old_out), p as int, pv);
                assert(amount_views(self.amounts@.subrange(0, k as int + 1)) =~= amount_views(
                    self.amounts@.subrange(0, k as int),
                ).push(pv));
                vstd::seq_lib::to_multiset_build(
                    amount_views(self.amounts@.subrange(0, k as int)),
                    pv,
                );
            }
            k = k + 1;
        }
        proof {
            assert(self.amounts@.subrange(0, n as int) =~= self.amounts@);
        }
        out
    }
}

impl PartialEq for Amounts {
    fn eq(&self, other: &Amounts) -> (r: bool) {
        proof {
            use_type_invariant(&*self);
            use_type_invariant(&*other);
        }
        let fwd = Self::included_in(&self.amounts, other);
        let bwd = Self::included_in(&other.amounts, self);
        let r = fwd && bwd;
        proof {
            if r {
                assert forall|k: Seq<char>| #[trigger]
                    self.as_map().contains_key(k) implies other.as_map().contains_key(k)
                    && other.as_map()[k] == self.as_map()[k] by {
                    if forall|i: int|
                        0 <= i < self.amounts@.len() ==> (#[trigger] self.amounts@[i]).currency@
                            != k {
                        lemma_amounts_map_absent(self.amounts@, k);
                    } else {
                        let i = choose|i: int|
                            0 <= i < self.amounts@.len() && (#[trigger] self.amounts@[i]).currency@
                                == k;
                        lemma_amounts_map_entry(self.amounts@, i);
                    }
                }
                assert forall|k: Seq<char>| #[trigger]
                    other.as_map().contains_key(k) implies self.as_map().contains_key(k) by {
                    if forall|i: int|
                        0 <= i < other.amounts@.len() ==> (#[trigger] other.amounts@[i]).currency@
                            != k {
                        lemma_amounts_map_absent(other.amounts@, k);
                    } else {
                        let i = choose|i: int|
                            0 <= i < other.amounts@.len() && (
                            #[trigger] other.amounts@[i]).currency@ == k;
                        lemma_amounts_map_entry(other.amounts@, i);
                    }
                }
                assert(self.as_map() =~= other.as_map());
            } else {
                if self.as_map() == other.as_map() {
                    assert forall|i: int| 0 <= i < self.amounts@.len() implies self.as_map()
                        .contains_key((#[trigger] self.amounts@[i]).currency@) && self.as_map()[
                        self.amounts@[i].currency@] == self.amounts@[i].num@ by {
                        lemma_amounts_map_entry(self.amounts@, i);
                    }
                    assert forall|i: int| 0 <= i < other.amounts@.len() implies other.as_map()
                        .contains_key((#[trigger] other.amounts@[i]).currency@) && other.as_map()[
                        other.amounts@[i].currency@] == other.amounts@[i].num@ by {
                        lemma_amounts_map_entry(other.amounts@, i);
                    }
                    assert(spec_included(self.amounts@, other.as_map()));
                    assert(spec_included(other.amounts@, self.as_map()));
                    assert(false);
                }
            }
        }
        r
    }
}

impl vstd::std_specs::cmp::PartialEqSpecImpl for Amounts {
    open spec fn obeys_eq_spec() -> bool {
        true
    }

    open spec fn eq_spec(&self, other: &Amounts) -> bool {
        self.as_map() == other.as_map()
    }
}

impl Amounts {
    /// Is every entry of `v` present in `m`'s map with the same value?
    fn included_in(v: &Vec<Amount>, m: &Amounts) -> (r: bool)
        ensures
            r == spec_included(v@, m.as_map()),
    {
        let n = v.len();
        let mut i: usize = 0;
        while i < n
            invariant
                i <= n,
                n == v@.len(),
                forall|p: int|
                    0 <= p < i ==> m.as_map().contains_key((#[trigger] v@[p]).currency@)
                        && m.as_map()[v@[p].currency@] == v@[p].num@,
            decreases n - i,
        {
            let held = m.for_currency(&v[i].currency);
            let matched = if m.contains_currency(&v[i].currency) {
                held.num.eq_value(&v[i].num)
            } else {
                false
            };
            if !matched {
                return false;
            }
            i = i + 1;
        }
        true
    }

    /// Does the bag hold an entry for `currency`?
    pub fn contains_currency(&self, currency: &Currency) -> (r: bool)
        ensures
            r == self.as_map().contains_key(currency@),
    {
        proof {
            use_type_invariant(&*self);
        }
        match Self::find_currency(&self.amounts, currency) {
            Some(i) => {
                proof {
                    lemma_amounts_map_entry(self.amounts@, i as int);
                }
                true
            },
            None => {
                proof {
                    lemma_amounts_map_absent(self.amounts@, currency@);
                }
                false
            },
        }
    }
}

impl Default for Amounts {
    /// The empty bag.
    fn default() -> (r: Amounts)
        ensures
            r.as_map() == Map::<Seq<char>, int>::empty(),
            r.entries().len() == 0,
    {
        Amounts { amounts: Vec::new() }
    }
}

/// Every token produced by the splitter is nonempty.
proof fn lemma_tokens_from_nonempty(s: Seq<char>, i: int, cur: Seq<char>)
    requires
        0 <= i <= s.len(),
    ensures
        forall|t: int|
            0 <= t < spec_tokens_from(s, i, cur).len() ==> (#[trigger] spec_tokens_from(
                s,
                i,
                cur,
            )[t]).len() > 0,
    decreases s.len() - i,
{
    let r = spec_tokens_from(s, i, cur);
    if i >= s.len() {
    } else if is_space(s[i]) {
        lemma_tokens_from_nonempty(s, i + 1, Seq::empty());
        let rest = spec_tokens_from(s, i + 1, Seq::empty());
        if cur.len() > 0 {
            assert forall|t: int| 0 <= t < r.len() implies (#[trigger] r[t]).len() > 0 by {
                if t > 0 {
                    assert(r[t] == rest[t - 1]);
                }
            }
        }
    } else {
        lemma_tokens_from_nonempty(s, i + 1, cur.push(s[i]));
        assert(r =~= spec_tokens_from(s, i + 1, cur.push(s[i])));
    }
}

/// Round trip: parsing a well-formed amount string `"<num> <code>"` and
/// displaying the result yields exactly the number formatted to two decimal
/// places, one space, and the currency code.  This is the display produced by
/// `Amount::display_string` after `Amount::parse`, by their contracts.
pub proof fn lemma_amount_round_trip(s: Seq<char>)
    requires
        is_amount_string(s),
    ensures
        spec_amount_display(amount_string_val(s), amount_string_cur(s)) == spec_format2(
            amount_string_val(s),
        ) + seq![' '] + amount_string_cur(s),
{
    lemma_tokens_from_nonempty(s, 0, Seq::empty());
    assert(amount_string_cur(s).len() > 0);
}

/// A held position derived from the event stream.
#[derive(Debug, Clone, PartialEq)]
pub struct Asset {
    /// The identifier of the asset.
    pub identifier: StockIdentifier,
    /// The number of shares held; fractional holdings are allowed.
    pub amount: Decimal,
    /// Total dividends paid out for the asset.
    pub dividends: Amount,
    /// Total value at the last observed price; `None` before any observation.
    pub value: Option<Amount>,
}

impl Asset {
    /// A copy of this asset, equal to the original.
    pub fn duplicate(&self) -> (r: Asset)
        ensures
            r == *self,
    {
        Asset {
            identifier: StockIdentifier { ticker: self.identifier.ticker.clone() },
            amount: self.amount,
            dividends: self.dividends.duplicate(),
            value: match &self.value {
                Some(v) => Some(v.duplicate()),
                None => None,
            },
        }
    }

    /// An empty position for `identifier`: no shares, no dividends, no value.
    pub fn zero(identifier: &StockIdentifier) -> (r: Asset)
        ensures
            r.identifier@ == identifier@,
            r.amount@ == 0,
            r.dividends.num@ == 0,
            r.dividends.currency@ == "USD"@,
            r.value is None,
    {
        Asset {
            identifier: StockIdentifier { ticker: identifier.ticker.clone() },
            amount: Decimal::zero(),
            dividends: Amount::zero(Currency::default()),
            value: None,
        }
    }
}

} // verus!
