//! The wire format for persisted events.
//!
//! Each event serializes to a self-describing text record: the variant name
//! and a semicolon, then fixed-width decimal fields (the creation-time key,
//! the amounts in stored units) and length-prefixed strings.  The format is
//! canonical: `lemma_encode_model_injective` shows that equal encodings come
//! from equal event models, so a stored record denotes one event.

use vstd::prelude::*;
use crate::decimal::Decimal;
use crate::decimal::all_dec_digits;
use crate::decimal::dec_digit_char;
use crate::decimal::dec_digit_val;
use crate::decimal::digits_val;
use crate::decimal::is_dec_digit;
use crate::decimal::lemma_digits_val_bound;
use crate::decimal::pow10;
use crate::events::Event;
use crate::events::EventModel;
use crate::value_objects::Amount;
use crate::value_objects::Currency;
use crate::value_objects::StockIdentifier;
use crate::events::PriceObtained;
use crate::events::DividendPaid;
use crate::events::StocksBought;
use crate::events::Timestamp;
use crate::events::event_model;

verus! {

/// The base-ten numeral of `n mod 10^w`, zero-padded to exactly `w` digits.
pub open spec fn pad_digits(n: nat, w: nat) -> Seq<char>
    decreases w,
{
    if w == 0 {
        Seq::empty()
    } else {
        pad_digits(n / 10, (w - 1) as nat).push(dec_digit_char((n % 10) as int))
    }
}

/// A padded numeral has its width, holds digits, and denotes its number.
pub proof fn lemma_pad_digits_props(n: nat, w: nat)
    ensures
        pad_digits(n, w).len() == w,
        all_dec_digits(pad_digits(n, w)),
        n < pow10(w) ==> digits_val(pad_digits(n, w)) == n,
    decreases w,
{
    if w > 0 {
        lemma_pad_digits_props(n / 10, (w - 1) as nat);
        let s = pad_digits(n, w);
        let p = pad_digits(n / 10, (w - 1) as nat);
        let c = dec_digit_char((n % 10) as int);
        assert(s.drop_last() =~= p);
        assert(s.last() == c);
        assert(is_dec_digit(c));
        assert(forall|i: int| 0 <= i < s.len() ==> is_dec_digit(#[trigger] s[i]));
        if n < pow10(w) {
            assert(n / 10 < pow10((w - 1) as nat)) by {
                assert(pow10(w) == 10 * pow10((w - 1) as nat));
            }
            assert(digits_val(s) == 10 * digits_val(p) + dec_digit_val(c));
        }
    }
}

/// A digit string re-pads to itself.
pub proof fn lemma_pad_digits_id(t: Seq<char>)
    requires
        all_dec_digits(t),
    ensures
        pad_digits(digits_val(t) as nat, t.len()) == t,
    decreases t.len(),
{
    lemma_digits_val_bound(t);
    if t.len() > 0 {
        assert(all_dec_digits(t.drop_last()));
        lemma_pad_digits_id(t.drop_last());
        lemma_digits_val_bound(t.drop_last());
        let v = digits_val(t) as nat;
        let d = dec_digit_val(t.last());
        assert(digits_val(t) == 10 * digits_val(t.drop_last()) + d);
        assert(0 <= d <= 9);
        assert(v / 10 == digits_val(t.drop_last()) && v % 10 == d) by (nonlinear_arith)
            requires
                v == 10 * digits_val(t.drop_last()) + d,
                0 <= d <= 9,
                digits_val(t.drop_last()) >= 0,
        ;
        assert(dec_digit_char(d) == t.last());
        assert(pad_digits(v, t.len()) =~= t);
    }
}

/// A creation-time key encoded to twenty digits.
pub open spec fn enc_key(t: Timestamp) -> Seq<char> {
    pad_digits(t.key() as nat, 20)
}

/// A signed unit count: an explicit sign, then thirty-nine digits.
pub open spec fn enc_units(v: int) -> Seq<char> {
    (if v < 0 {
        seq!['-']
    } else {
        seq!['+']
    }) + pad_digits(
        (if v < 0 {
            -v
        } else {
            v
        }) as nat,
        39,
    )
}

/// A string field: its length to twenty digits, then the characters.
pub open spec fn enc_str(t: Seq<char>) -> Seq<char> {
    pad_digits(t.len(), 20) + t
}

/// The serialized form of an event model.
pub open spec fn encode_model(m: EventModel) -> Seq<char> {
    match m {
        EventModel::StocksBought { created_at, amount, price_num, price_cur, identifier } => {
            "StocksBought;"@ + enc_key(created_at) + enc_units(amount) + enc_units(price_num)
                + enc_str(price_cur) + enc_str(identifier)
        },
        EventModel::PriceObtained { created_at, price_num, price_cur, identifier } => {
            "PriceObtained;"@ + enc_key(created_at) + enc_units(price_num) + enc_str(price_cur)
                + enc_str(identifier)
        },
        EventModel::DividendPaid { created_at, price_num, price_cur, identifier } => {
            "DividendPaid;"@ + enc_key(created_at) + enc_units(price_num) + enc_str(price_cur)
                + enc_str(identifier)
        },
    }
}

/// Do the model's numbers fit the machine integers backing `Decimal`, and
/// its string lengths the twenty-digit length field?  Every model of an
/// executable event does.
pub open spec fn model_bounded(m: EventModel) -> bool {
    match m {
        EventModel::StocksBought { created_at, amount, price_num, price_cur, identifier } => {
            &&& i128::MIN <= amount <= i128::MAX
            &&& i128::MIN <= price_num <= i128::MAX
            &&& price_cur.len() < pow10(20)
            &&& identifier.len() < pow10(20)
        },
        EventModel::PriceObtained { created_at, price_num, price_cur, identifier } => {
            &&& i128::MIN <= price_num <= i128::MAX
            &&& price_cur.len() < pow10(20)
            &&& identifier.len() < pow10(20)
        },
        EventModel::DividendPaid { created_at, price_num, price_cur, identifier } => {
            &&& i128::MIN <= price_num <= i128::MAX
            &&& price_cur.len() < pow10(20)
            &&& identifier.len() < pow10(20)
        },
    }
}

/// Concrete powers of ten bounding the encoding's fields.
proof fn lemma_codec_pows()
    ensures
        pow10(20) == 100_000_000_000_000_000_000,
        pow10(39) == 1_000_000_000_000_000_000_000_000_000_000_000_000_000,
{
    assert(pow10(20) == 100_000_000_000_000_000_000 && pow10(39)
        == 1_000_000_000_000_000_000_000_000_000_000_000_000_000) by {
        reveal_with_fuel(pow10, 40);
    }
}

/// A timestamp's ordering key fits the twenty-digit field.
proof fn lemma_key_bounded(t: Timestamp)
    ensures
        0 <= t.key() < pow10(20),
{
    lemma_codec_pows();
}

/// Timestamps with equal ordering keys are equal.
#[verifier::rlimit(60)]
proof fn lemma_key_injective(t1: Timestamp, t2: Timestamp)
    requires
        t1.key() == t2.key(),
    ensures
        t1 == t2,
{
    let k = t1.key();
    assert(t1.second == k % 256 && t2.second == k % 256);
    let k1 = k / 256;
    assert(t1.minute == k1 % 256 && t2.minute == k1 % 256);
    let k2 = k1 / 256;
    assert(t1.hour == k2 % 256 && t2.hour == k2 % 256);
    let k3 = k2 / 256;
    assert(t1.day == k3 % 256 && t2.day == k3 % 256);
    let k4 = k3 / 256;
    assert(t1.month == k4 % 256 && t2.month == k4 % 256);
    assert(t1.year == k4 / 256 && t2.year == k4 / 256);
}

/// Equal unit encodings of bounded values come from equal values.
proof fn lemma_enc_units_injective(v1: int, v2: int)
    requires
        -pow10(39) < v1 < pow10(39),
        -pow10(39) < v2 < pow10(39),
        enc_units(v1) == enc_units(v2),
    ensures
        v1 == v2,
{
    let m1: nat = if v1 < 0 {
        (-v1) as nat
    } else {
        v1 as nat
    };
    let m2: nat = if v2 < 0 {
        (-v2) as nat
    } else {
        v2 as nat
    };
    lemma_pad_digits_props(m1, 39);
    lemma_pad_digits_props(m2, 39);
    assert(enc_units(v1)[0] == if v1 < 0 {
        '-'
    } else {
        '+'
    });
    assert(enc_units(v2)[0] == if v2 < 0 {
        '-'
    } else {
        '+'
    });
    assert(pad_digits(m1, 39) =~= enc_units(v1).subrange(1, 40));
    assert(pad_digits(m2, 39) =~= enc_units(v2).subrange(1, 40));
    assert(digits_val(pad_digits(m1, 39)) == digits_val(pad_digits(m2, 39)));
    assert(m1 == m2);
    assert(('-' as int) != ('+' as int));
}

/// Equal string-field encodings come from equal strings.
proof fn lemma_enc_str_injective(t1: Seq<char>, t2: Seq<char>)
    requires
        t1.len() < pow10(20),
        t2.len() < pow10(20),
        enc_str(t1) == enc_str(t2),
    ensures
        t1 == t2,
{
    lemma_pad_digits_props(t1.len(), 20);
    lemma_pad_digits_props(t2.len(), 20);
    assert(pad_digits(t1.len(), 20) =~= enc_str(t1).subrange(0, 20));
    assert(pad_digits(t2.len(), 20) =~= enc_str(t2).subrange(0, 20));
    assert(t1.len() == t2.len());
    assert(t1 =~= enc_str(t1).subrange(20, enc_str(t1).len() as int));
    assert(t2 =~= enc_str(t2).subrange(20, enc_str(t2).len() as int));
}

/// A record's tail after the fixed-width fields, for one trailing string
/// field pair.
proof fn lemma_split_two_strs(c1: Seq<char>, i1: Seq<char>, c2: Seq<char>, i2: Seq<char>)
    requires
        c1.len() < pow10(20),
        c2.len() < pow10(20),
        i1.len() < pow10(20),
        i2.len() < pow10(20),
        enc_str(c1) + enc_str(i1) == enc_str(c2) + enc_str(i2),
    ensures
        c1 == c2,
        i1 == i2,
{
    lemma_pad_digits_props(c1.len(), 20);
    lemma_pad_digits_props(c2.len(), 20);
    let w = enc_str(c1) + enc_str(i1);
    assert(pad_digits(c1.len(), 20) =~= w.subrange(0, 20));
    assert(pad_digits(c2.len(), 20) =~= w.subrange(0, 20));
    assert(c1.len() == c2.len());
    assert(enc_str(c1) =~= w.subrange(0, enc_str(c1).len() as int));
    assert(enc_str(c2) =~= w.subrange(0, enc_str(c2).len() as int));
    lemma_enc_str_injective(c1, c2);
    assert(enc_str(i1) =~= w.subrange(enc_str(c1).len() as int, w.len() as int));
    assert(enc_str(i2) =~= w.subrange(enc_str(c2).len() as int, w.len() as int));
    lemma_enc_str_injective(i1, i2);
}

/// A unit encoding is one sign and thirty-nine digits long.
proof fn lemma_enc_units_len(v: int)
    ensures
        enc_units(v).len() == 40,
{
    lemma_pad_digits_props(
        (if v < 0 {
            -v
        } else {
            v
        }) as nat,
        39,
    );
}

/// A string-field encoding is twenty digits plus the string long.
proof fn lemma_enc_str_len(t: Seq<char>)
    ensures
        enc_str(t).len() == 20 + t.len(),
{
    lemma_pad_digits_props(t.len(), 20);
}

/// Equal encodings of bounded models come from equal models: the wire
/// format is canonical.
pub proof fn lemma_encode_model_injective(m1: EventModel, m2: EventModel)
    requires
        model_bounded(m1),
        model_bounded(m2),
        encode_model(m1) == encode_model(m2),
    ensures
        m1 == m2,
{
    reveal_strlit("StocksBought;");
    reveal_strlit("PriceObtained;");
    reveal_strlit("DividendPaid;");
    lemma_codec_pows();
    let e = encode_model(m1);
    match m1 {
        EventModel::StocksBought {
            created_at: t1,
            amount: a1,
            price_num: p1,
            price_cur: c1,
            identifier: i1,
        } => {
            assert(e[0] == 'S');
            match m2 {
                EventModel::StocksBought {
                    created_at: t2,
                    amount: a2,
                    price_num: p2,
                    price_cur: c2,
                    identifier: i2,
                } => {
                    lemma_key_bounded(t1);
                    lemma_key_bounded(t2);
                    lemma_pad_digits_props(t1.key() as nat, 20);
                    lemma_pad_digits_props(t2.key() as nat, 20);
                    lemma_enc_units_len(a1);
                    lemma_enc_units_len(a2);
                    lemma_enc_units_len(p1);
                    lemma_enc_units_len(p2);
                    lemma_enc_str_len(c1);
                    lemma_enc_str_len(c2);
                    lemma_enc_str_len(i1);
                    lemma_enc_str_len(i2);
                    assert(enc_key(t1) =~= e.subrange(13, 33));
                    assert(enc_key(t2) =~= e.subrange(13, 33));
                    assert(t1.key() == t2.key());
                    lemma_key_injective(t1, t2);
                    assert(enc_units(a1) =~= e.subrange(33, 73));
                    assert(enc_units(a2) =~= e.subrange(33, 73));
                    lemma_enc_units_injective(a1, a2);
                    assert(enc_units(p1) =~= e.subrange(73, 113));
                    assert(enc_units(p2) =~= e.subrange(73, 113));
                    lemma_enc_units_injective(p1, p2);
                    assert(enc_str(c1) + enc_str(i1) =~= e.subrange(113, e.len() as int));
                    assert(enc_str(c2) + enc_str(i2) =~= e.subrange(113, e.len() as int));
                    lemma_split_two_strs(c1, i1, c2, i2);
                },
                EventModel::PriceObtained { .. } => {
                    assert(encode_model(m2)[0] == 'P');
                },
                EventModel::DividendPaid { .. } => {
                    assert(encode_model(m2)[0] == 'D');
                },
            }
        },
        EventModel::PriceObtained {
            created_at: t1,
            price_num: p1,
            price_cur: c1,
            identifier: i1,
        } => {
            assert(e[0] == 'P');
            match m2 {
                EventModel::PriceObtained {
                    created_at: t2,
                    price_num: p2,
                    price_cur: c2,
                    identifier: i2,
                } => {
                    lemma_key_bounded(t1);
                    lemma_key_bounded(t2);
                    lemma_pad_digits_props(t1.key() as nat, 20);
                    lemma_pad_digits_props(t2.key() as nat, 20);
                    lemma_enc_units_len(p1);
                    lemma_enc_units_len(p2);
                    lemma_enc_str_len(c1);
                    lemma_enc_str_len(c2);
                    lemma_enc_str_len(i1);
                    lemma_enc_str_len(i2);
                    assert(enc_key(t1) =~= e.subrange(14, 34));
                    assert(enc_key(t2) =~= e.subrange(14, 34));
                    assert(t1.key() == t2.key());
                    lemma_key_injective(t1, t2);
                    assert(enc_units(p1) =~= e.subrange(34, 74));
                    assert(enc_units(p2) =~= e.subrange(34, 74));
                    lemma_enc_units_injective(p1, p2);
                    assert(enc_str(c1) + enc_str(i1) =~= e.subrange(74, e.len() as int));
                    assert(enc_str(c2) + enc_str(i2) =~= e.subrange(74, e.len() as int));
                    lemma_split_two_strs(c1, i1, c2, i2);
                },
                EventModel::StocksBought { .. } => {
                    assert(encode_model(m2)[0] == 'S');
                },
                EventModel::DividendPaid { .. } => {
                    assert(encode_model(m2)[0] == 'D');
                },
            }
        },
        EventModel::DividendPaid {
            created_at: t1,
            price_num: p1,
            price_cur: c1,
            identifier: i1,
        } => {
            assert(e[0] == 'D');
            match m2 {
                EventModel::DividendPaid {
                    created_at: t2,
                    price_num: p2,
                    price_cur: c2,
                    identifier: i2,
                } => {
                    lemma_key_bounded(t1);
                    lemma_key_bounded(t2);
                    lemma_pad_digits_props(t1.key() as nat, 20);
                    lemma_pad_digits_props(t2.key() as nat, 20);
                    lemma_enc_units_len(p1);
                    lemma_enc_units_len(p2);
                    lemma_enc_str_len(c1);
                    lemma_enc_str_len(c2);
                    lemma_enc_str_len(i1);
                    lemma_enc_str_len(i2);
                    assert(enc_key(t1) =~= e.subrange(13, 33));
                    assert(enc_key(t2) =~= e.subrange(13, 33));
                    assert(t1.key() == t2.key());
                    lemma_key_injective(t1, t2);
                    assert(enc_units(p1) =~= e.subrange(33, 73));
                    assert(enc_units(p2) =~= e.subrange(33, 73));
                    lemma_enc_units_injective(p1, p2);
                    assert(enc_str(c1) + enc_str(i1) =~= e.subrange(73, e.len() as int));
                    assert(enc_str(c2) + enc_str(i2) =~= e.subrange(73, e.len() as int));
                    lemma_split_two_strs(c1, i1, c2, i2);
                },
                EventModel::StocksBought { .. } => {
                    assert(encode_model(m2)[0] == 'S');
                },
                EventModel::PriceObtained { .. } => {
                    assert(encode_model(m2)[0] == 'P');
                },
            }
        },
    }
}

/// `i128::MAX` as an unsigned quantity.
const I128_MAX_U128: u128 = 170_141_183_460_469_231_731_687_303_715_884_105_727;

/// The base-ten numeral of `n`, zero-padded to exactly `w` digits.
fn pad_u128(n: u128, w: usize) -> (r: String)
    ensures
        r@ == pad_digits(n as nat, w as nat),
    decreases w,
{
    if w == 0 {
        let r = String::new();
        proof {
            assert(r@ =~= pad_digits(n as nat, 0));
        }
        r
    } else {
        let mut r = pad_u128(n / 10, w - 1);
        r.append(crate::decimal::digit_str((n % 10) as u8));
        proof {
            assert(r@ =~= pad_digits(n as nat, w as nat));
        }
        r
    }
}

/// Append the twenty-digit creation-time key.
fn append_key(out: &mut String, t: &Timestamp)
    ensures
        final(out)@ == old(out)@ + enc_key(*t),
{
    let k = t.key_u64();
    let p = pad_u128(k as u128, 20);
    out.append(p.as_str());
}

/// Append a signed unit count: its sign, then thirty-nine digits.
fn append_units(out: &mut String, v: i128)
    ensures
        final(out)@ == old(out)@ + enc_units(v as int),
{
    proof {
        reveal_strlit("-");
        reveal_strlit("+");
    }
    let m: u128 = if v >= 0 {
        out.append("+");
        v as u128
    } else {
        out.append("-");
        ((-1 - v) as u128) + 1
    };
    let p = pad_u128(m, 39);
    out.append(p.as_str());
    proof {
        assert(final(out)@ =~= old(out)@ + enc_units(v as int));
    }
}

/// Append a length-prefixed string field.  The call also witnesses that
/// the string's length fits the twenty-digit field.
fn append_str_field(out: &mut String, t: &str)
    ensures
        final(out)@ == old(out)@ + enc_str(t@),
        t@.len() < pow10(20),
{
    proof {
        lemma_codec_pows();
    }
    let l = t.unicode_len();
    let p = pad_u128(l as u128, 20);
    out.append(p.as_str());
    out.append(t);
    proof {
        assert(final(out)@ =~= old(out)@ + enc_str(t@));
    }
}

/// Serialize an event to its wire record.  Every executable event's model
/// fits the record's fields.
pub fn encode_event(e: &Event) -> (r: String)
    ensures
        r@ == encode_model(event_model(*e)),
        model_bounded(event_model(*e)),
{
    proof {
        lemma_codec_pows();
    }
    match e {
        Event::StocksBought(b) => {
            let mut out = String::from_str("StocksBought;");
            append_key(&mut out, &b.created_at);
            append_units(&mut out, b.amount.to_units());
            append_units(&mut out, b.price.num.to_units());
            append_str_field(&mut out, b.price.currency.0.as_str());
            append_str_field(&mut out, b.identifier.ticker.as_str());
            proof {
                assert(out@ =~= encode_model(event_model(*e)));
            }
            out
        },
        Event::PriceObtained(p) => {
            let mut out = String::from_str("PriceObtained;");
            append_key(&mut out, &p.created_at);
            append_units(&mut out, p.price.num.to_units());
            append_str_field(&mut out, p.price.currency.0.as_str());
            append_str_field(&mut out, p.identifier.ticker.as_str());
            proof {
                assert(out@ =~= encode_model(event_model(*e)));
            }
            out
        },
        Event::DividendPaid(d) => {
            let mut out = String::from_str("DividendPaid;");
            append_key(&mut out, &d.created_at);
            append_units(&mut out, d.price.num.to_units());
            append_str_field(&mut out, d.price.currency.0.as_str());
            append_str_field(&mut out, d.identifier.ticker.as_str());
            proof {
                assert(out@ =~= encode_model(event_model(*e)));
            }
            out
        },
    }
}
/// Value of the `w` digit characters at `i`.  `None` exactly on a range out
/// of bounds, a non-digit, or a value too large for the machine.
fn read_digits(s: &str, i: usize, w: usize, n: usize) -> (r: Option<u128>)
    requires
        n == s@.len(),
    ensures
        r matches Some(v) ==> i + w <= n && all_dec_digits(
            s@.subrange(i as int, i as int + w as int),
        ) && v as int == digits_val(s@.subrange(i as int, i as int + w as int)),
        r is None ==> i + w > n || !all_dec_digits(s@.subrange(i as int, i as int + w as int))
            || digits_val(s@.subrange(i as int, i as int + w as int)) > u128::MAX as int,
{
    if i > n || w > n - i {
        return None;
    }
    let ghost chunk = s@.subrange(i as int, i as int + w as int);
    let mut acc: u128 = 0;
    let mut j = i;
    proof {
        assert(s@.subrange(i as int, i as int) =~= Seq::<char>::empty());
    }
    while j < i + w
        invariant
            i <= j <= i + w <= n,
            n == s@.len(),
            chunk == s@.subrange(i as int, i as int + w as int),
            forall|p: int| i <= p < j ==> is_dec_digit(#[trigger] s@[p]),
            acc as int == digits_val(s@.subrange(i as int, j as int)),
        decreases i + w - j,
    {
        let c = s.get_char(j);
        let u = c as u32;
        if !(48 <= u && u <= 57) {
            proof {
                assert(chunk[j - i] == s@[j as int]);
                assert(!all_dec_digits(chunk));
            }
            return None;
        }
        let d = (u - 48) as u128;
        proof {
            crate::decimal::lemma_digits_val_step(s@, i as int, j as int);
        }
        let next = match acc.checked_mul(10) {
            Some(t) => t.checked_add(d),
            None => None,
        };
        let next = match next {
            Some(t) => t,
            None => {
                proof {
                    if all_dec_digits(chunk) {
                        assert forall|p: int| i <= p < i + w implies is_dec_digit(
                            #[trigger] s@[p],
                        ) by {
                            assert(chunk[p - i] == s@[p]);
                            assert(is_dec_digit(chunk[p - i]));
                        }
                        crate::decimal::lemma_digits_val_prefix_le(
                            s@,
                            i as int,
                            j as int + 1,
                            i as int + w as int,
                        );
                    }
                }
                return None;
            },
        };
        acc = next;
        j = j + 1;
    }
    Some(acc)
}

/// Does `s` start with `tag`?
fn has_prefix(s: &str, tag: &str, n: usize) -> (r: bool)
    requires
        n == s@.len(),
    ensures
        r <==> (tag@.len() <= n && s@.subrange(0, tag@.len() as int) == tag@),
{
    let tn = tag.unicode_len();
    if tn > n {
        return false;
    }
    let mut i: usize = 0;
    while i < tn
        invariant
            i <= tn <= n,
            n == s@.len(),
            tn == tag@.len(),
            forall|p: int| 0 <= p < i ==> s@[p] == tag@[p],
        decreases tn - i,
    {
        if s.get_char(i) != tag.get_char(i) {
            proof {
                assert(s@.subrange(0, tn as int)[i as int] == s@[i as int]);
            }
            return false;
        }
        i = i + 1;
    }
    proof {
        assert(s@.subrange(0, tn as int) =~= tag@);
    }
    true
}

/// Read the creation-time key and rebuild its timestamp.  `None` only when
/// no timestamp's key is encoded here.
fn read_key(s: &str, i: usize, n: usize) -> (r: Option<(Timestamp, usize)>)
    requires
        n == s@.len(),
        i <= n,
    ensures
        r matches Some((t, j)) ==> j == i + 20 && j <= n && s@.subrange(i as int, j as int)
            == enc_key(t),
        r is None ==> !(exists|t: Timestamp|
            i + 20 <= n && s@.subrange(i as int, i as int + 20) == enc_key(t)),
{
    let ghost chunk = s@.subrange(i as int, i as int + 20);
    let v = match read_digits(s, i, 20, n) {
        Some(v) => v,
        None => {
            proof {
                if exists|t: Timestamp| i + 20 <= n && s@.subrange(i as int, i as int + 20)
                    == enc_key(t) {
                    let t = choose|t: Timestamp|
                        i + 20 <= n && s@.subrange(i as int, i as int + 20) == enc_key(t);
                    lemma_codec_pows();
                    lemma_key_bounded(t);
                    lemma_pad_digits_props(t.key() as nat, 20);
                }
            }
            return None;
        },
    };
    // the year must fit u16: a key stays below 65536 * 256^5
    if v >= 72_057_594_037_927_936 {
        proof {
            if exists|t: Timestamp| i + 20 <= n && s@.subrange(i as int, i as int + 20)
                == enc_key(t) {
                let t = choose|t: Timestamp|
                    i + 20 <= n && s@.subrange(i as int, i as int + 20) == enc_key(t);
                lemma_key_bounded(t);
                lemma_pad_digits_props(t.key() as nat, 20);
            }
        }
        return None;
    }
    let k = v as u64;
    let second = (k % 256) as u8;
    let k1 = k / 256;
    let minute = (k1 % 256) as u8;
    let k2 = k1 / 256;
    let hour = (k2 % 256) as u8;
    let k3 = k2 / 256;
    let day = (k3 % 256) as u8;
    let k4 = k3 / 256;
    let month = (k4 % 256) as u8;
    let year = (k4 / 256) as u16;
    let t = Timestamp { year, month, day, hour, minute, second };
    proof {
        assert(t.key() == v as int);
        lemma_pad_digits_id(chunk);
        assert(s@.subrange(i as int, i as int + 20) == enc_key(t));
    }
    Some((t, i + 20))
}

/// Read a signed unit count.  `None` only when no representable value is
/// encoded here.
fn read_units(s: &str, i: usize, n: usize) -> (r: Option<(i128, usize)>)
    requires
        n == s@.len(),
        i <= n,
    ensures
        r matches Some((v, j)) ==> j == i + 40 && j <= n && s@.subrange(i as int, j as int)
            == enc_units(v as int),
        r is None ==> !(exists|v: i128|
            i + 40 <= n && s@.subrange(i as int, i as int + 40) == enc_units(v as int)),
{
    proof {
        reveal_strlit("-");
        reveal_strlit("+");
    }
    if i == n {
        return None;
    }
    let c = s.get_char(i);
    let is_neg = c == '-';
    let is_pos = c == '+';
    if !is_neg && !is_pos {
        proof {
            if exists|v: i128| i + 40 <= n && s@.subrange(i as int, i as int + 40) == enc_units(
                v as int,
            ) {
                let v = choose|v: i128|
                    i + 40 <= n && s@.subrange(i as int, i as int + 40) == enc_units(v as int);
                lemma_enc_units_len(v as int);
                assert(s@.subrange(i as int, i as int + 40)[0] == s@[i as int]);
            }
        }
        return None;
    }
    let neg = is_neg;
    let ghost magchunk = s@.subrange(i as int + 1, i as int + 40);
    let mag = match read_digits(s, i + 1, 39, n) {
        Some(v) => v,
        None => {
            proof {
                if exists|v: i128| i + 40 <= n && s@.subrange(i as int, i as int + 40)
                    == enc_units(v as int) {
                    let v = choose|v: i128|
                        i + 40 <= n && s@.subrange(i as int, i as int + 40) == enc_units(
                            v as int,
                        );
                    let mv: nat = (if v < 0 {
                        -(v as int)
                    } else {
                        v as int
                    }) as nat;
                    lemma_codec_pows();
                    lemma_pad_digits_props(mv, 39);
                    assert(magchunk =~= enc_units(v as int).subrange(1, 40));
                    assert(enc_units(v as int).subrange(1, 40) =~= pad_digits(mv, 39));
                }
            }
            return None;
        },
    };
    let bad = if neg {
        mag == 0 || mag > I128_MAX_U128 + 1
    } else {
        mag > I128_MAX_U128
    };
    if bad {
        proof {
            if exists|v: i128| i + 40 <= n && s@.subrange(i as int, i as int + 40) == enc_units(
                v as int,
            ) {
                let v = choose|v: i128|
                    i + 40 <= n && s@.subrange(i as int, i as int + 40) == enc_units(v as int);
                let mv: nat = (if v < 0 {
                    -(v as int)
                } else {
                    v as int
                }) as nat;
                lemma_codec_pows();
                lemma_pad_digits_props(mv, 39);
                assert(s@.subrange(i as int, i as int + 40)[0] == s@[i as int]);
                assert(magchunk =~= enc_units(v as int).subrange(1, 40));
                assert(enc_units(v as int).subrange(1, 40) =~= pad_digits(mv, 39));
                assert(mag as int == mv);
            }
        }
        return None;
    }
    let v: i128 = if neg {
        if mag == I128_MAX_U128 + 1 {
            i128::MIN
        } else {
            -(mag as i128)
        }
    } else {
        mag as i128
    };
    proof {
        lemma_pad_digits_id(magchunk);
        assert(s@.subrange(i as int, i as int + 40) =~= seq![s@[i as int]] + magchunk);
        assert(s@.subrange(i as int, i as int + 40) =~= enc_units(v as int));
    }
    Some((v, i + 40))
}

/// Read a length-prefixed string field.  `None` only when no string field
/// fitting the input is encoded here.
fn read_str_field(s: &str, i: usize, n: usize) -> (r: Option<(String, usize)>)
    requires
        n == s@.len(),
        i <= n,
    ensures
        r matches Some((t, j)) ==> i + 20 <= j <= n && j == i + 20 + t@.len() && s@.subrange(
            i as int,
            j as int,
        ) == enc_str(t@) && t@.len() < pow10(20),
        r is None ==> !(exists|t: Seq<char>|
            t.len() < pow10(20) && i + 20 + t.len() <= n && s@.subrange(
                i as int,
                i as int + 20 + t.len() as int,
            ) == enc_str(t)),
{
    let l = match read_digits(s, i, 20, n) {
        Some(v) => v,
        None => {
            proof {
                if exists|t: Seq<char>| t.len() < pow10(20) && i + 20 + t.len() <= n
                    && s@.subrange(i as int, i as int + 20 + t.len() as int) == enc_str(t) {
                    let t = choose|t: Seq<char>|
                        t.len() < pow10(20) && i + 20 + t.len() <= n && s@.subrange(
                            i as int,
                            i as int + 20 + t.len() as int,
                        ) == enc_str(t);
                    lemma_codec_pows();
                    lemma_pad_digits_props(t.len(), 20);
                    assert(s@.subrange(i as int, i as int + 20) =~= pad_digits(t.len(), 20));
                }
            }
            return None;
        },
    };
    if l > (n - (i + 20)) as u128 {
        proof {
            if exists|t: Seq<char>| t.len() < pow10(20) && i + 20 + t.len() <= n && s@.subrange(
                i as int,
                i as int + 20 + t.len() as int,
            ) == enc_str(t) {
                let t = choose|t: Seq<char>|
                    t.len() < pow10(20) && i + 20 + t.len() <= n && s@.subrange(
                        i as int,
                        i as int + 20 + t.len() as int,
                    ) == enc_str(t);
                lemma_pad_digits_props(t.len(), 20);
                assert(s@.subrange(i as int, i as int + 20) =~= pad_digits(t.len(), 20));
            }
        }
        return None;
    }
    let len = l as usize;
    let t = String::from_str(s.substring_char(i + 20, i + 20 + len));
    proof {
        lemma_digits_val_bound(s@.subrange(i as int, i as int + 20));
        lemma_pad_digits_id(s@.subrange(i as int, i as int + 20));
        assert(s@.subrange(i as int, i as int + 20 + len as int) =~= s@.subrange(
            i as int,
            i as int + 20,
        ) + s@.subrange(i as int + 20, i as int + 20 + len as int));
        assert(s@.subrange(i as int, i as int + 20 + len as int) =~= enc_str(t@));
    }
    Some((t, i + 20 + len))
}

/// Where each field of a purchase record lies in the record.
proof fn lemma_sb_decomp(s: Seq<char>, m: EventModel)
    requires
        model_bounded(m),
        encode_model(m) == s,
        m is StocksBought,
    ensures
        match m {
            EventModel::StocksBought { created_at, amount, price_num, price_cur, identifier } => {
                &&& s.len() == 153 + price_cur.len() + identifier.len()
                &&& s.subrange(0, 13) == "StocksBought;"@
                &&& s.subrange(13, 33) == enc_key(created_at)
                &&& s.subrange(33, 73) == enc_units(amount)
                &&& s.subrange(73, 113) == enc_units(price_num)
                &&& s.subrange(113, 133 + price_cur.len() as int) == enc_str(price_cur)
                &&& s.subrange(133 + price_cur.len() as int, s.len() as int) == enc_str(identifier)
            },
            _ => true,
        },
{
    reveal_strlit("StocksBought;");
    match m {
        EventModel::StocksBought { created_at, amount, price_num, price_cur, identifier } => {
            lemma_key_bounded(created_at);
            lemma_pad_digits_props(created_at.key() as nat, 20);
            lemma_enc_units_len(amount);
            lemma_enc_units_len(price_num);
            lemma_enc_str_len(price_cur);
            lemma_enc_str_len(identifier);
            assert(s.subrange(0, 13) =~= "StocksBought;"@);
            assert(s.subrange(13, 33) =~= enc_key(created_at));
            assert(s.subrange(33, 73) =~= enc_units(amount));
            assert(s.subrange(73, 113) =~= enc_units(price_num));
            assert(s.subrange(113, 133 + price_cur.len() as int) =~= enc_str(price_cur));
            assert(s.subrange(133 + price_cur.len() as int, s.len() as int) =~= enc_str(identifier));
        },
        _ => {},
    }
}

/// Where each field of a price-observation record lies in the record.
proof fn lemma_po_decomp(s: Seq<char>, m: EventModel)
    requires
        model_bounded(m),
        encode_model(m) == s,
        m is PriceObtained,
    ensures
        match m {
            EventModel::PriceObtained { created_at, price_num, price_cur, identifier } => {
                &&& s.len() == 114 + price_cur.len() + identifier.len()
                &&& s.subrange(0, 14) == "PriceObtained;"@
                &&& s.subrange(14, 34) == enc_key(created_at)
                &&& s.subrange(34, 74) == enc_units(price_num)
                &&& s.subrange(74, 94 + price_cur.len() as int) == enc_str(price_cur)
                &&& s.subrange(94 + price_cur.len() as int, s.len() as int) == enc_str(identifier)
            },
            _ => true,
        },
{
    reveal_strlit("PriceObtained;");
    match m {
        EventModel::PriceObtained { created_at, price_num, price_cur, identifier } => {
            lemma_key_bounded(created_at);
            lemma_pad_digits_props(created_at.key() as nat, 20);
            lemma_enc_units_len(price_num);
            lemma_enc_str_len(price_cur);
            lemma_enc_str_len(identifier);
            assert(s.subrange(0, 14) =~= "PriceObtained;"@);
            assert(s.subrange(14, 34) =~= enc_key(created_at));
            assert(s.subrange(34, 74) =~= enc_units(price_num));
            assert(s.subrange(74, 94 + price_cur.len() as int) =~= enc_str(price_cur));
            assert(s.subrange(94 + price_cur.len() as int, s.len() as int) =~= enc_str(identifier));
        },
        _ => {},
    }
}

/// Where each field of a dividend record lies in the record.
proof fn lemma_dp_decomp(s: Seq<char>, m: EventModel)
    requires
        model_bounded(m),
        encode_model(m) == s,
        m is DividendPaid,
    ensures
        match m {
            EventModel::DividendPaid { created_at, price_num, price_cur, identifier } => {
                &&& s.len() == 113 + price_cur.len() as int + identifier.len()
                &&& s.subrange(0, 13) == "DividendPaid;"@
                &&& s.subrange(13, 33) == enc_key(created_at)
                &&& s.subrange(33, 73) == enc_units(price_num)
                &&& s.subrange(73, 93 + price_cur.len() as int) == enc_str(price_cur)
                &&& s.subrange(93 + price_cur.len() as int, s.len() as int) == enc_str(identifier)
            },
            _ => true,
        },
{
    reveal_strlit("DividendPaid;");
    match m {
        EventModel::DividendPaid { created_at, price_num, price_cur, identifier } => {
            lemma_key_bounded(created_at);
            lemma_pad_digits_props(created_at.key() as nat, 20);
            lemma_enc_units_len(price_num);
            lemma_enc_str_len(price_cur);
            lemma_enc_str_len(identifier);
            assert(s.subrange(0, 13) =~= "DividendPaid;"@);
            assert(s.subrange(13, 33) =~= enc_key(created_at));
            assert(s.subrange(33, 73) =~= enc_units(price_num));
            assert(s.subrange(73, 93 + price_cur.len() as int) =~= enc_str(price_cur));
            assert(s.subrange(93 + price_cur.len() as int, s.len() as int) =~= enc_str(identifier));
        },
        _ => {},
    }
}

/// No bounded model at all is encoded in `s`: what every early exit of the
/// purchase decoder must show, given that `s` carries the purchase tag.
spec fn no_model(s: Seq<char>) -> bool {
    !(exists|m: EventModel| model_bounded(m) && encode_model(m) == s)
}

/// Decode a record carrying the purchase tag.
#[verifier::rlimit(80)]
fn decode_stocks_bought(s: &str, n: usize) -> (r: Option<Event>)
    requires
        n == s@.len(),
        13 <= n,
        s@.subrange(0, 13) == "StocksBought;"@,
    ensures
        r matches Some(e) ==> encode_model(event_model(e)) == s@ && model_bounded(
            event_model(e),
        ),
        r is None ==> no_model(s@),
{
    proof {
        reveal_strlit("StocksBought;");
        reveal_strlit("PriceObtained;");
        reveal_strlit("DividendPaid;");
    }
    let ghost ex: bool = !no_model(s@);
    let ghost wm = if ex {
        choose|m: EventModel| model_bounded(m) && encode_model(m) == s@
    } else {
        arbitrary()
    };
    proof {
        if ex {
            match wm {
                EventModel::StocksBought { .. } => {
                    lemma_sb_decomp(s@, wm);
                },
                EventModel::PriceObtained { .. } => {
                    lemma_po_decomp(s@, wm);
                    assert(s@[0] == 'P');
                    assert(s@.subrange(0, 13)[0] == s@[0]);
                },
                EventModel::DividendPaid { .. } => {
                    lemma_dp_decomp(s@, wm);
                    assert(s@[0] == 'D');
                    assert(s@.subrange(0, 13)[0] == s@[0]);
                },
            }
            assert(wm is StocksBought);
        }
    }
    let (ts, i1) = match read_key(s, 13, n) {
        Some(r) => r,
        None => {
            proof {
                if ex {
                    assert(false);
                }
            }
            return None;
        },
    };
    let (au, i2) = match read_units(s, i1, n) {
        Some(r) => r,
        None => {
            proof {
                if ex {
                    match wm {
                        EventModel::StocksBought { amount, .. } => {
                            let va: i128 = amount as i128;
                            assert(s@.subrange(33, 73) == enc_units(va as int));
                        },
                        _ => {},
                    }
                    assert(false);
                }
            }
            return None;
        },
    };
    let (pu, i3) = match read_units(s, i2, n) {
        Some(r) => r,
        None => {
            proof {
                if ex {
                    match wm {
                        EventModel::StocksBought { price_num, .. } => {
                            let vp: i128 = price_num as i128;
                            assert(s@.subrange(73, 113) == enc_units(vp as int));
                        },
                        _ => {},
                    }
                    assert(false);
                }
            }
            return None;
        },
    };
    let (cur, i4) = match read_str_field(s, i3, n) {
        Some(r) => r,
        None => {
            proof {
                if ex {
                    match wm {
                        EventModel::StocksBought { price_cur, .. } => {
                            assert(s@.subrange(113, 133 + price_cur.len() as int) == enc_str(
                                price_cur,
                            ));
                        },
                        _ => {},
                    }
                    assert(false);
                }
            }
            return None;
        },
    };
    let (id, i5) = match read_str_field(s, i4, n) {
        Some(r) => r,
        None => {
            proof {
                if ex {
                    match wm {
                        EventModel::StocksBought { price_cur, identifier, .. } => {
                            lemma_pad_digits_props(price_cur.len(), 20);
                            lemma_pad_digits_props(cur@.len(), 20);
                            assert(s@.subrange(113, 133) =~= pad_digits(price_cur.len(), 20));
                            assert(s@.subrange(113, 133) =~= pad_digits(cur@.len(), 20));
                            assert(cur@.len() == price_cur.len());
                            assert(s@.subrange(
                                133 + price_cur.len() as int,
                                s@.len() as int,
                            ) == enc_str(identifier));
                        },
                        _ => {},
                    }
                    assert(false);
                }
            }
            return None;
        },
    };
    if i5 != n {
        proof {
            if ex {
                match wm {
                    EventModel::StocksBought { price_cur, identifier, .. } => {
                        lemma_pad_digits_props(price_cur.len(), 20);
                        lemma_pad_digits_props(cur@.len(), 20);
                        assert(s@.subrange(113, 133) =~= pad_digits(price_cur.len(), 20));
                        assert(s@.subrange(113, 133) =~= pad_digits(cur@.len(), 20));
                        assert(cur@.len() == price_cur.len());
                        lemma_pad_digits_props(identifier.len(), 20);
                        lemma_pad_digits_props(id@.len(), 20);
                        let o = 133 + price_cur.len() as int;
                        assert(s@.subrange(o, o + 20) =~= pad_digits(identifier.len(), 20));
                        assert(s@.subrange(o, o + 20) =~= pad_digits(id@.len(), 20));
                        assert(id@.len() == identifier.len());
                    },
                    _ => {},
                }
                assert(false);
            }
        }
        return None;
    }
    let e = Event::StocksBought(
        StocksBought {
            created_at: ts,
            amount: Decimal::from_units(au),
            price: Amount { num: Decimal::from_units(pu), currency: Currency(cur) },
            identifier: StockIdentifier { ticker: id },
        },
    );
    proof {
        lemma_codec_pows();
        assert(encode_model(event_model(e)) =~= s@);
    }
    Some(e)
}

/// Decode a record carrying the price-observation tag.
#[verifier::rlimit(80)]
fn decode_price_obtained(s: &str, n: usize) -> (r: Option<Event>)
    requires
        n == s@.len(),
        14 <= n,
        s@.subrange(0, 14) == "PriceObtained;"@,
    ensures
        r matches Some(e) ==> encode_model(event_model(e)) == s@ && model_bounded(
            event_model(e),
        ),
        r is None ==> no_model(s@),
{
    proof {
        reveal_strlit("StocksBought;");
        reveal_strlit("PriceObtained;");
        reveal_strlit("DividendPaid;");
    }
    let ghost ex: bool = !no_model(s@);
    let ghost wm = if ex {
        choose|m: EventModel| model_bounded(m) && encode_model(m) == s@
    } else {
        arbitrary()
    };
    proof {
        if ex {
            match wm {
                EventModel::StocksBought { .. } => {
                    lemma_sb_decomp(s@, wm);
                    assert(s@[0] == 'S');
                    assert(s@.subrange(0, 14)[0] == s@[0]);
                },
                EventModel::PriceObtained { .. } => {
                    lemma_po_decomp(s@, wm);
                },
                EventModel::DividendPaid { .. } => {
                    lemma_dp_decomp(s@, wm);
                    assert(s@[0] == 'D');
                    assert(s@.subrange(0, 14)[0] == s@[0]);
                },
            }
            assert(wm is PriceObtained);
        }
    }
    let (ts, i1) = match read_key(s, 14, n) {
        Some(r) => r,
        None => {
            proof {
                if ex {
                    assert(false);
                }
            }
            return None;
        },
    };
    let (pu, i2) = match read_units(s, i1, n) {
        Some(r) => r,
        None => {
            proof {
                if ex {
                    match wm {
                        EventModel::PriceObtained { price_num, .. } => {
                            let vp: i128 = price_num as i128;
                            assert(s@.subrange(34, 74) == enc_units(vp as int));
                        },
                        _ => {},
                    }
                    assert(false);
                }
            }
            return None;
        },
    };
    let (cur, i3) = match read_str_field(s, i2, n) {
        Some(r) => r,
        None => {
            proof {
                if ex {
                    match wm {
                        EventModel::PriceObtained { price_cur, .. } => {
                            assert(s@.subrange(74, 94 + price_cur.len() as int) == enc_str(price_cur));
                        },
                        _ => {},
                    }
                    assert(false);
                }
            }
            return None;
        },
    };
    let (id, i4) = match read_str_field(s, i3, n) {
        Some(r) => r,
        None => {
            proof {
                if ex {
                    match wm {
                        EventModel::PriceObtained { price_cur, identifier, .. } => {
                            lemma_pad_digits_props(price_cur.len(), 20);
                            lemma_pad_digits_props(cur@.len(), 20);
                            assert(s@.subrange(74, 94) =~= pad_digits(price_cur.len(), 20));
                            assert(s@.subrange(74, 94) =~= pad_digits(cur@.len(), 20));
                            assert(cur@.len() == price_cur.len());
                            assert(s@.subrange(94 + price_cur.len() as int, s@.len() as int)
                                == enc_str(identifier));
                        },
                        _ => {},
                    }
                    assert(false);
                }
            }
            return None;
        },
    };
    if i4 != n {
        proof {
            if ex {
                match wm {
                    EventModel::PriceObtained { price_cur, identifier, .. } => {
                        lemma_pad_digits_props(price_cur.len(), 20);
                        lemma_pad_digits_props(cur@.len(), 20);
                        assert(s@.subrange(74, 94) =~= pad_digits(price_cur.len(), 20));
                        assert(s@.subrange(74, 94) =~= pad_digits(cur@.len(), 20));
                        assert(cur@.len() == price_cur.len());
                        lemma_pad_digits_props(identifier.len(), 20);
                        lemma_pad_digits_props(id@.len(), 20);
                        let o = 94 + price_cur.len() as int;
                        assert(s@.subrange(o, o + 20) =~= pad_digits(identifier.len(), 20));
                        assert(s@.subrange(o, o + 20) =~= pad_digits(id@.len(), 20));
                        assert(id@.len() == identifier.len());
                    },
                    _ => {},
                }
                assert(false);
            }
        }
        return None;
    }
    let e = Event::PriceObtained(
        PriceObtained {
            created_at: ts,
            price: Amount { num: Decimal::from_units(pu), currency: Currency(cur) },
            identifier: StockIdentifier { ticker: id },
        },
    );
    proof {
        lemma_codec_pows();
        assert(encode_model(event_model(e)) =~= s@);
    }
    Some(e)
}

/// Decode a record carrying the dividend tag.
#[verifier::rlimit(80)]
fn decode_dividend_paid(s: &str, n: usize) -> (r: Option<Event>)
    requires
        n == s@.len(),
        13 <= n,
        s@.subrange(0, 13) == "DividendPaid;"@,
    ensures
        r matches Some(e) ==> encode_model(event_model(e)) == s@ && model_bounded(
            event_model(e),
        ),
        r is None ==> no_model(s@),
{
    proof {
        reveal_strlit("StocksBought;");
        reveal_strlit("PriceObtained;");
        reveal_strlit("DividendPaid;");
    }
    let ghost ex: bool = !no_model(s@);
    let ghost wm = if ex {
        choose|m: EventModel| model_bounded(m) && encode_model(m) == s@
    } else {
        arbitrary()
    };
    proof {
        if ex {
            match wm {
                EventModel::StocksBought { .. } => {
                    lemma_sb_decomp(s@, wm);
                    assert(s@[0] == 'S');
                    assert(s@.subrange(0, 13)[0] == s@[0]);
                },
                EventModel::PriceObtained { .. } => {
                    lemma_po_decomp(s@, wm);
                    assert(s@[0] == 'P');
                    assert(s@.subrange(0, 13)[0] == s@[0]);
                },
                EventModel::DividendPaid { .. } => {
                    lemma_dp_decomp(s@, wm);
                },
            }
            assert(wm is DividendPaid);
        }
    }
    let (ts, i1) = match read_key(s, 13, n) {
        Some(r) => r,
        None => {
            proof {
                if ex {
                    assert(false);
                }
            }
            return None;
        },
    };
    let (pu, i2) = match read_units(s, i1, n) {
        Some(r) => r,
        None => {
            proof {
                if ex {
                    match wm {
                        EventModel::DividendPaid { price_num, .. } => {
                            let vp: i128 = price_num as i128;
                            assert(s@.subrange(33, 73) == enc_units(vp as int));
                        },
                        _ => {},
                    }
                    assert(false);
                }
            }
            return None;
        },
    };
    let (cur, i3) = match read_str_field(s, i2, n) {
        Some(r) => r,
        None => {
            proof {
                if ex {
                    match wm {
                        EventModel::DividendPaid { price_cur, .. } => {
                            assert(s@.subrange(73, 93 + price_cur.len() as int) == enc_str(price_cur));
                        },
                        _ => {},
                    }
                    assert(false);
                }
            }
            return None;
        },
    };
    let (id, i4) = match read_str_field(s, i3, n) {
        Some(r) => r,
        None => {
            proof {
                if ex {
                    match wm {
                        EventModel::DividendPaid { price_cur, identifier, .. } => {
                            lemma_pad_digits_props(price_cur.len(), 20);
                            lemma_pad_digits_props(cur@.len(), 20);
                            assert(s@.subrange(73, 93) =~= pad_digits(price_cur.len(), 20));
                            assert(s@.subrange(73, 93) =~= pad_digits(cur@.len(), 20));
                            assert(cur@.len() == price_cur.len());
                            assert(s@.subrange(93 + price_cur.len() as int, s@.len() as int)
                                == enc_str(identifier));
                        },
                        _ => {},
                    }
                    assert(false);
                }
            }
            return None;
        },
    };
    if i4 != n {
        proof {
            if ex {
                match wm {
                    EventModel::DividendPaid { price_cur, identifier, .. } => {
                        lemma_pad_digits_props(price_cur.len(), 20);
                        lemma_pad_digits_props(cur@.len(), 20);
                        assert(s@.subrange(73, 93) =~= pad_digits(price_cur.len(), 20));
                        assert(s@.subrange(73, 93) =~= pad_digits(cur@.len(), 20));
                        assert(cur@.len() == price_cur.len());
                        lemma_pad_digits_props(identifier.len(), 20);
                        lemma_pad_digits_props(id@.len(), 20);
                        let o = 93 + price_cur.len() as int;
                        assert(s@.subrange(o, o + 20) =~= pad_digits(identifier.len(), 20));
                        assert(s@.subrange(o, o + 20) =~= pad_digits(id@.len(), 20));
                        assert(id@.len() == identifier.len());
                    },
                    _ => {},
                }
                assert(false);
            }
        }
        return None;
    }
    let e = Event::DividendPaid(
        DividendPaid {
            created_at: ts,
            price: Amount { num: Decimal::from_units(pu), currency: Currency(cur) },
            identifier: StockIdentifier { ticker: id },
        },
    );
    proof {
        lemma_codec_pows();
        assert(encode_model(event_model(e)) =~= s@);
    }
    Some(e)
}

/// Deserialize a wire record.  A successful decode yields an event whose
/// serialized form is exactly the input; a failure means no event at all is
/// encoded in the input, so decoding never spuriously rejects a record.
pub fn decode_event(s: &str) -> (r: Option<Event>)
    ensures
        r matches Some(e) ==> encode_model(event_model(e)) == s@ && model_bounded(
            event_model(e),
        ),
        r is None ==> !(exists|m: EventModel| model_bounded(m) && encode_model(m) == s@),
{
    proof {
        reveal_strlit("StocksBought;");
        reveal_strlit("PriceObtained;");
        reveal_strlit("DividendPaid;");
    }
    let n = s.unicode_len();
    if has_prefix(s, "StocksBought;", n) {
        decode_stocks_bought(s, n)
    } else if has_prefix(s, "PriceObtained;", n) {
        decode_price_obtained(s, n)
    } else if has_prefix(s, "DividendPaid;", n) {
        decode_dividend_paid(s, n)
    } else {
        proof {
            if !no_model(s@) {
                let m = choose|m: EventModel| model_bounded(m) && encode_model(m) == s@;
                match m {
                    EventModel::StocksBought { .. } => {
                        lemma_sb_decomp(s@, m);
                    },
                    EventModel::PriceObtained { .. } => {
                        lemma_po_decomp(s@, m);
                    },
                    EventModel::DividendPaid { .. } => {
                        lemma_dp_decomp(s@, m);
                    },
                }
                assert(false);
            }
        }
        None
    }
}

} // verus!
