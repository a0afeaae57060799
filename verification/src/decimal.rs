//! Exact fixed-point decimal numbers.
//!
//! A `Decimal` stores an integer count of 10^-12 units, so money amounts and
//! fractional share counts are represented exactly and additions never drift.
//! All arithmetic is checked: an operation whose true result cannot be
//! represented reports that instead of wrapping or rounding silently.

use vstd::prelude::*;

verus! {

/// Stored units per whole unit: a `Decimal` carries twelve fractional digits.
pub const FRAC_UNITS: i128 = 1_000_000_000_000;

/// Magnitude bound accepted by `parse`: ten to the power 38, which leaves
/// every parsed value (and sums of a few of them) inside the i128 range.
pub const DEC_LIMIT: i128 = 100_000_000_000_000_000_000_000_000_000_000_000_000;

/// Ten to the power `e`.
pub open spec fn pow10(e: nat) -> int
    decreases e,
{
    if e == 0 {
        1
    } else {
        10 * pow10((e - 1) as nat)
    }
}

/// Is `c` one of the characters '0' through '9'?
pub open spec fn is_dec_digit(c: char) -> bool {
    '0' as int <= c as int && c as int <= '9' as int
}

/// Numeric value of a digit character.
pub open spec fn dec_digit_val(c: char) -> int {
    c as int - '0' as int
}

/// Value of a digit string read in base ten (most significant first).
pub open spec fn digits_val(s: Seq<char>) -> int
    decreases s.len(),
{
    if s.len() == 0 {
        0
    } else {
        10 * digits_val(s.drop_last()) + dec_digit_val(s.last())
    }
}

/// Are all characters of `s` decimal digits?
pub open spec fn all_dec_digits(s: Seq<char>) -> bool {
    forall|i: int| 0 <= i < s.len() ==> is_dec_digit(#[trigger] s[i])
}

/// First position at or after `i` holding a non-digit, or the length of `s`.
pub open spec fn digits_end(s: Seq<char>, i: int) -> int
    decreases s.len() - i when 0 <= i <= s.len()
{
    if i >= s.len() {
        s.len() as int
    } else if !is_dec_digit(s[i]) {
        i
    } else {
        digits_end(s, i + 1)
    }
}

/// The value denoted by a decimal numeral, in 10^-12 units, or `None` when
/// `s` is not of the form `-?digits(.digits)?` with one to twelve fractional
/// digits.
pub open spec fn dec_token_value(s: Seq<char>) -> Option<int> {
    let off: int = if s.len() > 0 && s[0] == '-' {
        1
    } else {
        0
    };
    let neg = off == 1;
    let j = digits_end(s, off);
    if j == off {
        None
    } else if j == s.len() {
        let v = digits_val(s.subrange(off, j)) * FRAC_UNITS;
        Some(
            if neg {
                -v
            } else {
                v
            },
        )
    } else if s[j] == '.' {
        let k = digits_end(s, j + 1);
        let flen = k - (j + 1);
        if k == s.len() && 1 <= flen <= 12 {
            let v = digits_val(s.subrange(off, j)) * FRAC_UNITS + digits_val(
                s.subrange(j + 1, k),
            ) * pow10((12 - flen) as nat);
            Some(
                if neg {
                    -v
                } else {
                    v
                },
            )
        } else {
            None
        }
    } else {
        None
    }
}

/// Does the numeral `s` denote a representable `Decimal`?
pub open spec fn is_dec_numeral(s: Seq<char>) -> bool {
    match dec_token_value(s) {
        Some(v) => -DEC_LIMIT < v < DEC_LIMIT,
        None => false,
    }
}

/// `pow10` is positive and monotone in its exponent.
pub proof fn lemma_pow10_mono(a: nat, b: nat)
    requires
        a <= b,
    ensures
        1 <= pow10(a) <= pow10(b),
    decreases b,
{
    if b == 0 {
    } else if a == b {
        lemma_pow10_mono(0, (b - 1) as nat);
    } else {
        lemma_pow10_mono(a, (b - 1) as nat);
    }
}

/// Powers of ten multiply by adding exponents.
pub proof fn lemma_pow10_add(a: nat, b: nat)
    ensures
        pow10(a) * pow10(b) == pow10(a + b),
    decreases b,
{
    if b == 0 {
    } else {
        lemma_pow10_add(a, (b - 1) as nat);
        assert(pow10(a) * pow10(b) == pow10(a) * (10 * pow10((b - 1) as nat)));
        assert(pow10(a) * (10 * pow10((b - 1) as nat)) == 10 * (pow10(a) * pow10(
            (b - 1) as nat,
        ))) by (nonlinear_arith);
    }
}

/// Concrete powers of ten used by the executable code.
proof fn lemma_pow10_vals()
    ensures
        pow10(12) == 1_000_000_000_000,
        pow10(13) == 10_000_000_000_000,
{
    assert(pow10(12) == 1_000_000_000_000 && pow10(13) == 10_000_000_000_000) by {
        reveal_with_fuel(pow10, 14);
    }
}

/// Reading one more digit multiplies the value so far by ten and adds it.
pub proof fn lemma_digits_val_step(t: Seq<char>, s0: int, i: int)
    requires
        0 <= s0 <= i < t.len(),
    ensures
        digits_val(t.subrange(s0, i + 1)) == 10 * digits_val(t.subrange(s0, i)) + dec_digit_val(
            t[i],
        ),
{
    let a = t.subrange(s0, i + 1);
    assert(a.drop_last() =~= t.subrange(s0, i));
    assert(a.last() == t[i]);
}

/// A string of `n` digits denotes a value in `[0, 10^n)`.
pub proof fn lemma_digits_val_bound(t: Seq<char>)
    requires
        all_dec_digits(t),
    ensures
        0 <= digits_val(t) < pow10(t.len()),
    decreases t.len(),
{
    if t.len() == 0 {
    } else {
        assert(all_dec_digits(t.drop_last()));
        lemma_digits_val_bound(t.drop_last());
        assert(is_dec_digit(t.last()));
        assert(digits_val(t) == 10 * digits_val(t.drop_last()) + dec_digit_val(t.last()));
        assert(10 * digits_val(t.drop_last()) <= 10 * (pow10(t.drop_last().len()) - 1))
            by (nonlinear_arith)
            requires
                digits_val(t.drop_last()) <= pow10(t.drop_last().len()) - 1,
        ;
    }
}

/// Extending a digit run to the right never decreases its value.
pub proof fn lemma_digits_val_prefix_le(t: Seq<char>, s0: int, i: int, j: int)
    requires
        0 <= s0 <= i <= j <= t.len(),
        forall|p: int| s0 <= p < j ==> is_dec_digit(#[trigger] t[p]),
    ensures
        digits_val(t.subrange(s0, i)) <= digits_val(t.subrange(s0, j)),
    decreases j - i,
{
    if i < j {
        assert(all_dec_digits(t.subrange(s0, i)));
        lemma_digits_val_bound(t.subrange(s0, i));
        lemma_digits_val_step(t, s0, i);
        assert(is_dec_digit(t[i]));
        lemma_digits_val_prefix_le(t, s0, i + 1, j);
    }
}

/// Largest admissible integer part plus one, i.e. ten to the power 26.
const INT_CAP: u128 = 100_000_000_000_000_000_000_000_000;

/// `FRAC_UNITS` as an unsigned quantity for intermediate arithmetic.
const FRAC_U128: u128 = 1_000_000_000_000;

/// A fractional part scaled to stored units stays below one whole unit.
proof fn lemma_frac_units_bound(fv: int, flen: int)
    requires
        1 <= flen <= 12,
        0 <= fv < pow10(flen as nat),
    ensures
        0 <= fv * pow10((12 - flen) as nat) < 1_000_000_000_000,
{
    let e = (12 - flen) as nat;
    lemma_pow10_mono(0, e);
    assert(fv * pow10(e) <= (pow10(flen as nat) - 1) * pow10(e)) by (nonlinear_arith)
        requires
            fv <= pow10(flen as nat) - 1,
            pow10(e) >= 1,
            fv >= 0,
    ;
    assert((pow10(flen as nat) - 1) * pow10(e) == pow10(flen as nat) * pow10(e) - pow10(e))
        by (nonlinear_arith);
    lemma_pow10_add(flen as nat, e);
    lemma_pow10_vals();
    assert(fv * pow10(e) >= 0) by (nonlinear_arith)
        requires
            fv >= 0,
            pow10(e) >= 1,
    ;
}

/// An integer part below the cap and a sub-unit fraction stay below the
/// overall magnitude limit.
proof fn lemma_int_frac_in_range(iv: int, fr: int)
    requires
        0 <= iv < INT_CAP as int,
        0 <= fr < 1_000_000_000_000,
    ensures
        0 <= iv * (FRAC_UNITS as int) + fr < DEC_LIMIT as int,
{
    assert(iv * (FRAC_UNITS as int) <= (INT_CAP as int - 1) * (FRAC_UNITS as int))
        by (nonlinear_arith)
        requires
            0 <= iv <= INT_CAP as int - 1,
    ;
    assert(iv * (FRAC_UNITS as int) >= 0) by (nonlinear_arith)
        requires
            iv >= 0,
    ;
}

/// An integer part at the cap pushes the value past the magnitude limit.
proof fn lemma_out_of_range(ipart: Seq<char>, fr: int)
    requires
        digits_val(ipart) >= INT_CAP as int,
        fr >= 0,
    ensures
        digits_val(ipart) * (FRAC_UNITS as int) + fr >= DEC_LIMIT as int,
{
    assert(digits_val(ipart) * (FRAC_UNITS as int) >= (INT_CAP as int) * (FRAC_UNITS as int))
        by (nonlinear_arith)
        requires
            digits_val(ipart) >= INT_CAP as int,
    ;
}

/// Ten to the power `e`, computed at run time for scaling fractions.
fn pow10_u64(e: usize) -> (r: u64)
    requires
        e <= 12,
    ensures
        r as int == pow10(e as nat),
{
    let mut r: u64 = 1;
    let mut k: usize = 0;
    while k < e
        invariant
            k <= e <= 12,
            r as int == pow10(k as nat),
        decreases e - k,
    {
        proof {
            lemma_pow10_mono((k + 1) as nat, 12);
            lemma_pow10_vals();
        }
        r = r * 10;
        k = k + 1;
    }
    r
}

/// Numeric value of a digit character.
fn digit_val_exec(c: char) -> (d: u8)
    requires
        is_dec_digit(c),
    ensures
        d as int == dec_digit_val(c),
        d < 10,
{
    (c as u32 - 48) as u8
}

/// Run-time test matching `is_dec_digit`.
fn is_digit_char(c: char) -> (r: bool)
    ensures
        r == is_dec_digit(c),
{
    let u = c as u32;
    48 <= u && u <= 57
}

/// Index just past the run of digit characters of `s` starting at `from`.
fn scan_digits(s: &str, from: usize, n: usize) -> (j: usize)
    requires
        n == s@.len(),
        from <= n,
    ensures
        from <= j <= n,
        j as int == digits_end(s@, from as int),
        forall|p: int| from <= p < j ==> is_dec_digit(#[trigger] s@[p]),
{
    let mut i = from;
    loop
        invariant
            from <= i <= n,
            n == s@.len(),
            digits_end(s@, from as int) == digits_end(s@, i as int),
            forall|p: int| from <= p < i ==> is_dec_digit(#[trigger] s@[p]),
        ensures
            from <= i <= n,
            i as int == digits_end(s@, from as int),
            forall|p: int| from <= p < i ==> is_dec_digit(#[trigger] s@[p]),
        decreases n - i,
    {
        if i == n {
            break ;
        }
        let c = s.get_char(i);
        if !is_digit_char(c) {
            break ;
        }
        i = i + 1;
    }
    i
}

/// Base-ten value of the digit run `s[from..j)`, or `None` once it reaches
/// `cap`.
fn digits_to_value(s: &str, from: usize, j: usize, cap: u128) -> (r: Option<u128>)
    requires
        from <= j <= s@.len(),
        forall|p: int| from <= p < j ==> is_dec_digit(#[trigger] s@[p]),
        10 <= cap <= 1_000_000_000_000_000_000_000_000_000_000_000_000,
    ensures
        r matches Some(v) ==> v as int == digits_val(s@.subrange(from as int, j as int)) && v
            < cap,
        r is None <==> digits_val(s@.subrange(from as int, j as int)) >= cap,
{
    let mut i = from;
    let mut acc: u128 = 0;
    proof {
        assert(s@.subrange(from as int, from as int) =~= Seq::<char>::empty());
    }
    while i < j
        invariant
            from <= i <= j <= s@.len(),
            forall|p: int| from <= p < j ==> is_dec_digit(#[trigger] s@[p]),
            10 <= cap <= 1_000_000_000_000_000_000_000_000_000_000_000_000,
            acc < cap,
            acc as int == digits_val(s@.subrange(from as int, i as int)),
        ensures
            i == j,
            acc < cap,
            acc as int == digits_val(s@.subrange(from as int, i as int)),
        decreases j - i,
    {
        let c = s.get_char(i);
        let d = digit_val_exec(c);
        let next = acc * 10 + d as u128;
        proof {
            lemma_digits_val_step(s@, from as int, i as int);
        }
        if next >= cap {
            proof {
                lemma_digits_val_prefix_le(s@, from as int, i as int + 1, j as int);
            }
            return None;
        }
        acc = next;
        i = i + 1;
    }
    Some(acc)
}

/// The digit character for the value `d`.
pub open spec fn dec_digit_char(d: int) -> char {
    ((d + 48) as u8) as char
}

/// Base-ten numeral of a natural number, most significant digit first.
pub open spec fn spec_nat_digits(n: nat) -> Seq<char>
    decreases n,
{
    if n < 10 {
        seq![dec_digit_char(n as int)]
    } else {
        spec_nat_digits(n / 10).push(dec_digit_char((n % 10) as int))
    }
}

/// The value shown for `v` when rounded half away from zero to two digits:
/// an optional minus sign, the whole part, a dot, and two fractional digits.
pub open spec fn spec_format2(v: int) -> Seq<char> {
    let m = if v >= 0 {
        v
    } else {
        -v
    };
    let c = (m + 5_000_000_000) / 10_000_000_000;
    let sign: Seq<char> = if v < 0 {
        seq!['-']
    } else {
        Seq::empty()
    };
    sign + spec_nat_digits((c / 100) as nat) + seq!['.'] + seq![
        dec_digit_char((c / 10) % 10),
        dec_digit_char(c % 10),
    ]
}

/// Truncated-toward-zero product of two decimal values in stored units.
pub open spec fn spec_mul_trunc(a: int, b: int) -> int {
    let p = if a * b >= 0 {
        a * b
    } else {
        -(a * b)
    };
    let q = p / (FRAC_UNITS as int);
    if a * b >= 0 {
        q
    } else {
        -q
    }
}

/// Can the product of two decimal values be computed and represented?
pub open spec fn spec_mul_fits(a: int, b: int) -> bool {
    let p = if a * b >= 0 {
        a * b
    } else {
        -(a * b)
    };
    p <= u128::MAX as int && p / (FRAC_UNITS as int) <= i128::MAX as int
}

/// `i128::MAX` as an unsigned quantity.
const I128_MAX_U128: u128 = 170_141_183_460_469_231_731_687_303_715_884_105_727;

/// Magnitude of a signed quantity.
fn abs128(x: i128) -> (r: u128)
    ensures
        r as int == if x >= 0 {
            x as int
        } else {
            -(x as int)
        },
{
    if x >= 0 {
        x as u128
    } else {
        ((-1 - x) as u128) + 1
    }
}

/// The one-character string for digit `d`.
pub(crate) fn digit_str(d: u8) -> (r: &'static str)
    requires
        d < 10,
    ensures
        r@ =~= seq![dec_digit_char(d as int)],
{
    proof {
        reveal_strlit("0");
        reveal_strlit("1");
        reveal_strlit("2");
        reveal_strlit("3");
        reveal_strlit("4");
        reveal_strlit("5");
        reveal_strlit("6");
        reveal_strlit("7");
        reveal_strlit("8");
        reveal_strlit("9");
    }
    match d {
        0 => "0",
        1 => "1",
        2 => "2",
        3 => "3",
        4 => "4",
        5 => "5",
        6 => "6",
        7 => "7",
        8 => "8",
        _ => "9",
    }
}

/// The base-ten numeral of `n` as a string.
fn u128_to_string(n: u128) -> (r: String)
    ensures
        r@ == spec_nat_digits(n as nat),
    decreases n,
{
    if n < 10 {
        let s = digit_str(n as u8);
        String::from_str(s)
    } else {
        let mut r = u128_to_string(n / 10);
        let d = digit_str((n % 10) as u8);
        r.append(d);
        proof {
            assert(spec_nat_digits((n / 10) as nat) + seq![dec_digit_char((n % 10) as int)]
                =~= spec_nat_digits((n / 10) as nat).push(dec_digit_char((n % 10) as int)));
        }
        r
    }
}

/// An exact decimal number: `units` counts 10^-12 fractions of a whole.
#[derive(Clone, Copy, PartialEq, Eq, Structural, Debug)]
pub struct Decimal {
    units: i128,
}

impl View for Decimal {
    type V = int;

    closed spec fn view(&self) -> int {
        self.units as int
    }
}

impl Decimal {
    /// The number zero.
    pub fn zero() -> (r: Decimal)
        ensures
            r@ == 0,
    {
        Decimal { units: 0 }
    }

    /// Every decimal's value lies within the backing machine-integer range.
    pub proof fn lemma_in_range(&self)
        ensures
            i128::MIN <= self@ <= i128::MAX,
    {
    }

    /// The decimal holding `units` 10^-12 fractions.
    pub fn from_units(units: i128) -> (r: Decimal)
        ensures
            r@ == units as int,
    {
        Decimal { units }
    }

    /// The stored unit count.
    pub fn to_units(&self) -> (r: i128)
        ensures
            r as int == self@,
    {
        self.units
    }

    /// Value equality, stated over the view for callers in other modules.
    pub fn eq_value(&self, other: &Decimal) -> (r: bool)
        ensures
            r == (self@ == other@),
    {
        self.units == other.units
    }

    /// The whole number `whole`.
    pub fn from_int(whole: i64) -> (r: Decimal)
        ensures
            r@ == whole as int * FRAC_UNITS as int,
    {
        proof {
            assert(i64::MIN as int * FRAC_UNITS as int <= whole as int * FRAC_UNITS as int <= i64::MAX
                as int * FRAC_UNITS as int) by (nonlinear_arith)
                requires
                    i64::MIN as int <= whole as int <= i64::MAX as int,
            ;
        }
        Decimal { units: (whole as i128) * FRAC_UNITS }
    }

    /// Parse a decimal numeral of the form `-?digits(.digits)?` with one to
    /// twelve fractional digits.  Returns `None` exactly when `s` is not such
    /// a numeral or its magnitude reaches `DEC_LIMIT`.
    pub fn parse(s: &str) -> (r: Option<Decimal>)
        ensures
            r matches Some(d) ==> dec_token_value(s@) == Some(d@),
            r is Some <==> is_dec_numeral(s@),
    {
        proof {
            lemma_pow10_vals();
        }
        let n = s.unicode_len();
        let neg = n > 0 && s.get_char(0) == '-';
        let off: usize = if neg {
            1
        } else {
            0
        };
        let j = scan_digits(s, off, n);
        if j == off {
            return None;
        }
        let ghost ipart = s@.subrange(off as int, j as int);
        let int_val = digits_to_value(s, off, j, INT_CAP);
        if j == n {
            // a pure integer numeral
            match int_val {
                Some(iv) => {
                    proof {
                        lemma_int_frac_in_range(iv as int, 0);
                    }
                    let units = (iv * FRAC_U128) as i128;
                    Some(
                        Decimal {
                            units: if neg {
                                -units
                            } else {
                                units
                            },
                        },
                    )
                },
                None => {
                    proof {
                        lemma_out_of_range(ipart, 0);
                    }
                    None
                },
            }
        } else {
            if s.get_char(j) != '.' {
                return None;
            }
            let k = scan_digits(s, j + 1, n);
            let flen = k - (j + 1);
            if !(k == n && 1 <= flen && flen <= 12) {
                return None;
            }
            let ghost fpart = s@.subrange(j as int + 1, k as int);
            let fv = match digits_to_value(s, j + 1, k, 10_000_000_000_000) {
                Some(fv) => fv,
                None => {
                    // a run of at most twelve digits is always below the cap
                    proof {
                        lemma_digits_val_bound(fpart);
                        lemma_pow10_mono(fpart.len(), 12);
                    }
                    0
                },
            };
            proof {
                lemma_digits_val_bound(fpart);
            }
            let scale = pow10_u64(12 - flen);
            proof {
                lemma_pow10_mono((12 - flen) as nat, 12);
                lemma_pow10_vals();
                assert((fv as int) * (scale as int) <= 10_000_000_000_000 * 1_000_000_000_000)
                    by (nonlinear_arith)
                    requires
                        0 <= fv as int <= 10_000_000_000_000,
                        0 <= scale as int <= 1_000_000_000_000,
                ;
            }
            let frac_units = fv * (scale as u128);
            proof {
                lemma_frac_units_bound(fv as int, flen as int);
            }
            match int_val {
                Some(iv) => {
                    proof {
                        lemma_int_frac_in_range(iv as int, frac_units as int);
                    }
                    let units = (iv * FRAC_U128 + frac_units) as i128;
                    Some(
                        Decimal {
                            units: if neg {
                                -units
                            } else {
                                units
                            },
                        },
                    )
                },
                None => {
                    proof {
                        lemma_out_of_range(ipart, frac_units as int);
                    }
                    None
                },
            }
        }
    }

    /// Exact sum, or `None` when it falls outside the representable range.
    pub fn checked_add(self, rhs: Decimal) -> (r: Option<Decimal>)
        ensures
            r matches Some(d) ==> d@ == self@ + rhs@,
            r is None <==> !(i128::MIN <= self@ + rhs@ <= i128::MAX),
    {
        match self.units.checked_add(rhs.units) {
            Some(u) => Some(Decimal { units: u }),
            None => None,
        }
    }

    /// Product truncated toward zero to twelve fractional digits, or `None`
    /// when it cannot be computed or represented.
    pub fn checked_mul(self, rhs: Decimal) -> (r: Option<Decimal>)
        ensures
            r matches Some(d) ==> d@ == spec_mul_trunc(self@, rhs@),
            r is Some <==> spec_mul_fits(self@, rhs@),
    {
        let a = abs128(self.units);
        let b = abs128(rhs.units);
        proof {
            assert((a as int) * (b as int) == if (self@ * rhs@) >= 0 {
                self@ * rhs@
            } else {
                -(self@ * rhs@)
            }) by (nonlinear_arith)
                requires
                    a as int == if self@ >= 0 {
                        self@
                    } else {
                        -self@
                    },
                    b as int == if rhs@ >= 0 {
                        rhs@
                    } else {
                        -rhs@
                    },
            ;
        }
        let p = match a.checked_mul(b) {
            Some(p) => p,
            None => {
                return None;
            },
        };
        let q = p / (FRAC_UNITS as u128);
        if q > I128_MAX_U128 {
            return None;
        }
        let qi = q as i128;
        let neg = (self.units < 0) != (rhs.units < 0);
        proof {
            assert(((self@ < 0) != (rhs@ < 0)) && self@ * rhs@ >= 0 ==> self@ * rhs@ == 0)
                by (nonlinear_arith);
            assert(!((self@ < 0) != (rhs@ < 0)) ==> self@ * rhs@ >= 0) by (nonlinear_arith);
        }
        Some(
            Decimal {
                units: if neg {
                    -qi
                } else {
                    qi
                },
            },
        )
    }

    /// Render the value rounded half away from zero to two decimal places.
    pub fn format2(&self) -> (r: String)
        ensures
            r@ == spec_format2(self@),
    {
        proof {
            reveal_strlit("-");
            reveal_strlit(".");
        }
        let neg = self.units < 0;
        let m = abs128(self.units);
        let c = (m + 5_000_000_000) / 10_000_000_000;
        let mut out = String::new();
        if neg {
            out.append("-");
        }
        let whole = u128_to_string(c / 100);
        out.append(whole.as_str());
        out.append(".");
        out.append(digit_str(((c / 10) % 10) as u8));
        out.append(digit_str((c % 10) as u8));
        proof {
            assert(out@ =~= spec_format2(self@));
        }
        out
    }
}

} // verus!
