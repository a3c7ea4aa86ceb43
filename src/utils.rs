//! Decoders for MT940 amounts and dates, and the types they produce.
use vstd::prelude::*;
use crate::errors::{
    AmountErrorView, AmountParseError, DateErrorView, DateParseError, GrammarError, GrammarRule,
};
use crate::text::{is_digit, all_digits, chars_of, slice_of, string_of, string_of_range};

verus! {

pub open spec fn pow10(n: nat) -> int
    decreases n,
{
    if n == 0 {
        1
    } else {
        10 * pow10((n - 1) as nat)
    }
}

/// The number that a string of decimal digits writes.
pub open spec fn digits_value(s: Seq<char>) -> int
    decreases s.len(),
{
    if s.len() == 0 {
        0
    } else {
        digits_value(s.drop_last()) * 10 + (s.last() as int - '0' as int)
    }
}

/// An exact decimal number: `mantissa / 10^scale`.
///
/// Two amounts are equal when they denote the same number, whatever their scales.
#[derive(Debug, Clone, Copy)]
pub struct Amount {
    pub mantissa: i64,
    pub scale: u32,
}

impl Amount {
    /// The amount `mantissa / 10^scale`.
    pub fn new(mantissa: i64, scale: u32) -> (r: Amount)
        ensures
            r.mantissa == mantissa,
            r.scale == scale,
    {
        Amount { mantissa, scale }
    }

    /// Both amounts denote the same number.
    pub open spec fn same_value(self, o: Amount) -> bool {
        self.mantissa * pow10(o.scale as nat) == o.mantissa * pow10(self.scale as nat)
    }
}

proof fn lemma_pow10_positive(n: nat)
    ensures
        pow10(n) >= 1,
    decreases n,
{
    if n > 0 {
        lemma_pow10_positive((n - 1) as nat);
    }
}

proof fn lemma_pow10_add(a: nat, b: nat)
    ensures
        pow10(a + b) == pow10(a) * pow10(b),
    decreases b,
{
    if b > 0 {
        lemma_pow10_add(a, (b - 1) as nat);
        assert(pow10(a + b) == 10 * pow10((a + b - 1) as nat));
        assert(pow10(a) * pow10(b) == pow10(a) * (10 * pow10((b - 1) as nat)));
        assert(pow10(a) * (10 * pow10((b - 1) as nat)) == 10 * (pow10(a) * pow10((b - 1) as nat)))
            by (nonlinear_arith);
    }
}

/// `m * 10^k`, where that lies in the range of `i64`.
fn scale_up(m: i64, k: u32) -> (r: Option<i64>)
    ensures
        match r {
            Some(v) => v == m * pow10(k as nat),
            None => m * pow10(k as nat) < i64::MIN || m * pow10(k as nat) > i64::MAX,
        },
{
    let mut v: i64 = m;
    let mut i: u32 = 0;
    while i < k
        invariant
            i <= k,
            v == m * pow10(i as nat),
        decreases k - i,
    {
        if v > i64::MAX / 10 || v < i64::MIN / 10 {
            proof {
                lemma_pow10_add(i as nat, (k - i) as nat);
                lemma_pow10_positive((k - i - 1) as nat);
                let p = pow10((k - i) as nat);
                assert(p == 10 * pow10((k - i - 1) as nat));
                assert(p >= 10);
                assert(m * pow10(k as nat) == v * p) by (nonlinear_arith)
                    requires
                        pow10(k as nat) == pow10(i as nat) * p,
                        v == m * pow10(i as nat),
                ;
                if v > 0 {
                    assert(v * p >= v * 10) by (nonlinear_arith)
                        requires
                            v > 0,
                            p >= 10,
                    ;
                } else {
                    assert(v * p <= v * 10) by (nonlinear_arith)
                        requires
                            v <= 0,
                            p >= 10,
                    ;
                }
            }
            return None;
        }
        proof {
            assert(pow10((i + 1) as nat) == 10 * pow10(i as nat));
            assert(m * (10 * pow10(i as nat)) == 10 * (m * pow10(i as nat))) by (nonlinear_arith);
        }
        v = v * 10;
        i = i + 1;
    }
    Some(v)
}

impl PartialEq for Amount {
    fn eq(&self, o: &Amount) -> (r: bool) {
        if self.scale <= o.scale {
            let k = o.scale - self.scale;
            proof {
                lemma_pow10_add(self.scale as nat, k as nat);
                lemma_pow10_positive(self.scale as nat);
                let ps = pow10(self.scale as nat);
                assert(self.mantissa * pow10(o.scale as nat) == (self.mantissa * pow10(k as nat))
                    * ps) by (nonlinear_arith)
                    requires
                        pow10(o.scale as nat) == ps * pow10(k as nat),
                ;
                assert(((self.mantissa * pow10(k as nat)) * ps == o.mantissa * ps) == (
                self.mantissa * pow10(k as nat) == o.mantissa)) by (nonlinear_arith)
                    requires
                        ps >= 1,
                ;
            }
            match scale_up(self.mantissa, k) {
                Some(v) => v == o.mantissa,
                None => false,
            }
        } else {
            let k = self.scale - o.scale;
            proof {
                lemma_pow10_add(o.scale as nat, k as nat);
                lemma_pow10_positive(o.scale as nat);
                let ps = pow10(o.scale as nat);
                assert(o.mantissa * pow10(self.scale as nat) == (o.mantissa * pow10(k as nat)) * ps)
                    by (nonlinear_arith)
                    requires
                        pow10(self.scale as nat) == ps * pow10(k as nat),
                ;
                assert(((o.mantissa * pow10(k as nat)) * ps == self.mantissa * ps) == (o.mantissa
                    * pow10(k as nat) == self.mantissa)) by (nonlinear_arith)
                    requires
                        ps >= 1,
                ;
            }
            match scale_up(o.mantissa, k) {
                Some(v) => v == self.mantissa,
                None => false,
            }
        }
    }
}

impl vstd::std_specs::cmp::PartialEqSpecImpl for Amount {
    open spec fn obeys_eq_spec() -> bool {
        true
    }

    open spec fn eq_spec(&self, o: &Amount) -> bool {
        self.same_value(*o)
    }
}

impl Eq for Amount {

}

/// The number of commas in `s`.
pub open spec fn comma_count(s: Seq<char>) -> nat
    decreases s.len(),
{
    if s.len() == 0 {
        0
    } else {
        comma_count(s.drop_last()) + if s.last() == ',' {
            1nat
        } else {
            0nat
        }
    }
}

/// The position of the first comma of `s`, or its length.
pub open spec fn first_comma(s: Seq<char>) -> int
    decreases s.len(),
{
    if s.len() == 0 {
        0
    } else if s[0] == ',' {
        0
    } else {
        1 + first_comma(s.drop_first())
    }
}

/// The digits of an amount `I,F`: `I` followed by `F`.
pub open spec fn amount_digits(s: Seq<char>) -> Seq<char> {
    let k = first_comma(s);
    s.subrange(0, k) + s.subrange(k + 1, s.len() as int)
}

/// The number of digits after the comma of an amount `I,F`.
pub open spec fn amount_scale(s: Seq<char>) -> int {
    s.len() - first_comma(s) - 1
}

/// The digits around the single comma of `s` form an amount that can be held.
pub open spec fn amount_digits_ok(s: Seq<char>) -> bool {
    let d = amount_digits(s);
    &&& d.len() > 0
    &&& all_digits(d)
    &&& digits_value(d) <= i64::MAX
    &&& amount_scale(s) <= 28
}

/// What decoding the amount text `s` gives.
pub open spec fn amount_result(s: Seq<char>, r: Result<Amount, AmountParseError>) -> bool {
    match r {
        Ok(a) => {
            &&& comma_count(s) == 1
            &&& amount_digits_ok(s)
            &&& a.mantissa == digits_value(amount_digits(s))
            &&& a.scale == amount_scale(s)
        },
        Err(AmountParseError::NoComma(t)) => comma_count(s) == 0 && t@ == s,
        Err(AmountParseError::TooManyCommas(t)) => comma_count(s) > 1 && t@ == s,
        Err(AmountParseError::IntParseError(t)) => {
            comma_count(s) == 1 && !amount_digits_ok(s) && t@ == s
        },
    }
}

proof fn lemma_digits_value_monotonic(s: Seq<char>, i: int)
    requires
        0 <= i <= s.len(),
        all_digits(s),
    ensures
        0 <= digits_value(s.subrange(0, i)) <= digits_value(s),
    decreases s.len(),
{
    if s.len() > 0 {
        if i == s.len() {
            assert(s.subrange(0, i) == s);
            lemma_digits_value_monotonic(s.drop_last(), i - 1);
            assert(s.drop_last().subrange(0, i - 1) == s.drop_last());
        } else {
            lemma_digits_value_monotonic(s.drop_last(), i);
            assert(s.drop_last().subrange(0, i) == s.subrange(0, i));
            lemma_digits_value_monotonic(s.drop_last(), s.len() - 1);
            assert(s.drop_last().subrange(0, s.len() - 1) == s.drop_last());
        }
    } else {
        assert(s.subrange(0, i).len() == 0);
    }
}

/// The number that `d` writes, where it is made of digits only, is not empty, and fits in
/// `i64`.
fn parse_digits(d: &Vec<char>) -> (r: Option<i64>)
    ensures
        match r {
            Some(v) => d.len() > 0 && all_digits(d@) && v == digits_value(d@),
            None => !(d.len() > 0 && all_digits(d@) && digits_value(d@) <= i64::MAX),
        },
{
    if d.len() == 0 {
        return None;
    }
    let mut v: i64 = 0;
    let mut i: usize = 0;
    while i < d.len()
        invariant
            i <= d.len(),
            all_digits(d@.subrange(0, i as int)),
            v == digits_value(d@.subrange(0, i as int)),
            0 <= v,
        decreases d.len() - i,
    {
        let c = d[i];
        if !('0' <= c && c <= '9') {
            assert(!is_digit(d@[i as int]));
            return None;
        }
        let dig = (c as u32 - '0' as u32) as i64;
        let ghost next = d@.subrange(0, i + 1);
        assert(next.drop_last() == d@.subrange(0, i as int));
        assert(all_digits(next));
        if v > (i64::MAX - dig) / 10 {
            proof {
                if all_digits(d@) {
                    lemma_digits_value_monotonic(d@, i + 1);
                }
            }
            return None;
        }
        v = v * 10 + dig;
        i = i + 1;
    }
    assert(d@.subrange(0, d.len() as int) == d@);
    Some(v)
}

/// Decodes the amount text `s`: digits, a comma, digits.
pub fn amount_from_chars(s: &Vec<char>) -> (r: Result<Amount, AmountParseError>)
    ensures
        amount_result(s@, r),
        amount_view(r) == amount_spec(s@),
{
    let r = amount_of_chars(s);
    proof {
        lemma_amount_spec(s@, r);
    }
    r
}

fn amount_of_chars(s: &Vec<char>) -> (r: Result<Amount, AmountParseError>)
    ensures
        amount_result(s@, r),
{
    let mut count: usize = 0;
    let mut k: usize = s.len();
    let mut i: usize = 0;
    assert(s@.subrange(0, s.len() as int) == s@);
    while i < s.len()
        invariant
            i <= s.len(),
            count == comma_count(s@.subrange(0, i as int)),
            count <= i,
            count == 0 ==> k == s.len(),
            count == 0 ==> first_comma(s@) == i + first_comma(s@.subrange(i as int, s.len() as int)),
            count > 0 ==> k == first_comma(s@) && k < i,
        decreases s.len() - i,
    {
        let ghost pre = s@.subrange(0, i + 1);
        assert(pre.drop_last() == s@.subrange(0, i as int));
        let ghost tail = s@.subrange(i as int, s.len() as int);
        assert(tail.drop_first() == s@.subrange(i + 1, s.len() as int));
        if s[i] == ',' {
            if count == 0 {
                k = i;
            }
            count = count + 1;
        }
        i = i + 1;
    }
    assert(s@.subrange(0, s.len() as int) == s@);
    if count == 0 {
        return Err(AmountParseError::NoComma(string_of(s)));
    }
    if count > 1 {
        return Err(AmountParseError::TooManyCommas(string_of(s)));
    }
    let mut d = slice_of(s, 0, k);
    let mut j: usize = k + 1;
    while j < s.len()
        invariant
            k < j <= s.len(),
            d@ == s@.subrange(0, k as int) + s@.subrange(k + 1, j as int),
        decreases s.len() - j,
    {
        d.push(s[j]);
        j = j + 1;
    }
    let scale = s.len() - k - 1;
    match parse_digits(&d) {
        Some(v) => {
            if scale > 28 {
                return Err(AmountParseError::IntParseError(string_of(s)));
            }
            Ok(Amount { mantissa: v, scale: scale as u32 })
        },
        None => Err(AmountParseError::IntParseError(string_of(s))),
    }
}

proof fn lemma_digits_value_concat(a: Seq<char>, b: Seq<char>)
    ensures
        digits_value(a + b) == digits_value(a) * pow10(b.len()) + digits_value(b),
    decreases b.len(),
{
    if b.len() == 0 {
        assert(a + b == a);
    } else {
        lemma_digits_value_concat(a, b.drop_last());
        assert((a + b).drop_last() == a + b.drop_last());
        assert((a + b).last() == b.last());
        let p = pow10((b.len() - 1) as nat);
        assert(pow10(b.len()) == 10 * p);
        assert((digits_value(a) * p + digits_value(b.drop_last())) * 10 == digits_value(a) * (10
            * p) + digits_value(b.drop_last()) * 10) by (nonlinear_arith);
    }
}

proof fn lemma_no_comma_in_digits(s: Seq<char>)
    requires
        all_digits(s),
    ensures
        comma_count(s) == 0,
        first_comma(s) == s.len(),
    decreases s.len(),
{
    if s.len() > 0 {
        lemma_no_comma_in_digits(s.drop_last());
        lemma_no_comma_in_digits(s.drop_first());
    }
}

proof fn lemma_comma_count_concat(a: Seq<char>, b: Seq<char>)
    ensures
        comma_count(a + b) == comma_count(a) + comma_count(b),
    decreases b.len(),
{
    if b.len() == 0 {
        assert(a + b == a);
    } else {
        lemma_comma_count_concat(a, b.drop_last());
        assert((a + b).drop_last() == a + b.drop_last());
    }
}

proof fn lemma_first_comma_after_digits(a: Seq<char>, b: Seq<char>)
    requires
        all_digits(a),
        b.len() > 0,
        b[0] == ',',
    ensures
        first_comma(a + b) == a.len(),
    decreases a.len(),
{
    if a.len() == 0 {
        assert(a + b == b);
    } else {
        assert((a + b).drop_first() == a.drop_first() + b);
        lemma_first_comma_after_digits(a.drop_first(), b);
    }
}

/// An amount written `I,F` with digits `I` and `F` (at least one digit in all) decodes to the
/// fixed-point number `I + F / 10^|F|`: its mantissa is `I * 10^|F| + F` and its scale `|F|`.
/// Where the digits are more than an `i64` holds, or `F` has more than 28, it is refused.
pub proof fn lemma_amount_is_fixed_point(
    i: Seq<char>,
    f: Seq<char>,
    r: Result<Amount, AmountParseError>,
)
    requires
        i.len() + f.len() > 0,
        all_digits(i),
        all_digits(f),
        amount_result(i + seq![','] + f, r),
    ensures
        r is Ok <==> (digits_value(i + f) <= i64::MAX && f.len() <= 28),
        r is Ok ==> r->Ok_0.mantissa == digits_value(i) * pow10(f.len()) + digits_value(f),
        r is Ok ==> r->Ok_0.scale == f.len(),
{
    let s = i + seq![','] + f;
    lemma_no_comma_in_digits(i);
    lemma_no_comma_in_digits(f);
    lemma_comma_count_concat(i, seq![',']);
    lemma_comma_count_concat(i + seq![','], f);
    assert(comma_count(seq![',']) == 1) by {
        assert(seq![','].drop_last() == Seq::<char>::empty());
        assert(seq![','].last() == ',');
        assert(comma_count(Seq::<char>::empty()) == 0);
    }
    assert(s == i + (seq![','] + f));
    lemma_first_comma_after_digits(i, seq![','] + f);
    assert(s.subrange(0, i.len() as int) == i);
    assert(s.subrange(i.len() as int + 1, s.len() as int) == f);
    assert(amount_digits(s) == i + f);
    assert(all_digits(i + f));
    lemma_digits_value_concat(i, f);
}

/// Zeros at the end of the digits after the comma do not change the number an amount denotes.
pub proof fn lemma_trailing_zero_keeps_value(
    i: Seq<char>,
    f: Seq<char>,
    a: Amount,
    b: Amount,
)
    requires
        i.len() + f.len() > 0,
        all_digits(i),
        all_digits(f),
        amount_result(i + seq![','] + f, Ok(a)),
        amount_result(i + seq![','] + f.push('0'), Ok(b)),
    ensures
        a.same_value(b),
{
    assert(all_digits(f.push('0')));
    lemma_amount_is_fixed_point(i, f, Ok(a));
    lemma_amount_is_fixed_point(i, f.push('0'), Ok(b));
    assert(f.push('0').drop_last() == f);
    let n = f.len();
    assert(pow10(n + 1) == 10 * pow10(n));
    let vi = digits_value(i);
    let vf = digits_value(f);
    assert(b.mantissa == vi * (10 * pow10(n)) + vf * 10);
    assert(a.mantissa * pow10((n + 1) as nat) == b.mantissa * pow10(n)) by (nonlinear_arith)
        requires
            a.mantissa == vi * pow10(n) + vf,
            b.mantissa == vi * (10 * pow10(n)) + vf * 10,
            pow10((n + 1) as nat) == 10 * pow10(n),
    ;
}

/// The amount that the text `s` writes, or what is wrong with it.
pub open spec fn amount_spec(s: Seq<char>) -> Result<Amount, AmountErrorView> {
    if comma_count(s) == 0 {
        Err(AmountErrorView::NoComma(s))
    } else if comma_count(s) > 1 {
        Err(AmountErrorView::TooManyCommas(s))
    } else if !amount_digits_ok(s) {
        Err(AmountErrorView::IntParseError(s))
    } else {
        Ok(
            Amount {
                mantissa: digits_value(amount_digits(s)) as i64,
                scale: amount_scale(s) as u32,
            },
        )
    }
}

pub open spec fn amount_view(r: Result<Amount, AmountParseError>) -> Result<Amount, AmountErrorView> {
    match r {
        Ok(a) => Ok(a),
        Err(e) => Err(e@),
    }
}

pub proof fn lemma_amount_spec(s: Seq<char>, r: Result<Amount, AmountParseError>)
    requires
        amount_result(s, r),
    ensures
        amount_view(r) == amount_spec(s),
{
    if r is Ok {
        lemma_digits_value_monotonic(amount_digits(s), 0);
    }
}

/// Create an `Amount` from a MT940 amount.
///
/// MT940 amounts always have a comma as a decimal separator.
/// However, they might not always have digits behind the comma.
pub fn decimal_from_mt940_amount(s: &str) -> (r: Result<Amount, AmountParseError>)
    ensures
        amount_result(s@, r),
        amount_view(r) == amount_spec(s@),
{
    let cs = chars_of(s);
    amount_from_chars(&cs)
}


/// A day of the calendar.
#[derive(Debug, Clone, Copy, PartialEq, Eq, Structural)]
pub struct Date {
    pub year: i32,
    pub month: u32,
    pub day: u32,
}

pub open spec fn is_leap_year(y: int) -> bool {
    (y % 4 == 0 && y % 100 != 0) || y % 400 == 0
}

pub open spec fn days_in_month(y: int, m: int) -> int {
    if m == 2 {
        if is_leap_year(y) {
            29
        } else {
            28
        }
    } else if m == 4 || m == 6 || m == 9 || m == 11 {
        30
    } else {
        31
    }
}

/// `y-m-d` is a day of the proleptic Gregorian calendar.
pub open spec fn is_calendar_date(y: int, m: int, d: int) -> bool {
    1 <= m <= 12 && 1 <= d <= days_in_month(y, m)
}

/// Relies on `chrono::NaiveDate::from_ymd_opt`: `Some` exactly for the days of the calendar
/// (for years far inside its range).
#[verifier::external_body]
fn calendar_date_exists(year: i32, month: u32, day: u32) -> (r: bool)
    requires
        2000 <= year <= 2099,
    ensures
        r == is_calendar_date(year as int, month as int, day as int),
{
    chrono::NaiveDate::from_ymd_opt(year, month, day).is_some()
}

/// The number two decimal digits write.
pub open spec fn two_digits(a: char, b: char) -> int {
    (a as int - '0' as int) * 10 + (b as int - '0' as int)
}

/// The year, month and day that a six-digit `YYMMDD` text names, the year taken in 20XX.
pub open spec fn date_parts(s: Seq<char>) -> (int, int, int) {
    (2000 + two_digits(s[0], s[1]), two_digits(s[2], s[3]), two_digits(s[4], s[5]))
}

pub open spec fn is_date_text(s: Seq<char>) -> bool {
    s.len() == 6 && all_digits(s)
}

/// What decoding the date text `s` gives.
pub open spec fn date_result(s: Seq<char>, r: Result<Date, DateParseError>) -> bool {
    let (y, m, d) = date_parts(s);
    match r {
        Ok(date) => {
            &&& is_date_text(s)
            &&& is_calendar_date(y, m, d)
            &&& date.year == y && date.month == m && date.day == d
        },
        Err(DateParseError::OutOfRange { year, month, day }) => {
            &&& is_date_text(s)
            &&& !is_calendar_date(y, m, d)
            &&& year@ == seq!['2', '0'] + s.subrange(0, 2)
            &&& month@ == s.subrange(2, 4)
            &&& day@ == s.subrange(4, 6)
        },
        Err(DateParseError::GrammarError(e)) => {
            !is_date_text(s) && e.rule == GrammarRule::Date && e.input@ == s
        },
    }
}

fn digit_value(c: char) -> (r: u32)
    requires
        is_digit(c),
    ensures
        r == c as int - '0' as int,
        r <= 9,
{
    c as u32 - '0' as u32
}

/// The date that the text `s` writes, or what is wrong with it.
pub open spec fn date_spec(s: Seq<char>) -> Result<Date, DateErrorView> {
    let (y, m, d) = date_parts(s);
    if !is_date_text(s) {
        Err(DateErrorView::Grammar(GrammarRule::Date, s))
    } else if is_calendar_date(y, m, d) {
        Ok(Date { year: y as i32, month: m as u32, day: d as u32 })
    } else {
        Err(
            DateErrorView::OutOfRange(
                seq!['2', '0'] + s.subrange(0, 2),
                s.subrange(2, 4),
                s.subrange(4, 6),
            ),
        )
    }
}

pub open spec fn date_view(r: Result<Date, DateParseError>) -> Result<Date, DateErrorView> {
    match r {
        Ok(d) => Ok(d),
        Err(e) => Err(e@),
    }
}

/// Decodes the six-digit `YYMMDD` date text `s`.
pub fn date_from_chars(s: &Vec<char>) -> (r: Result<Date, DateParseError>)
    ensures
        date_result(s@, r),
        date_view(r) == date_spec(s@),
{
    let mut ok = s.len() == 6;
    let mut i: usize = 0;
    while ok && i < s.len()
        invariant
            i <= s.len(),
            ok ==> s.len() == 6,
            ok ==> forall|k: int| 0 <= k < i ==> is_digit(#[trigger] s@[k]),
            !ok ==> !is_date_text(s@),
        decreases s.len() - i,
    {
        if !('0' <= s[i] && s[i] <= '9') {
            ok = false;
        }
        i = i + 1;
    }
    if !ok {
        return Err(
            DateParseError::GrammarError(GrammarError { rule: GrammarRule::Date, input: string_of(s) }),
        );
    }
    let year = 2000 + digit_value(s[0]) * 10 + digit_value(s[1]);
    let month = digit_value(s[2]) * 10 + digit_value(s[3]);
    let day = digit_value(s[4]) * 10 + digit_value(s[5]);
    if calendar_date_exists(year as i32, month, day) {
        Ok(Date { year: year as i32, month, day })
    } else {
        let mut y = vec!['2', '0'];
        y.push(s[0]);
        y.push(s[1]);
        assert(y@ =~= seq!['2', '0'] + s@.subrange(0, 2));
        Err(
            DateParseError::OutOfRange {
                year: string_of(&y),
                month: string_of_range(s, 2, 4),
                day: string_of_range(s, 4, 6),
            },
        )
    }
}

/// Create a `Date` from a MT940 date.
///
/// MT940 has a date format in the form of YYMMDD. Since it has a shortened year, the
/// assumption is made that all statements are in the years 20XX.
pub fn date_from_mt940_date(s: &str) -> (r: Result<Date, DateParseError>)
    ensures
        date_result(s@, r),
        date_view(r) == date_spec(s@),
{
    let cs = chars_of(s);
    date_from_chars(&cs)
}

} // verus!
