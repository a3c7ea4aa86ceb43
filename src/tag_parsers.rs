//! Decoders of the field values of each tag.
use vstd::prelude::*;
use crate::errors::{
    GrammarError, GrammarRule, ParseError, ParseErrorView, RequiredTagNotFoundError,
    VariantNotFound,
};
use crate::fields::Field;
use crate::model::{
    AvailableBalance, AvailableBalanceView, Balance, BalanceView, DebitOrCredit,
    ExtDebitOrCredit, StatementLine, StatementLineView, debit_or_credit_of,
    ext_debit_or_credit_of,
};
use crate::transaction_types::TransactionTypeIdentificationCode;
use crate::text::{
    all_alpha, all_digits, all_swift_inline, is_alnum, is_alnum_char, is_digit, chars_of, digits_range, find_char, find_char_exec,
    is_alpha, same_chars, slice_of, split_at_lf, split_lf, string_of,
    string_of_range, swift_inline_range,
};
use crate::utils::{
    Amount, Date, amount_from_chars, amount_spec, date_from_chars, date_spec, is_date_text,
};

verus! {

/// A reference text: one to `max` SWIFT characters on one line.
pub open spec fn is_ref_text(v: Seq<char>, max: nat) -> bool {
    1 <= v.len() <= max && all_swift_inline(v)
}

fn ref_text_exec(v: &Vec<char>, max: usize) -> (r: bool)
    ensures
        r == is_ref_text(v@, max as nat),
{
    assert(v@.subrange(0, v.len() as int) == v@);
    1 <= v.len() && v.len() <= max && swift_inline_range(v, 0, v.len())
}

pub open spec fn string_result_view(r: Result<String, ParseError>) -> Result<
    Seq<char>,
    ParseErrorView,
> {
    match r {
        Ok(s) => Ok(s@),
        Err(e) => Err(e@),
    }
}

/// The value of a reference field: `field` must carry tag `want`, and its value be a reference
/// text of at most `max` characters.
pub open spec fn ref_field_spec(
    field: (Seq<char>, Seq<char>),
    want: Seq<char>,
    max: nat,
    rule: GrammarRule,
) -> Result<Seq<char>, ParseErrorView> {
    if field.0 != want {
        Err(ParseErrorView::RequiredTagNotFound(want))
    } else if !is_ref_text(field.1, max) {
        Err(ParseErrorView::Grammar(rule, field.1))
    } else {
        Ok(field.1)
    }
}

fn required(tag: Vec<char>) -> (r: ParseError)
    ensures
        r@ == ParseErrorView::RequiredTagNotFound(tag@),
{
    ParseError::RequiredTagNotFoundError(RequiredTagNotFoundError { required_tag: string_of(&tag) })
}

fn grammar(rule: GrammarRule, v: &Vec<char>) -> (r: ParseError)
    ensures
        r@ == ParseErrorView::Grammar(rule, v@),
{
    ParseError::GrammarError(GrammarError { rule, input: string_of(v) })
}

fn ref_field(field: &Field, want: Vec<char>, max: usize, rule: GrammarRule) -> (r: Result<
    String,
    ParseError,
>)
    ensures
        string_result_view(r) == ref_field_spec(field@, want@, max as nat, rule),
{
    let tag = chars_of(field.tag.as_str());
    if !same_chars(&tag, &want) {
        return Err(required(want));
    }
    let v = chars_of(field.value.as_str());
    if !ref_text_exec(&v, max) {
        return Err(grammar(rule, &v));
    }
    Ok(string_of(&v))
}

/// Tag `:20:`, the transaction reference number.
pub fn parse_20_tag(field: &Field) -> (r: Result<String, ParseError>)
    ensures
        string_result_view(r) == ref_field_spec(
            field@,
            seq!['2', '0'],
            16,
            GrammarRule::TransactionRefNo,
        ),
{
    ref_field(field, vec!['2', '0'], 16, GrammarRule::TransactionRefNo)
}

/// Tag `:21:`, the reference to the related message.
pub fn parse_21_tag(field: &Field) -> (r: Result<String, ParseError>)
    ensures
        string_result_view(r) == ref_field_spec(
            field@,
            seq!['2', '1'],
            16,
            GrammarRule::RefToRelatedMsg,
        ),
{
    ref_field(field, vec!['2', '1'], 16, GrammarRule::RefToRelatedMsg)
}

/// Tag `:25:`, the account identification.
pub fn parse_25_tag(field: &Field) -> (r: Result<String, ParseError>)
    ensures
        string_result_view(r) == ref_field_spec(field@, seq!['2', '5'], 35, GrammarRule::AccountId),
{
    ref_field(field, vec!['2', '5'], 35, GrammarRule::AccountId)
}

/// One to five digits.
pub open spec fn is_short_number(v: Seq<char>) -> bool {
    1 <= v.len() <= 5 && all_digits(v)
}

/// The statement number and the optional sequence number of a `:28C:` value `n[/m]`.
pub open spec fn statement_no_spec(field: (Seq<char>, Seq<char>)) -> Result<
    (Seq<char>, Option<Seq<char>>),
    ParseErrorView,
> {
    let v = field.1;
    let k = find_char(v, '/', 0);
    if field.0 != seq!['2', '8', 'C'] {
        Err(ParseErrorView::RequiredTagNotFound(seq!['2', '8', 'C']))
    } else if !is_short_number(v.subrange(0, k)) || (k < v.len() && !is_short_number(
        v.subrange(k + 1, v.len() as int),
    )) {
        Err(ParseErrorView::Grammar(GrammarRule::StatementNo, v))
    } else if k < v.len() {
        Ok((v.subrange(0, k), Some(v.subrange(k + 1, v.len() as int))))
    } else {
        Ok((v.subrange(0, k), None))
    }
}

fn short_number(v: &Vec<char>, from: usize, to: usize) -> (r: bool)
    requires
        from <= to <= v.len(),
    ensures
        r == is_short_number(v@.subrange(from as int, to as int)),
{
    1 <= to - from && to - from <= 5 && digits_range(v, from, to)
}

/// Tag `:28C:`: the statement number and the optional sequence number.
pub fn parse_28c_tag(field: &Field) -> (r: Result<(String, Option<String>), ParseError>)
    ensures
        match r {
            Ok((n, s)) => statement_no_spec(field@) == Ok::<_, ParseErrorView>(
                (n@, crate::model::opt_view(s)),
            ),
            Err(e) => statement_no_spec(field@) == Err::<(Seq<char>, Option<Seq<char>>), _>(e@),
        },
{
    let tag = chars_of(field.tag.as_str());
    if !same_chars(&tag, &vec!['2', '8', 'C']) {
        return Err(required(vec!['2', '8', 'C']));
    }
    let v = chars_of(field.value.as_str());
    let k = find_char_exec(&v, '/', 0);
    if !short_number(&v, 0, k) || (k < v.len() && !short_number(&v, k + 1, v.len())) {
        return Err(grammar(GrammarRule::StatementNo, &v));
    }
    if k < v.len() {
        Ok((string_of_range(&v, 0, k), Some(string_of_range(&v, k + 1, v.len()))))
    } else {
        Ok((string_of_range(&v, 0, k), None))
    }
}

/// One line of information to the account owner: at most 65 SWIFT characters.
pub open spec fn is_information_line(l: Seq<char>) -> bool {
    l.len() <= 65 && all_swift_inline(l)
}

/// Free text: at most six lines of information.
pub open spec fn is_information_text(v: Seq<char>) -> bool {
    let ls = split_lf(v);
    ls.len() <= 6 && forall|i: int| 0 <= i < ls.len() ==> is_information_line(#[trigger] ls[i])
}

pub open spec fn information_spec(field: (Seq<char>, Seq<char>)) -> Result<
    Seq<char>,
    ParseErrorView,
> {
    if field.0 != seq!['8', '6'] {
        Err(ParseErrorView::RequiredTagNotFound(seq!['8', '6']))
    } else if !is_information_text(field.1) {
        Err(ParseErrorView::Grammar(GrammarRule::InformationToAccountOwner, field.1))
    } else {
        Ok(field.1)
    }
}

/// Tag `:86:`, information to the account owner.
pub fn parse_86_tag(field: &Field) -> (r: Result<String, ParseError>)
    ensures
        string_result_view(r) == information_spec(field@),
{
    let tag = chars_of(field.tag.as_str());
    if !same_chars(&tag, &vec!['8', '6']) {
        return Err(required(vec!['8', '6']));
    }
    let v = chars_of(field.value.as_str());
    let ls = split_at_lf(&v);
    if ls.len() > 6 {
        return Err(grammar(GrammarRule::InformationToAccountOwner, &v));
    }
    let mut i: usize = 0;
    while i < ls.len()
        invariant
            i <= ls.len() <= 6,
            ls.deep_view() == split_lf(v@),
            field@.0 == seq!['8', '6'],
            v@ == field@.1,
            forall|k: int| 0 <= k < i ==> is_information_line(#[trigger] split_lf(v@)[k]),
        decreases ls.len() - i,
    {
        let l = &ls[i];
        assert(l@ == split_lf(v@)[i as int]);
        if l.len() > 65 || !swift_inline_range(l, 0, l.len()) {
            assert(l@.subrange(0, l.len() as int) == l@);
            assert(!is_information_line(split_lf(v@)[i as int]));
            return Err(grammar(GrammarRule::InformationToAccountOwner, &v));
        }
        assert(l@.subrange(0, l.len() as int) == l@);
        i = i + 1;
    }
    Ok(string_of(&v))
}

/// The layout of a balance value: a letter, six digits, three letters, then the amount.
pub open spec fn is_balance_text(v: Seq<char>) -> bool {
    v.len() >= 10 && is_date_text(v.subrange(1, 7)) && all_alpha(v.subrange(7, 10))
}

/// The indicator, date, currency and amount of a balance value.
pub open spec fn balance_spec(v: Seq<char>) -> Result<
    (DebitOrCredit, Date, Seq<char>, Amount),
    ParseErrorView,
> {
    if !is_balance_text(v) {
        Err(ParseErrorView::Grammar(GrammarRule::Balance, v))
    } else {
        match debit_or_credit_of(v.subrange(0, 1)) {
            None => Err(ParseErrorView::VariantNotFound(v.subrange(0, 1))),
            Some(dc) => match date_spec(v.subrange(1, 7)) {
                Err(e) => Err(ParseErrorView::Date(e)),
                Ok(date) => match amount_spec(v.subrange(10, v.len() as int)) {
                    Err(e) => Err(ParseErrorView::Amount(e)),
                    Ok(amount) => Ok((dc, date, v.subrange(7, 10), amount)),
                },
            },
        }
    }
}

fn alpha_range(v: &Vec<char>, from: usize, to: usize) -> (r: bool)
    requires
        from <= to <= v.len(),
    ensures
        r == all_alpha(v@.subrange(from as int, to as int)),
{
    let mut i: usize = from;
    while i < to
        invariant
            from <= i <= to <= v.len(),
            forall|k: int| from <= k < i ==> is_alpha(#[trigger] v@[k]),
        decreases to - i,
    {
        let c = v[i];
        if !(('a' <= c && c <= 'z') || ('A' <= c && c <= 'Z')) {
            assert(!is_alpha(v@.subrange(from as int, to as int)[i - from]));
            return false;
        }
        i = i + 1;
    }
    assert forall|k: int| 0 <= k < to - from implies is_alpha(
        #[trigger] v@.subrange(from as int, to as int)[k],
    ) by {
        assert(v@.subrange(from as int, to as int)[k] == v@[k + from]);
    }
    true
}

fn balance_parts(v: &Vec<char>) -> (r: Result<(DebitOrCredit, Date, String, Amount), ParseError>)
    ensures
        match r {
            Ok((dc, date, cur, amount)) => balance_spec(v@) == Ok::<_, ParseErrorView>(
                (dc, date, cur@, amount),
            ),
            Err(e) => balance_spec(v@) == Err::<(DebitOrCredit, Date, Seq<char>, Amount), _>(e@),
        },
{
    if !(v.len() >= 10 && digits_range(v, 1, 7) && alpha_range(v, 7, 10)) {
        return Err(grammar(GrammarRule::Balance, v));
    }
    let ind = slice_of(v, 0, 1);
    let dc = match DebitOrCredit::from_chars(&ind) {
        Some(dc) => dc,
        None => {
            return Err(ParseError::VariantNotFound(VariantNotFound(string_of(&ind))));
        },
    };
    let date = match date_from_chars(&slice_of(v, 1, 7)) {
        Ok(d) => d,
        Err(e) => {
            return Err(ParseError::DateParseError(e));
        },
    };
    let amount = match amount_from_chars(&slice_of(v, 10, v.len())) {
        Ok(a) => a,
        Err(e) => {
            return Err(ParseError::AmountParseError(e));
        },
    };
    Ok((dc, date, string_of_range(v, 7, 10), amount))
}

pub open spec fn balance_view_of(is_intermediate: bool, p: (DebitOrCredit, Date, Seq<char>, Amount)) -> BalanceView {
    BalanceView {
        is_intermediate,
        debit_credit_indicator: p.0,
        date: p.1,
        iso_currency_code: p.2,
        amount: p.3,
    }
}

pub open spec fn available_view_of(p: (DebitOrCredit, Date, Seq<char>, Amount)) -> AvailableBalanceView {
    AvailableBalanceView {
        debit_credit_indicator: p.0,
        date: p.1,
        iso_currency_code: p.2,
        amount: p.3,
    }
}

/// A `:60:` or `:62:` balance (`prefix` is `60` or `62`); `M` marks it intermediate, `F` final.
pub open spec fn balance_field_spec(field: (Seq<char>, Seq<char>), prefix: Seq<char>) -> Result<
    BalanceView,
    ParseErrorView,
> {
    if field.0 != prefix.push('M') && field.0 != prefix.push('F') {
        Err(ParseErrorView::RequiredTagNotFound(prefix))
    } else {
        match balance_spec(field.1) {
            Ok(p) => Ok(balance_view_of(field.0 == prefix.push('M'), p)),
            Err(e) => Err(e),
        }
    }
}

/// An available balance field with tag `tag`.
pub open spec fn available_field_spec(field: (Seq<char>, Seq<char>), tag: Seq<char>) -> Result<
    AvailableBalanceView,
    ParseErrorView,
> {
    if field.0 != tag {
        Err(ParseErrorView::RequiredTagNotFound(tag))
    } else {
        match balance_spec(field.1) {
            Ok(p) => Ok(available_view_of(p)),
            Err(e) => Err(e),
        }
    }
}

pub open spec fn balance_result_view(r: Result<Balance, ParseError>) -> Result<BalanceView, ParseErrorView> {
    match r {
        Ok(b) => Ok(b@),
        Err(e) => Err(e@),
    }
}

pub open spec fn available_result_view(r: Result<AvailableBalance, ParseError>) -> Result<
    AvailableBalanceView,
    ParseErrorView,
> {
    match r {
        Ok(b) => Ok(b@),
        Err(e) => Err(e@),
    }
}

fn balance_field(field: &Field, a: char, b: char) -> (r: Result<Balance, ParseError>)
    ensures
        balance_result_view(r) == balance_field_spec(field@, seq![a, b]),
{
    let tag = chars_of(field.tag.as_str());
    let is_m = same_chars(&tag, &vec![a, b, 'M']);
    let is_f = same_chars(&tag, &vec![a, b, 'F']);
    proof {
        assert(seq![a, b].push('M') =~= seq![a, b, 'M']);
        assert(seq![a, b].push('F') =~= seq![a, b, 'F']);
    }
    if !is_m && !is_f {
        return Err(required(vec![a, b]));
    }
    let v = chars_of(field.value.as_str());
    match balance_parts(&v) {
        Ok((dc, date, cur, amount)) => Ok(
            Balance {
                is_intermediate: is_m,
                debit_credit_indicator: dc,
                date,
                iso_currency_code: cur,
                amount,
            },
        ),
        Err(e) => Err(e),
    }
}

fn available_field(field: &Field, want: Vec<char>) -> (r: Result<AvailableBalance, ParseError>)
    ensures
        available_result_view(r) == available_field_spec(field@, want@),
{
    let tag = chars_of(field.tag.as_str());
    if !same_chars(&tag, &want) {
        return Err(required(want));
    }
    let v = chars_of(field.value.as_str());
    match balance_parts(&v) {
        Ok((dc, date, cur, amount)) => Ok(
            AvailableBalance { debit_credit_indicator: dc, date, iso_currency_code: cur, amount },
        ),
        Err(e) => Err(e),
    }
}

/// Tag `:60F:` or `:60M:`, the opening balance.
pub fn parse_60_tag(field: &Field) -> (r: Result<Balance, ParseError>)
    ensures
        balance_result_view(r) == balance_field_spec(field@, seq!['6', '0']),
{
    balance_field(field, '6', '0')
}

/// Tag `:62F:` or `:62M:`, the closing balance.
pub fn parse_62_tag(field: &Field) -> (r: Result<Balance, ParseError>)
    ensures
        balance_result_view(r) == balance_field_spec(field@, seq!['6', '2']),
{
    balance_field(field, '6', '2')
}

/// Tag `:64:`, the closing available balance.
pub fn parse_64_tag(field: &Field) -> (r: Result<AvailableBalance, ParseError>)
    ensures
        available_result_view(r) == available_field_spec(field@, seq!['6', '4']),
{
    available_field(field, vec!['6', '4'])
}

/// Tag `:65:`, the forward available balance.
pub fn parse_65_tag(field: &Field) -> (r: Result<AvailableBalance, ParseError>)
    ensures
        available_result_view(r) == available_field_spec(field@, seq!['6', '5']),
{
    available_field(field, vec!['6', '5'])
}

/// The length of the entry date `MMDD` after the value date: 4 where a digit follows, else 0.
pub open spec fn entry_len(v: Seq<char>) -> int {
    if v.len() > 6 && is_digit(v[6]) {
        4
    } else {
        0
    }
}

/// The length of the indicator `C`, `D`, `RC` or `RD` at `p`, or 0.
pub open spec fn ext_len(v: Seq<char>, p: int) -> int {
    if 0 <= p && p + 2 <= v.len() && v[p] == 'R' && (v[p + 1] == 'C' || v[p + 1] == 'D') {
        2
    } else if 0 <= p < v.len() && (v[p] == 'C' || v[p] == 'D') {
        1
    } else {
        0
    }
}

/// The length of the optional funds code (a letter) at `p`.
pub open spec fn funds_len(v: Seq<char>, p: int) -> int {
    if 0 <= p < v.len() && is_alpha(v[p]) {
        1
    } else {
        0
    }
}

/// The length of the run of digits and commas at `p`.
pub open spec fn amount_run(v: Seq<char>, p: int) -> nat
    decreases v.len() - p,
{
    if 0 <= p < v.len() && (is_digit(v[p]) || v[p] == ',') {
        1 + amount_run(v, p + 1)
    } else {
        0
    }
}

/// The first `//` in `v[p..e]`, or `e`.
pub open spec fn ref_end(v: Seq<char>, p: int, e: int) -> int
    decreases e - p,
{
    if p < 0 || p + 1 >= e || e > v.len() {
        e
    } else if v[p] == '/' && v[p + 1] == '/' {
        p
    } else {
        ref_end(v, p + 1, e)
    }
}

/// The positions where the parts of a `:61:` value start: indicator, funds code, amount,
/// transaction type, customer reference; then the end of the first line, and the end of the
/// customer reference.
pub open spec fn line_layout(v: Seq<char>) -> (int, int, int, int, int, int, int) {
    let p1 = 6 + entry_len(v);
    let p2 = p1 + ext_len(v, p1);
    let p3 = p2 + funds_len(v, p2);
    let p4 = p3 + amount_run(v, p3);
    let p5 = p4 + 4;
    let e1 = find_char(v, '\n', p5);
    let ce = ref_end(v, p5, e1);
    (p1, p2, p3, p4, p5, e1, ce)
}

/// The layout of a `:61:` value: `YYMMDD[MMDD]` `C|D|RC|RD` `[funds code]` amount `N|F` and a
/// three character code, a customer reference of at most 16 characters, then `//` and a bank
/// reference of at most 16, then a second line of at most 34 supplementary details.
pub open spec fn is_statement_line_text(v: Seq<char>) -> bool {
    let (p1, p2, p3, p4, p5, e1, ce) = line_layout(v);
    &&& v.len() >= 6 && is_date_text(v.subrange(0, 6))
    &&& entry_len(v) == 0 || (10 <= v.len() && all_digits(v.subrange(6, 10)))
    &&& ext_len(v, p1) > 0
    &&& amount_run(v, p3) > 0
    &&& p5 <= v.len()
    &&& (v[p4] == 'N' || v[p4] == 'F')
    &&& is_alnum(v[p4 + 1]) && is_alnum(v[p4 + 2]) && is_alnum(v[p4 + 3])
    &&& is_ref_text(v.subrange(p5, ce), 16)
    &&& ce < e1 ==> is_ref_text(v.subrange(ce + 2, e1), 16)
    &&& e1 < v.len() ==> is_ref_text(v.subrange(e1 + 1, v.len() as int), 34)
}

/// The statement line that a `:61:` field describes.
pub open spec fn statement_line_spec(field: (Seq<char>, Seq<char>)) -> Result<
    StatementLineView,
    ParseErrorView,
> {
    let v = field.1;
    let (p1, p2, p3, p4, p5, e1, ce) = line_layout(v);
    if field.0 != seq!['6', '1'] {
        Err(ParseErrorView::RequiredTagNotFound(seq!['6', '1']))
    } else if !is_statement_line_text(v) {
        Err(ParseErrorView::Grammar(GrammarRule::StatementLine, v))
    } else {
        match date_spec(v.subrange(0, 6)) {
            Err(e) => Err(ParseErrorView::Date(e)),
            Ok(value_date) => {
                let entry = if entry_len(v) == 4 {
                    match date_spec(v.subrange(0, 2) + v.subrange(6, 10)) {
                        Err(e) => Err(e),
                        Ok(d) => Ok(Some(d)),
                    }
                } else {
                    Ok(None)
                };
                match entry {
                    Err(e) => Err(ParseErrorView::Date(e)),
                    Ok(entry_date) => match ext_debit_or_credit_of(v.subrange(p1, p2)) {
                        None => Err(ParseErrorView::VariantNotFound(v.subrange(p1, p2))),
                        Some(ext) => match amount_spec(v.subrange(p3, p4)) {
                            Err(e) => Err(ParseErrorView::Amount(e)),
                            Ok(amount) => match TransactionTypeIdentificationCode::of_letters(
                                v[p4 + 1],
                                v[p4 + 2],
                                v[p4 + 3],
                            ) {
                                None => Err(
                                    ParseErrorView::InvalidTransactionIdentCode(
                                        v.subrange(p4, p5),
                                    ),
                                ),
                                Some(code) => Ok(
                                    StatementLineView {
                                        value_date,
                                        entry_date,
                                        ext_debit_credit_indicator: ext,
                                        funds_code: if p3 > p2 {
                                            Some(v.subrange(p2, p3))
                                        } else {
                                            None
                                        },
                                        amount,
                                        transaction_type_ident_code: code,
                                        customer_ref: v.subrange(p5, ce),
                                        bank_ref: if ce < e1 {
                                            Some(v.subrange(ce + 2, e1))
                                        } else {
                                            None
                                        },
                                        supplementary_details: if e1 < v.len() {
                                            Some(v.subrange(e1 + 1, v.len() as int))
                                        } else {
                                            None
                                        },
                                        information_to_account_owner: None,
                                    },
                                ),
                            },
                        },
                    },
                }
            },
        }
    }
}

fn amount_run_exec(v: &Vec<char>, p: usize) -> (n: usize)
    requires
        p <= v.len(),
    ensures
        n == amount_run(v@, p as int),
        p + n <= v.len(),
{
    let mut j: usize = p;
    while j < v.len() && (('0' <= v[j] && v[j] <= '9') || v[j] == ',')
        invariant
            p <= j <= v.len(),
            amount_run(v@, p as int) == (j - p) + amount_run(v@, j as int),
        decreases v.len() - j,
    {
        j = j + 1;
    }
    j - p
}

fn ref_end_exec(v: &Vec<char>, p: usize, e: usize) -> (r: usize)
    requires
        p <= e <= v.len(),
    ensures
        r == ref_end(v@, p as int, e as int),
        p <= r <= e,
        r < e ==> r + 2 <= e,
{
    let mut q: usize = p;
    while e - q >= 2 && !(v[q] == '/' && v[q + 1] == '/')
        invariant
            p <= q <= e <= v.len(),
            ref_end(v@, p as int, e as int) == ref_end(v@, q as int, e as int),
        decreases e - q,
    {
        q = q + 1;
    }
    if e - q >= 2 {
        q
    } else {
        e
    }
}

fn opt_string(present: bool, v: &Vec<char>, from: usize, to: usize) -> (r: Option<String>)
    requires
        present ==> from <= to <= v.len(),
    ensures
        crate::model::opt_view(r) == if present {
            Some(v@.subrange(from as int, to as int))
        } else {
            None
        },
{
    if present {
        Some(string_of_range(v, from, to))
    } else {
        None
    }
}

pub open spec fn line_result_view(r: Result<StatementLine, ParseError>) -> Result<
    StatementLineView,
    ParseErrorView,
> {
    match r {
        Ok(l) => Ok(l@),
        Err(e) => Err(e@),
    }
}

/// The layout of a `:61:` value, where it has the form of one.
fn layout_exec(v: &Vec<char>) -> (r: Option<(usize, usize, usize, usize, usize, usize, usize)>)
    ensures
        match r {
            Some(l) => is_statement_line_text(v@) && line_layout(v@) == (
                l.0 as int,
                l.1 as int,
                l.2 as int,
                l.3 as int,
                l.4 as int,
                l.5 as int,
                l.6 as int,
            ) && 6 <= l.0 <= l.1 <= l.2 <= l.3 && l.4 == l.3 + 4 && l.4 <= l.6 <= l.5 <= v.len()
                && (l.6 < l.5 ==> l.6 + 2 <= l.5),
            None => !is_statement_line_text(v@),
        },
{
    let ghost layout = line_layout(v@);
    let n = v.len();
    if n < 6 || !digits_range(v, 0, 6) {
        return None;
    }
    let el: usize = if n > 6 && '0' <= v[6] && v[6] <= '9' {
        4
    } else {
        0
    };
    if el == 4 && (n < 10 || !digits_range(v, 6, 10)) {
        return None;
    }
    let p1 = 6 + el;
    let xl: usize = if p1 + 2 <= n && v[p1] == 'R' && (v[p1 + 1] == 'C' || v[p1 + 1] == 'D') {
        2
    } else if p1 < n && (v[p1] == 'C' || v[p1] == 'D') {
        1
    } else {
        0
    };
    if xl == 0 {
        return None;
    }
    let p2 = p1 + xl;
    let fl: usize = if p2 < n && (('a' <= v[p2] && v[p2] <= 'z') || ('A' <= v[p2] && v[p2] <= 'Z')) {
        1
    } else {
        0
    };
    let p3 = p2 + fl;
    let al = amount_run_exec(v, p3);
    if al == 0 {
        return None;
    }
    let p4 = p3 + al;
    if n - p4 < 4 || !(v[p4] == 'N' || v[p4] == 'F') || !is_alnum_char(v[p4 + 1])
        || !is_alnum_char(v[p4 + 2]) || !is_alnum_char(v[p4 + 3]) {
        return None;
    }
    let p5 = p4 + 4;
    let e1 = find_char_exec(v, '\n', p5);
    let ce = ref_end_exec(v, p5, e1);
    assert(layout == (p1 as int, p2 as int, p3 as int, p4 as int, p5 as int, e1 as int, ce as int));
    let cust_ok = ce - p5 >= 1 && ce - p5 <= 16 && swift_inline_range(v, p5, ce);
    let bank_ok = ce == e1 || (e1 - (ce + 2) >= 1 && e1 - (ce + 2) <= 16 && swift_inline_range(
        v,
        ce + 2,
        e1,
    ));
    let supp_ok = e1 == n || (n - (e1 + 1) >= 1 && n - (e1 + 1) <= 34 && swift_inline_range(
        v,
        e1 + 1,
        n,
    ));
    if !cust_ok || !bank_ok || !supp_ok {
        return None;
    }
    Some((p1, p2, p3, p4, p5, e1, ce))
}

/// Tag `:61:`, a statement line.
pub fn parse_61_tag(field: &Field) -> (r: Result<StatementLine, ParseError>)
    ensures
        line_result_view(r) == statement_line_spec(field@),
{
    let tag = chars_of(field.tag.as_str());
    if !same_chars(&tag, &vec!['6', '1']) {
        return Err(required(vec!['6', '1']));
    }
    let v = chars_of(field.value.as_str());
    let n = v.len();
    let (p1, p2, p3, p4, p5, e1, ce) = match layout_exec(&v) {
        Some(l) => l,
        None => {
            return Err(grammar(GrammarRule::StatementLine, &v));
        },
    };
    let el: usize = if n > 6 && '0' <= v[6] && v[6] <= '9' {
        4
    } else {
        0
    };
    let fl: usize = p3 - p2;
    let value_date = match date_from_chars(&slice_of(&v, 0, 6)) {
        Ok(d) => d,
        Err(e) => {
            return Err(ParseError::DateParseError(e));
        },
    };
    let entry_date = if el == 4 {
        let mut ed = slice_of(&v, 0, 2);
        ed.push(v[6]);
        ed.push(v[7]);
        ed.push(v[8]);
        ed.push(v[9]);
        assert(ed@ =~= v@.subrange(0, 2) + v@.subrange(6, 10));
        match date_from_chars(&ed) {
            Ok(d) => Some(d),
            Err(e) => {
                return Err(ParseError::DateParseError(e));
            },
        }
    } else {
        None
    };
    let xs = slice_of(&v, p1, p2);
    let ext = match ExtDebitOrCredit::from_chars(&xs) {
        Some(x) => x,
        None => {
            return Err(ParseError::VariantNotFound(VariantNotFound(string_of(&xs))));
        },
    };
    let amount = match amount_from_chars(&slice_of(&v, p3, p4)) {
        Ok(a) => a,
        Err(e) => {
            return Err(ParseError::AmountParseError(e));
        },
    };
    let code = match TransactionTypeIdentificationCode::from_letters(v[p4 + 1], v[p4 + 2], v[p4 + 3]) {
        Some(c) => c,
        None => {
            return Err(ParseError::InvalidTransactionIdentCode(string_of_range(&v, p4, p5)));
        },
    };
    Ok(
        StatementLine {
            value_date,
            entry_date,
            ext_debit_credit_indicator: ext,
            funds_code: opt_string(fl == 1, &v, p2, p3),
            amount,
            transaction_type_ident_code: code,
            customer_ref: string_of_range(&v, p5, ce),
            bank_ref: opt_string(ce < e1, &v, if ce < e1 {
                ce + 2
            } else {
                e1
            }, e1),
            supplementary_details: opt_string(e1 < n, &v, if e1 < n {
                e1 + 1
            } else {
                n
            }, n),
            information_to_account_owner: None,
        },
    )
}

} // verus!
