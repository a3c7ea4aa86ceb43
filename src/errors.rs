//! The errors that parsing can end in.
use vstd::prelude::*;

verus! {

/// The part of the grammar that a text did not conform to.
#[derive(Debug, Clone, Copy, PartialEq, Eq, Structural)]
pub enum GrammarRule {
    /// The split of a statement into `:tag:value` fields.
    Fields,
    /// The value of tag `:20:`.
    TransactionRefNo,
    /// The value of tag `:21:`.
    RefToRelatedMsg,
    /// The value of tag `:25:`.
    AccountId,
    /// The value of tag `:28C:`.
    StatementNo,
    /// The value of a balance tag (`:60:`, `:62:`, `:64:`, `:65:`).
    Balance,
    /// The value of tag `:61:`.
    StatementLine,
    /// The value of tag `:86:`.
    InformationToAccountOwner,
    /// A six digit `YYMMDD` date.
    Date,
}

/// A text that does not conform to the grammar: the rule, and the text it was tried on.
///
/// For `GrammarRule::Fields` the text is the offending line, else it is the field's value.
#[derive(Debug, Clone, PartialEq, Eq)]
pub struct GrammarError {
    pub rule: GrammarRule,
    pub input: String,
}

/// Error returned when a date can't be decoded.
#[derive(Debug, Clone, PartialEq, Eq)]
pub enum DateParseError {
    /// The digits do not name a day of the calendar.
    OutOfRange { year: String, month: String, day: String },
    GrammarError(GrammarError),
}

/// Error returned if a variant for an enum can't be found.
#[derive(Debug, Clone, PartialEq, Eq)]
pub struct VariantNotFound(pub String);

/// Error returned when decoding a MT940 amount fails. Each variant holds the amount's text.
#[derive(Debug, Clone, PartialEq, Eq)]
pub enum AmountParseError {
    TooManyCommas(String),
    NoComma(String),
    /// The digits do not form an amount: a character that is no digit, no digit at all, a
    /// number beyond `i64::MAX`, or more than 28 digits after the comma.
    IntParseError(String),
}

/// Error returned when parsing fails.
#[derive(Debug, Clone, PartialEq, Eq)]
pub enum ParseError {
    GrammarError(GrammarError),
    UnexpectedTagError(UnexpectedTagError),
    DateParseError(DateParseError),
    RequiredTagNotFoundError(RequiredTagNotFoundError),
    UnknownTagError(String),
    VariantNotFound(VariantNotFound),
    AmountParseError(AmountParseError),
    InvalidTransactionIdentCode(String),
}

/// Error returned when an unexpected tag was found.
///
/// Some tags must never follow other tags. If that happens for some reason, we can safely assume
/// that the input data is faulty.
#[derive(Debug, Clone, PartialEq, Eq)]
pub struct UnexpectedTagError {
    pub current_tag: String,
    pub last_tag: String,
    pub expected_tags: Vec<String>,
}

impl UnexpectedTagError {
    pub fn new(current_tag: &str, last_tag: &str, expected_tags: Vec<String>) -> (r:
        UnexpectedTagError)
        ensures
            r.current_tag@ == current_tag@,
            r.last_tag@ == last_tag@,
            r.expected_tags == expected_tags,
    {
        UnexpectedTagError {
            current_tag: String::from_str(current_tag),
            last_tag: String::from_str(last_tag),
            expected_tags,
        }
    }
}

/// What an `AmountParseError` says.
pub enum AmountErrorView {
    TooManyCommas(Seq<char>),
    NoComma(Seq<char>),
    IntParseError(Seq<char>),
}

impl View for AmountParseError {
    type V = AmountErrorView;

    open spec fn view(&self) -> AmountErrorView {
        match self {
            AmountParseError::TooManyCommas(t) => AmountErrorView::TooManyCommas(t@),
            AmountParseError::NoComma(t) => AmountErrorView::NoComma(t@),
            AmountParseError::IntParseError(t) => AmountErrorView::IntParseError(t@),
        }
    }
}

/// What a `DateParseError` says.
pub enum DateErrorView {
    OutOfRange(Seq<char>, Seq<char>, Seq<char>),
    Grammar(GrammarRule, Seq<char>),
}

impl View for DateParseError {
    type V = DateErrorView;

    open spec fn view(&self) -> DateErrorView {
        match self {
            DateParseError::OutOfRange { year, month, day } => DateErrorView::OutOfRange(
                year@,
                month@,
                day@,
            ),
            DateParseError::GrammarError(e) => DateErrorView::Grammar(e.rule, e.input@),
        }
    }
}

/// What a `ParseError` says.
pub enum ParseErrorView {
    Grammar(GrammarRule, Seq<char>),
    /// The tag found, the tag before it, and the tags that were expected.
    UnexpectedTag(Seq<char>, Seq<char>, Seq<Seq<char>>),
    Date(DateErrorView),
    RequiredTagNotFound(Seq<char>),
    UnknownTag(Seq<char>),
    VariantNotFound(Seq<char>),
    Amount(AmountErrorView),
    InvalidTransactionIdentCode(Seq<char>),
}

impl View for ParseError {
    type V = ParseErrorView;

    open spec fn view(&self) -> ParseErrorView {
        match self {
            ParseError::GrammarError(e) => ParseErrorView::Grammar(e.rule, e.input@),
            ParseError::UnexpectedTagError(e) => ParseErrorView::UnexpectedTag(
                e.current_tag@,
                e.last_tag@,
                e.expected_tags.deep_view(),
            ),
            ParseError::DateParseError(e) => ParseErrorView::Date(e@),
            ParseError::RequiredTagNotFoundError(e) => ParseErrorView::RequiredTagNotFound(
                e.required_tag@,
            ),
            ParseError::UnknownTagError(t) => ParseErrorView::UnknownTag(t@),
            ParseError::VariantNotFound(e) => ParseErrorView::VariantNotFound(e.0@),
            ParseError::AmountParseError(e) => ParseErrorView::Amount(e@),
            ParseError::InvalidTransactionIdentCode(t) => ParseErrorView::InvalidTransactionIdentCode(
                t@,
            ),
        }
    }
}

/// Error returned if a required tag was not found.
#[derive(Debug, Clone, PartialEq, Eq)]
pub struct RequiredTagNotFoundError {
    pub required_tag: String,
}

impl RequiredTagNotFoundError {
    pub fn new(tag: &str) -> (r: RequiredTagNotFoundError)
        ensures
            r.required_tag@ == tag@,
    {
        RequiredTagNotFoundError { required_tag: String::from_str(tag) }
    }
}

} // verus!
