//! A strict MT940 bank statement parser with a sanitizer for noncompliant input.
//!
//! The text is first split into `:tag:value` fields; each message is then threaded through a
//! tag-transition state machine while the field values are decoded into typed values.
use vstd::prelude::*;

pub mod errors;
pub mod fields;
pub mod message;
pub mod model;
pub mod sanitizers;
pub mod tag_parsers;
pub mod text;
pub mod transaction_types;
pub mod utils;

pub use errors::{
    AmountParseError, DateParseError, GrammarError, GrammarRule, ParseError,
    RequiredTagNotFoundError, UnexpectedTagError, VariantNotFound,
};
pub use fields::{Field, parse_fields};
pub use message::parse_mt940;
pub use model::{
    AvailableBalance, Balance, DebitOrCredit, ExtDebitOrCredit, Message, StatementLine,
};
pub use transaction_types::TransactionTypeIdentificationCode;
pub use utils::{Amount, Date, date_from_mt940_date, decimal_from_mt940_amount};

verus! {

} // verus!
