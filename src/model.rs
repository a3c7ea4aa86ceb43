//! The document model: messages, their balances and statement lines.
use vstd::prelude::*;
use crate::errors::VariantNotFound;
use crate::text::chars_of;
use crate::transaction_types::TransactionTypeIdentificationCode;
use crate::utils::{Amount, Date};

verus! {

/// Indicates whether a transaction was `Debit` or `Credit`.
#[derive(Debug, Clone, Copy, PartialEq, Eq, Structural)]
pub enum DebitOrCredit {
    Debit,
    Credit,
}

/// The indicator that the text `s` writes: `C` or `D`.
pub open spec fn debit_or_credit_of(s: Seq<char>) -> Option<DebitOrCredit> {
    if s == seq!['C'] {
        Some(DebitOrCredit::Credit)
    } else if s == seq!['D'] {
        Some(DebitOrCredit::Debit)
    } else {
        None
    }
}

impl DebitOrCredit {
    pub fn from_chars(s: &Vec<char>) -> (r: Option<DebitOrCredit>)
        ensures
            r == debit_or_credit_of(s@),
    {
        if s.len() == 1 && s[0] == 'C' {
            assert(s@ =~= seq!['C']);
            Some(DebitOrCredit::Credit)
        } else if s.len() == 1 && s[0] == 'D' {
            assert(s@ =~= seq!['D']);
            Some(DebitOrCredit::Debit)
        } else {
            assert(s@ != seq!['C']);
            assert(s@ != seq!['D']);
            None
        }
    }

    pub fn from_str(s: &str) -> (r: Result<DebitOrCredit, VariantNotFound>)
        ensures
            match r {
                Ok(d) => debit_or_credit_of(s@) == Some(d),
                Err(e) => debit_or_credit_of(s@) is None && e.0@ == s@,
            },
    {
        let cs = chars_of(s);
        match DebitOrCredit::from_chars(&cs) {
            Some(d) => Ok(d),
            None => Err(VariantNotFound(String::from_str(s))),
        }
    }
}

/// Like `DebitOrCredit` with additional reverse variants.
#[derive(Debug, Clone, Copy, PartialEq, Eq, Structural)]
pub enum ExtDebitOrCredit {
    Debit,
    Credit,
    ReverseDebit,
    ReverseCredit,
}

/// The indicator that the text `s` writes: `C`, `D`, `RD` (reverse credit) or `RC` (reverse
/// debit).
pub open spec fn ext_debit_or_credit_of(s: Seq<char>) -> Option<ExtDebitOrCredit> {
    if s == seq!['C'] {
        Some(ExtDebitOrCredit::Credit)
    } else if s == seq!['D'] {
        Some(ExtDebitOrCredit::Debit)
    } else if s == seq!['R', 'D'] {
        Some(ExtDebitOrCredit::ReverseCredit)
    } else if s == seq!['R', 'C'] {
        Some(ExtDebitOrCredit::ReverseDebit)
    } else {
        None
    }
}

impl ExtDebitOrCredit {
    pub fn from_chars(s: &Vec<char>) -> (r: Option<ExtDebitOrCredit>)
        ensures
            r == ext_debit_or_credit_of(s@),
    {
        if s.len() == 1 && s[0] == 'C' {
            assert(s@ =~= seq!['C']);
            Some(ExtDebitOrCredit::Credit)
        } else if s.len() == 1 && s[0] == 'D' {
            assert(s@ =~= seq!['D']);
            Some(ExtDebitOrCredit::Debit)
        } else if s.len() == 2 && s[0] == 'R' && s[1] == 'D' {
            assert(s@ =~= seq!['R', 'D']);
            Some(ExtDebitOrCredit::ReverseCredit)
        } else if s.len() == 2 && s[0] == 'R' && s[1] == 'C' {
            assert(s@ =~= seq!['R', 'C']);
            Some(ExtDebitOrCredit::ReverseDebit)
        } else {
            assert(s@ != seq!['C']);
            assert(s@ != seq!['D']);
            assert(s@ != seq!['R', 'D']);
            assert(s@ != seq!['R', 'C']);
            None
        }
    }

    pub fn from_str(s: &str) -> (r: Result<ExtDebitOrCredit, VariantNotFound>)
        ensures
            match r {
                Ok(d) => ext_debit_or_credit_of(s@) == Some(d),
                Err(e) => ext_debit_or_credit_of(s@) is None && e.0@ == s@,
            },
    {
        let cs = chars_of(s);
        match ExtDebitOrCredit::from_chars(&cs) {
            Some(d) => Ok(d),
            None => Err(VariantNotFound(String::from_str(s))),
        }
    }
}

pub open spec fn opt_view(o: Option<String>) -> Option<Seq<char>> {
    match o {
        Some(s) => Some(s@),
        None => None,
    }
}

/// Represents a balance of an account in between statements or at the start of a statement.
///
/// A balance is intermediate (`:60M:`, `:62M:`) when it was continued from an earlier
/// statement, as opposed to the first or final one (`:60F:`, `:62F:`).
#[derive(Debug, Clone, PartialEq, Eq)]
pub struct Balance {
    pub is_intermediate: bool,
    pub debit_credit_indicator: DebitOrCredit,
    pub date: Date,
    pub iso_currency_code: String,
    pub amount: Amount,
}

pub struct BalanceView {
    pub is_intermediate: bool,
    pub debit_credit_indicator: DebitOrCredit,
    pub date: Date,
    pub iso_currency_code: Seq<char>,
    pub amount: Amount,
}

impl View for Balance {
    type V = BalanceView;

    open spec fn view(&self) -> BalanceView {
        BalanceView {
            is_intermediate: self.is_intermediate,
            debit_credit_indicator: self.debit_credit_indicator,
            date: self.date,
            iso_currency_code: self.iso_currency_code@,
            amount: self.amount,
        }
    }
}

/// Represents the currently available balance of an account.
#[derive(Debug, Clone, PartialEq, Eq)]
pub struct AvailableBalance {
    pub debit_credit_indicator: DebitOrCredit,
    pub date: Date,
    pub iso_currency_code: String,
    pub amount: Amount,
}

pub struct AvailableBalanceView {
    pub debit_credit_indicator: DebitOrCredit,
    pub date: Date,
    pub iso_currency_code: Seq<char>,
    pub amount: Amount,
}

impl View for AvailableBalance {
    type V = AvailableBalanceView;

    open spec fn view(&self) -> AvailableBalanceView {
        AvailableBalanceView {
            debit_credit_indicator: self.debit_credit_indicator,
            date: self.date,
            iso_currency_code: self.iso_currency_code@,
            amount: self.amount,
        }
    }
}

/// A `StatementLine` holds information contained in tag `:61:` and tag `:86:`.
#[derive(Debug, Clone, PartialEq, Eq)]
pub struct StatementLine {
    pub value_date: Date,
    pub entry_date: Option<Date>,
    pub ext_debit_credit_indicator: ExtDebitOrCredit,
    pub funds_code: Option<String>,
    pub amount: Amount,
    pub transaction_type_ident_code: TransactionTypeIdentificationCode,
    pub customer_ref: String,
    pub bank_ref: Option<String>,
    pub supplementary_details: Option<String>,
    /// This information is contained in tag `:86:`
    pub information_to_account_owner: Option<String>,
}

pub struct StatementLineView {
    pub value_date: Date,
    pub entry_date: Option<Date>,
    pub ext_debit_credit_indicator: ExtDebitOrCredit,
    pub funds_code: Option<Seq<char>>,
    pub amount: Amount,
    pub transaction_type_ident_code: TransactionTypeIdentificationCode,
    pub customer_ref: Seq<char>,
    pub bank_ref: Option<Seq<char>>,
    pub supplementary_details: Option<Seq<char>>,
    pub information_to_account_owner: Option<Seq<char>>,
}

impl View for StatementLine {
    type V = StatementLineView;

    open spec fn view(&self) -> StatementLineView {
        StatementLineView {
            value_date: self.value_date,
            entry_date: self.entry_date,
            ext_debit_credit_indicator: self.ext_debit_credit_indicator,
            funds_code: opt_view(self.funds_code),
            amount: self.amount,
            transaction_type_ident_code: self.transaction_type_ident_code,
            customer_ref: self.customer_ref@,
            bank_ref: opt_view(self.bank_ref),
            supplementary_details: opt_view(self.supplementary_details),
            information_to_account_owner: opt_view(self.information_to_account_owner),
        }
    }
}

/// A single, parsed MT940 message. Many of these might be contained in a bank statement.
#[derive(Debug, Clone, PartialEq, Eq)]
pub struct Message {
    /// Tag `:20:`
    pub transaction_ref_no: String,
    /// Tag `:21:`
    pub ref_to_related_msg: Option<String>,
    /// Tag `:25:`
    pub account_id: String,
    /// Tag `:28C:`
    pub statement_no: String,
    /// Optional part of tag `:28C:`
    pub sequence_no: Option<String>,
    /// Tag `:60F:` or `:60M:`
    pub opening_balance: Balance,
    /// Tag `:61:` with the `:86:` that follow it.
    pub statement_lines: Vec<StatementLine>,
    /// Tag `:62F:` or `:62M:`
    pub closing_balance: Balance,
    /// Tag `:64:`
    pub closing_available_balance: Option<AvailableBalance>,
    /// Tag `:65:`
    pub forward_available_balance: Option<AvailableBalance>,
    /// Tag `:86:` where it does not follow a statement line.
    pub information_to_account_owner: Option<String>,
}

pub struct MessageView {
    pub transaction_ref_no: Seq<char>,
    pub ref_to_related_msg: Option<Seq<char>>,
    pub account_id: Seq<char>,
    pub statement_no: Seq<char>,
    pub sequence_no: Option<Seq<char>>,
    pub opening_balance: BalanceView,
    pub statement_lines: Seq<StatementLineView>,
    pub closing_balance: BalanceView,
    pub closing_available_balance: Option<AvailableBalanceView>,
    pub forward_available_balance: Option<AvailableBalanceView>,
    pub information_to_account_owner: Option<Seq<char>>,
}

pub open spec fn opt_available_view(o: Option<AvailableBalance>) -> Option<AvailableBalanceView> {
    match o {
        Some(b) => Some(b@),
        None => None,
    }
}

pub open spec fn lines_view(v: Seq<StatementLine>) -> Seq<StatementLineView> {
    v.map_values(|l: StatementLine| l@)
}

impl View for Message {
    type V = MessageView;

    open spec fn view(&self) -> MessageView {
        MessageView {
            transaction_ref_no: self.transaction_ref_no@,
            ref_to_related_msg: opt_view(self.ref_to_related_msg),
            account_id: self.account_id@,
            statement_no: self.statement_no@,
            sequence_no: opt_view(self.sequence_no),
            opening_balance: self.opening_balance@,
            statement_lines: lines_view(self.statement_lines@),
            closing_balance: self.closing_balance@,
            closing_available_balance: opt_available_view(self.closing_available_balance),
            forward_available_balance: opt_available_view(self.forward_available_balance),
            information_to_account_owner: opt_view(self.information_to_account_owner),
        }
    }
}

} // verus!
