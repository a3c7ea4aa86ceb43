//! Assembly of fields into messages, through a state machine over the tags.
use vstd::prelude::*;
use crate::errors::{
    GrammarError, GrammarRule, ParseError, ParseErrorView, RequiredTagNotFoundError,
    UnexpectedTagError,
};
use crate::fields::{Field, fields_view, parse_fields, tokenize};
use crate::model::{
    AvailableBalance, AvailableBalanceView, Balance, BalanceView, Message, MessageView,
    StatementLine, StatementLineView, lines_view, opt_available_view, opt_view,
};
use crate::tag_parsers::{
    available_field_spec, balance_field_spec, information_spec, parse_20_tag, parse_21_tag,
    parse_25_tag, parse_28c_tag, parse_60_tag, parse_61_tag, parse_62_tag, parse_64_tag,
    parse_65_tag, parse_86_tag, ref_field_spec, statement_line_spec, statement_no_spec,
};
use crate::text::{chars_of, same_chars, string_of};

verus! {

/// The role of a tag in a message.
#[derive(Debug, Clone, Copy, PartialEq, Eq, Structural)]
pub enum TagKind {
    /// `:20:`
    TransactionRefNo,
    /// `:21:`
    RefToRelatedMsg,
    /// `:25:`
    AccountId,
    /// `:28C:`
    StatementNo,
    /// `:60F:` or `:60M:`
    OpeningBalance,
    /// `:61:`
    StatementLine,
    /// `:86:`
    Information,
    /// `:62F:` or `:62M:`
    ClosingBalance,
    /// `:64:`
    ClosingAvailableBalance,
    /// `:65:`
    ForwardAvailableBalance,
}

/// The role of the tag `t`, or `None` for a tag outside the vocabulary. The older `:28:` is
/// outside it: it is listed as expected after `:25:`, but no decoder reads it.
pub open spec fn kind_of(t: Seq<char>) -> Option<TagKind> {
    if t == seq!['2', '0'] {
        Some(TagKind::TransactionRefNo)
    } else if t == seq!['2', '1'] {
        Some(TagKind::RefToRelatedMsg)
    } else if t == seq!['2', '5'] {
        Some(TagKind::AccountId)
    } else if t == seq!['2', '8', 'C'] {
        Some(TagKind::StatementNo)
    } else if t == seq!['6', '0', 'M'] || t == seq!['6', '0', 'F'] {
        Some(TagKind::OpeningBalance)
    } else if t == seq!['6', '1'] {
        Some(TagKind::StatementLine)
    } else if t == seq!['8', '6'] {
        Some(TagKind::Information)
    } else if t == seq!['6', '2', 'M'] || t == seq!['6', '2', 'F'] {
        Some(TagKind::ClosingBalance)
    } else if t == seq!['6', '4'] {
        Some(TagKind::ClosingAvailableBalance)
    } else if t == seq!['6', '5'] {
        Some(TagKind::ForwardAvailableBalance)
    } else {
        None
    }
}

/// Whether a tag of kind `k` may follow the last tag seen (`None` before the first one).
pub open spec fn accepts(last: Option<TagKind>, k: TagKind) -> bool {
    match last {
        None => k == TagKind::TransactionRefNo,
        Some(TagKind::TransactionRefNo) => k == TagKind::RefToRelatedMsg || k == TagKind::AccountId,
        Some(TagKind::RefToRelatedMsg) => k == TagKind::AccountId,
        Some(TagKind::AccountId) => k == TagKind::StatementNo,
        Some(TagKind::StatementNo) => k == TagKind::OpeningBalance,
        Some(TagKind::OpeningBalance) | Some(TagKind::StatementLine) | Some(
            TagKind::Information,
        ) => k == TagKind::StatementLine || k == TagKind::ClosingBalance || k
            == TagKind::Information,
        Some(TagKind::ClosingBalance) => k == TagKind::ClosingAvailableBalance || k
            == TagKind::ForwardAvailableBalance || k == TagKind::Information,
        Some(TagKind::ClosingAvailableBalance) | Some(TagKind::ForwardAvailableBalance) => k
            == TagKind::ForwardAvailableBalance || k == TagKind::Information,
    }
}

/// The tags that an unexpected-tag error lists as expected after the last tag seen.
pub open spec fn expected_tags(last: Option<TagKind>) -> Seq<Seq<char>> {
    match last {
        None => seq![seq!['2', '0']],
        Some(TagKind::TransactionRefNo) => seq![seq!['2', '1'], seq!['2', '5']],
        Some(TagKind::RefToRelatedMsg) => seq![seq!['2', '5']],
        Some(TagKind::AccountId) => seq![seq!['2', '8'], seq!['2', '8', 'C']],
        Some(TagKind::StatementNo) => seq![seq!['6', '0', 'M'], seq!['6', '0', 'F']],
        Some(TagKind::OpeningBalance) | Some(TagKind::Information) => seq![
            seq!['6', '1'],
            seq!['6', '2', 'M'],
            seq!['6', '2', 'F'],
            seq!['8', '6'],
        ],
        Some(TagKind::StatementLine) => seq![
            seq!['6', '1'],
            seq!['8', '6'],
            seq!['6', '2', 'M'],
            seq!['6', '2', 'F'],
        ],
        Some(TagKind::ClosingBalance) => seq![seq!['6', '4'], seq!['6', '5'], seq!['8', '6']],
        Some(TagKind::ClosingAvailableBalance) | Some(TagKind::ForwardAvailableBalance) => seq![
            seq!['6', '5'],
            seq!['8', '6'],
        ],
    }
}

/// What has been read of a message so far.
pub struct DraftView {
    pub transaction_ref_no: Option<Seq<char>>,
    pub ref_to_related_msg: Option<Seq<char>>,
    pub account_id: Option<Seq<char>>,
    pub statement_no: Option<Seq<char>>,
    pub sequence_no: Option<Seq<char>>,
    pub opening_balance: Option<BalanceView>,
    pub statement_lines: Seq<StatementLineView>,
    pub closing_balance: Option<BalanceView>,
    pub closing_available_balance: Option<AvailableBalanceView>,
    pub forward_available_balance: Option<AvailableBalanceView>,
    pub information_to_account_owner: Option<Seq<char>>,
}

pub open spec fn empty_draft() -> DraftView {
    DraftView {
        transaction_ref_no: None,
        ref_to_related_msg: None,
        account_id: None,
        statement_no: None,
        sequence_no: None,
        opening_balance: None,
        statement_lines: Seq::empty(),
        closing_balance: None,
        closing_available_balance: None,
        forward_available_balance: None,
        information_to_account_owner: None,
    }
}

/// Free text `t` added after the text `o` already held.
pub open spec fn append_info(o: Option<Seq<char>>, t: Seq<char>) -> Option<Seq<char>> {
    match o {
        Some(i) => Some(i + t),
        None => Some(t),
    }
}

/// A `:86:` that follows a `:61:` or another `:86:` belongs to the last statement line.
pub open spec fn info_follows_line(last: Option<TagKind>) -> bool {
    last == Some(TagKind::StatementLine) || last == Some(TagKind::Information)
}

pub open spec fn with_info(l: StatementLineView, t: Seq<char>) -> StatementLineView {
    StatementLineView { information_to_account_owner: append_info(l.information_to_account_owner, t), ..l }
}

/// The draft after the free text `t` of a `:86:` that follows a tag of kind `last`: added to
/// the last statement line where it follows a `:61:` or a `:86:` (and dropped where there is no
/// statement line), else added to the message.
pub open spec fn with_information(d: DraftView, last: Option<TagKind>, t: Seq<char>) -> DraftView {
    if info_follows_line(last) {
        if d.statement_lines.len() > 0 {
            let n = d.statement_lines.len() - 1;
            DraftView {
                statement_lines: d.statement_lines.update(n, with_info(d.statement_lines[n], t)),
                ..d
            }
        } else {
            d
        }
    } else {
        DraftView {
            information_to_account_owner: append_info(d.information_to_account_owner, t),
            ..d
        }
    }
}

/// The draft after the field `f`, of kind `k`, was decoded into it.
pub open spec fn apply_spec(d: DraftView, last: Option<TagKind>, k: TagKind, f: (Seq<char>, Seq<char>)) -> Result<
    DraftView,
    ParseErrorView,
> {
    match k {
        TagKind::TransactionRefNo => match ref_field_spec(f, seq!['2', '0'], 16, GrammarRule::TransactionRefNo) {
            Ok(v) => Ok(DraftView { transaction_ref_no: Some(v), ..d }),
            Err(e) => Err(e),
        },
        TagKind::RefToRelatedMsg => match ref_field_spec(f, seq!['2', '1'], 16, GrammarRule::RefToRelatedMsg) {
            Ok(v) => Ok(DraftView { ref_to_related_msg: Some(v), ..d }),
            Err(e) => Err(e),
        },
        TagKind::AccountId => match ref_field_spec(f, seq!['2', '5'], 35, GrammarRule::AccountId) {
            Ok(v) => Ok(DraftView { account_id: Some(v), ..d }),
            Err(e) => Err(e),
        },
        TagKind::StatementNo => match statement_no_spec(f) {
            Ok((n, s)) => Ok(DraftView { statement_no: Some(n), sequence_no: s, ..d }),
            Err(e) => Err(e),
        },
        TagKind::OpeningBalance => match balance_field_spec(f, seq!['6', '0']) {
            Ok(b) => Ok(DraftView { opening_balance: Some(b), ..d }),
            Err(e) => Err(e),
        },
        TagKind::StatementLine => match statement_line_spec(f) {
            Ok(l) => Ok(DraftView { statement_lines: d.statement_lines.push(l), ..d }),
            Err(e) => Err(e),
        },
        TagKind::Information => match information_spec(f) {
            Ok(t) => Ok(with_information(d, last, t)),
            Err(e) => Err(e),
        },
        TagKind::ClosingBalance => match balance_field_spec(f, seq!['6', '2']) {
            Ok(b) => Ok(DraftView { closing_balance: Some(b), ..d }),
            Err(e) => Err(e),
        },
        TagKind::ClosingAvailableBalance => match available_field_spec(f, seq!['6', '4']) {
            Ok(b) => Ok(DraftView { closing_available_balance: Some(b), ..d }),
            Err(e) => Err(e),
        },
        TagKind::ForwardAvailableBalance => match available_field_spec(f, seq!['6', '5']) {
            Ok(b) => Ok(DraftView { forward_available_balance: Some(b), ..d }),
            Err(e) => Err(e),
        },
    }
}

/// The state of the machine: the draft, the kind and the text of the last tag seen.
pub type MachineState = Result<(DraftView, Option<TagKind>, Seq<char>), ParseErrorView>;

/// One transition: an unknown tag is refused first, then a tag that may not follow the last
/// one, then a value that does not decode.
pub open spec fn transition(st: MachineState, f: (Seq<char>, Seq<char>)) -> MachineState {
    match st {
        Err(e) => Err(e),
        Ok((d, last, last_tag)) => match kind_of(f.0) {
            None => Err(ParseErrorView::UnknownTag(f.0)),
            Some(k) => if !accepts(last, k) {
                Err(ParseErrorView::UnexpectedTag(f.0, last_tag, expected_tags(last)))
            } else {
                match apply_spec(d, last, k, f) {
                    Ok(d2) => Ok((d2, Some(k), f.0)),
                    Err(e) => Err(e),
                }
            },
        },
    }
}

/// The state after the first `n` fields.
pub open spec fn run_machine(fs: Seq<(Seq<char>, Seq<char>)>, n: int) -> MachineState
    decreases n,
{
    if n <= 0 {
        Ok((empty_draft(), None, Seq::empty()))
    } else {
        transition(run_machine(fs, n - 1), fs[n - 1])
    }
}

/// The message that a finished draft makes, or the first required tag it lacks.
pub open spec fn finish_spec(d: DraftView) -> Result<MessageView, ParseErrorView> {
    if d.transaction_ref_no is None {
        Err(ParseErrorView::RequiredTagNotFound(seq!['2', '0']))
    } else if d.account_id is None {
        Err(ParseErrorView::RequiredTagNotFound(seq!['2', '5']))
    } else if d.statement_no is None {
        Err(ParseErrorView::RequiredTagNotFound(seq!['2', '8', 'C']))
    } else if d.opening_balance is None {
        Err(ParseErrorView::RequiredTagNotFound(seq!['6', '0']))
    } else if d.closing_balance is None {
        Err(ParseErrorView::RequiredTagNotFound(seq!['6', '2']))
    } else {
        Ok(
            MessageView {
                transaction_ref_no: d.transaction_ref_no->Some_0,
                ref_to_related_msg: d.ref_to_related_msg,
                account_id: d.account_id->Some_0,
                statement_no: d.statement_no->Some_0,
                sequence_no: d.sequence_no,
                opening_balance: d.opening_balance->Some_0,
                statement_lines: d.statement_lines,
                closing_balance: d.closing_balance->Some_0,
                closing_available_balance: d.closing_available_balance,
                forward_available_balance: d.forward_available_balance,
                information_to_account_owner: d.information_to_account_owner,
            },
        )
    }
}

/// The message that the fields `fs` make.
#[verifier::opaque]
pub open spec fn assemble(fs: Seq<(Seq<char>, Seq<char>)>) -> Result<MessageView, ParseErrorView> {
    match run_machine(fs, fs.len() as int) {
        Err(e) => Err(e),
        Ok((d, _, _)) => finish_spec(d),
    }
}

fn lit(a: char, b: char) -> (r: Vec<char>)
    ensures
        r@ == seq![a, b],
{
    let r = vec![a, b];
    assert(r@ =~= seq![a, b]);
    r
}

fn lit3(a: char, b: char, c: char) -> (r: Vec<char>)
    ensures
        r@ == seq![a, b, c],
{
    let r = vec![a, b, c];
    assert(r@ =~= seq![a, b, c]);
    r
}

fn classify(t: &Vec<char>) -> (r: Option<TagKind>)
    ensures
        r == kind_of(t@),
{
    if same_chars(t, &lit('2', '0')) {
        Some(TagKind::TransactionRefNo)
    } else if same_chars(t, &lit('2', '1')) {
        Some(TagKind::RefToRelatedMsg)
    } else if same_chars(t, &lit('2', '5')) {
        Some(TagKind::AccountId)
    } else if same_chars(t, &lit3('2', '8', 'C')) {
        Some(TagKind::StatementNo)
    } else if same_chars(t, &lit3('6', '0', 'M')) || same_chars(t, &lit3('6', '0', 'F')) {
        Some(TagKind::OpeningBalance)
    } else if same_chars(t, &lit('6', '1')) {
        Some(TagKind::StatementLine)
    } else if same_chars(t, &lit('8', '6')) {
        Some(TagKind::Information)
    } else if same_chars(t, &lit3('6', '2', 'M')) || same_chars(t, &lit3('6', '2', 'F')) {
        Some(TagKind::ClosingBalance)
    } else if same_chars(t, &lit('6', '4')) {
        Some(TagKind::ClosingAvailableBalance)
    } else if same_chars(t, &lit('6', '5')) {
        Some(TagKind::ForwardAvailableBalance)
    } else {
        None
    }
}

fn accepts_exec(last: Option<TagKind>, k: TagKind) -> (r: bool)
    ensures
        r == accepts(last, k),
{
    match last {
        None => k == TagKind::TransactionRefNo,
        Some(TagKind::TransactionRefNo) => k == TagKind::RefToRelatedMsg || k == TagKind::AccountId,
        Some(TagKind::RefToRelatedMsg) => k == TagKind::AccountId,
        Some(TagKind::AccountId) => k == TagKind::StatementNo,
        Some(TagKind::StatementNo) => k == TagKind::OpeningBalance,
        Some(TagKind::OpeningBalance) | Some(TagKind::StatementLine) | Some(
            TagKind::Information,
        ) => k == TagKind::StatementLine || k == TagKind::ClosingBalance || k
            == TagKind::Information,
        Some(TagKind::ClosingBalance) => k == TagKind::ClosingAvailableBalance || k
            == TagKind::ForwardAvailableBalance || k == TagKind::Information,
        Some(TagKind::ClosingAvailableBalance) | Some(TagKind::ForwardAvailableBalance) => k
            == TagKind::ForwardAvailableBalance || k == TagKind::Information,
    }
}

fn tags_of(v: Vec<Vec<char>>) -> (r: Vec<String>)
    ensures
        r.deep_view() == v.deep_view(),
{
    let mut r: Vec<String> = Vec::new();
    let mut i: usize = 0;
    while i < v.len()
        invariant
            i <= v.len(),
            r.len() == i,
            forall|k: int| 0 <= k < i ==> #[trigger] r@[k]@ == v@[k]@,
        decreases v.len() - i,
    {
        r.push(string_of(&v[i]));
        i = i + 1;
    }
    assert forall|k: int| 0 <= k < v.len() implies r.deep_view()[k] == v.deep_view()[k] by {
        crate::text::lemma_deep_view_chars(v@[k]);
    }
    assert(r.deep_view() =~= v.deep_view());
    r
}

fn expected_tags_exec(last: Option<TagKind>) -> (r: Vec<String>)
    ensures
        r.deep_view() == expected_tags(last),
{
    let v: Vec<Vec<char>> = match last {
        None => vec![lit('2', '0')],
        Some(TagKind::TransactionRefNo) => vec![lit('2', '1'), lit('2', '5')],
        Some(TagKind::RefToRelatedMsg) => vec![lit('2', '5')],
        Some(TagKind::AccountId) => vec![lit('2', '8'), lit3('2', '8', 'C')],
        Some(TagKind::StatementNo) => vec![lit3('6', '0', 'M'), lit3('6', '0', 'F')],
        Some(TagKind::OpeningBalance) | Some(TagKind::Information) => vec![
            lit('6', '1'),
            lit3('6', '2', 'M'),
            lit3('6', '2', 'F'),
            lit('8', '6'),
        ],
        Some(TagKind::StatementLine) => vec![
            lit('6', '1'),
            lit('8', '6'),
            lit3('6', '2', 'M'),
            lit3('6', '2', 'F'),
        ],
        Some(TagKind::ClosingBalance) => vec![lit('6', '4'), lit('6', '5'), lit('8', '6')],
        Some(TagKind::ClosingAvailableBalance) | Some(TagKind::ForwardAvailableBalance) => vec![
            lit('6', '5'),
            lit('8', '6'),
        ],
    };
    proof {
        assert forall|k: int| 0 <= k < v.len() implies v.deep_view()[k] == v@[k]@ by {
            crate::text::lemma_deep_view_chars(v@[k]);
        }
        assert(v.deep_view() =~= expected_tags(last));
    }
    tags_of(v)
}

/// What has been read of a message so far.
struct Draft {
    transaction_ref_no: Option<String>,
    ref_to_related_msg: Option<String>,
    account_id: Option<String>,
    statement_no: Option<String>,
    sequence_no: Option<String>,
    opening_balance: Option<Balance>,
    statement_lines: Vec<StatementLine>,
    closing_balance: Option<Balance>,
    closing_available_balance: Option<AvailableBalance>,
    forward_available_balance: Option<AvailableBalance>,
    information_to_account_owner: Option<String>,
}

spec fn opt_balance_view(o: Option<Balance>) -> Option<BalanceView> {
    match o {
        Some(b) => Some(b@),
        None => None,
    }
}

impl View for Draft {
    type V = DraftView;

    closed spec fn view(&self) -> DraftView {
        DraftView {
            transaction_ref_no: opt_view(self.transaction_ref_no),
            ref_to_related_msg: opt_view(self.ref_to_related_msg),
            account_id: opt_view(self.account_id),
            statement_no: opt_view(self.statement_no),
            sequence_no: opt_view(self.sequence_no),
            opening_balance: opt_balance_view(self.opening_balance),
            statement_lines: lines_view(self.statement_lines@),
            closing_balance: opt_balance_view(self.closing_balance),
            closing_available_balance: opt_available_view(self.closing_available_balance),
            forward_available_balance: opt_available_view(self.forward_available_balance),
            information_to_account_owner: opt_view(self.information_to_account_owner),
        }
    }
}

fn append_text(o: Option<String>, t: String) -> (r: Option<String>)
    ensures
        opt_view(r) == append_info(opt_view(o), t@),
{
    match o {
        Some(mut i) => {
            i.append(t.as_str());
            Some(i)
        },
        None => Some(t),
    }
}

impl Draft {
    fn new() -> (r: Draft)
        ensures
            r@ == empty_draft(),
    {
        let r = Draft {
            transaction_ref_no: None,
            ref_to_related_msg: None,
            account_id: None,
            statement_no: None,
            sequence_no: None,
            opening_balance: None,
            statement_lines: Vec::new(),
            closing_balance: None,
            closing_available_balance: None,
            forward_available_balance: None,
            information_to_account_owner: None,
        };
        assert(r@.statement_lines =~= Seq::<StatementLineView>::empty());
        r
    }

    /// Adds the free text `t` where a `:86:` after the tag of kind `last` belongs.
    fn add_information(&mut self, last: Option<TagKind>, t: String)
        ensures
            final(self)@ == with_information(old(self)@, last, t@),
    {
        let after_line = matches!(last, Some(TagKind::StatementLine) | Some(TagKind::Information));
        if after_line {
            if self.statement_lines.len() == 0 {
                return;
            }
            let ghost before = self.statement_lines@;
            match self.statement_lines.pop() {
                Some(mut l) => {
                    let info = l.information_to_account_owner.take();
                    l.information_to_account_owner = append_text(info, t);
                    let ghost lv = l@;
                    self.statement_lines.push(l);
                    proof {
                        let n = before.len() - 1;
                        assert(lv == with_info(lines_view(before)[n], t@));
                        assert(lines_view(self.statement_lines@) =~= lines_view(before).update(
                            n,
                            lv,
                        ));
                    }
                },
                None => {},
            }
        } else {
            let info = self.information_to_account_owner.take();
            self.information_to_account_owner = append_text(info, t);
        }
    }

    /// Decodes the field `f`, of kind `k`, into the draft.
    fn apply(&mut self, last: Option<TagKind>, k: TagKind, f: &Field) -> (r: Result<(), ParseError>)
        ensures
            match apply_spec(old(self)@, last, k, f@) {
                Ok(d) => r is Ok && final(self)@ == d,
                Err(e) => r is Err && r->Err_0@ == e,
            },
    {
        match k {
            TagKind::TransactionRefNo => {
                let v = parse_20_tag(f)?;
                self.transaction_ref_no = Some(v);
            },
            TagKind::RefToRelatedMsg => {
                let v = parse_21_tag(f)?;
                self.ref_to_related_msg = Some(v);
            },
            TagKind::AccountId => {
                let v = parse_25_tag(f)?;
                self.account_id = Some(v);
            },
            TagKind::StatementNo => {
                let (n, s) = parse_28c_tag(f)?;
                self.statement_no = Some(n);
                self.sequence_no = s;
            },
            TagKind::OpeningBalance => {
                let b = parse_60_tag(f)?;
                self.opening_balance = Some(b);
            },
            TagKind::StatementLine => {
                let l = parse_61_tag(f)?;
                let ghost before = self.statement_lines@;
                self.statement_lines.push(l);
                assert(lines_view(self.statement_lines@) =~= lines_view(before).push(l@));
            },
            TagKind::Information => {
                let t = parse_86_tag(f)?;
                self.add_information(last, t);
            },
            TagKind::ClosingBalance => {
                let b = parse_62_tag(f)?;
                self.closing_balance = Some(b);
            },
            TagKind::ClosingAvailableBalance => {
                let b = parse_64_tag(f)?;
                self.closing_available_balance = Some(b);
            },
            TagKind::ForwardAvailableBalance => {
                let b = parse_65_tag(f)?;
                self.forward_available_balance = Some(b);
            },
        }
        Ok(())
    }
}

fn required(tag: Vec<char>) -> (r: ParseError)
    ensures
        r@ == ParseErrorView::RequiredTagNotFound(tag@),
{
    ParseError::RequiredTagNotFoundError(RequiredTagNotFoundError { required_tag: string_of(&tag) })
}

impl Draft {
    /// The message, once every field was read.
    fn finish(self) -> (r: Result<Message, ParseError>)
        ensures
            match finish_spec(self@) {
                Ok(m) => r is Ok && r->Ok_0@ == m,
                Err(e) => r is Err && r->Err_0@ == e,
            },
    {
        let transaction_ref_no = match self.transaction_ref_no {
            Some(v) => v,
            None => {
                return Err(required(lit('2', '0')));
            },
        };
        let account_id = match self.account_id {
            Some(v) => v,
            None => {
                return Err(required(lit('2', '5')));
            },
        };
        let statement_no = match self.statement_no {
            Some(v) => v,
            None => {
                return Err(required(lit3('2', '8', 'C')));
            },
        };
        let opening_balance = match self.opening_balance {
            Some(v) => v,
            None => {
                return Err(required(lit('6', '0')));
            },
        };
        let closing_balance = match self.closing_balance {
            Some(v) => v,
            None => {
                return Err(required(lit('6', '2')));
            },
        };
        Ok(
            Message {
                transaction_ref_no,
                ref_to_related_msg: self.ref_to_related_msg,
                account_id,
                statement_no,
                sequence_no: self.sequence_no,
                opening_balance,
                statement_lines: self.statement_lines,
                closing_balance,
                closing_available_balance: self.closing_available_balance,
                forward_available_balance: self.forward_available_balance,
                information_to_account_owner: self.information_to_account_owner,
            },
        )
    }
}

pub open spec fn message_result_view(r: Result<Message, ParseError>) -> Result<MessageView, ParseErrorView> {
    match r {
        Ok(m) => Ok(m@),
        Err(e) => Err(e@),
    }
}

proof fn lemma_machine_error_stays(fs: Seq<(Seq<char>, Seq<char>)>, k: int, m: int)
    requires
        0 <= k <= m,
        run_machine(fs, k) is Err,
    ensures
        run_machine(fs, m) == run_machine(fs, k),
    decreases m - k,
{
    if m > k {
        lemma_machine_error_stays(fs, k, m - 1);
    }
}

/// The message that the fields `fields[from..to]` make.
fn assemble_range(fields: &Vec<Field>, from: usize, to: usize) -> (r: Result<Message, ParseError>)
    requires
        from <= to <= fields.len(),
    ensures
        message_result_view(r) == assemble(fields_view(fields@.subrange(from as int, to as int))),
{
    let ghost fs = fields_view(fields@.subrange(from as int, to as int));
    proof {
        reveal(assemble);
    }
    let mut draft = Draft::new();
    let mut last: Option<TagKind> = None;
    let mut last_tag: Vec<char> = Vec::new();
    let mut i: usize = from;
    while i < to
        invariant
            from <= i <= to <= fields.len(),
            fs == fields_view(fields@.subrange(from as int, to as int)),
            run_machine(fs, i - from) == Ok::<_, ParseErrorView>((draft@, last, last_tag@)),
        decreases to - i,
    {
        let f = &fields[i];
        assert(fs[i - from] == f@);
        let tag = chars_of(f.tag.as_str());
        let k = match classify(&tag) {
            Some(k) => k,
            None => {
                proof {
                    reveal(assemble);
                    lemma_machine_error_stays(fs, i - from + 1, fs.len() as int);
                }
                return Err(ParseError::UnknownTagError(string_of(&tag)));
            },
        };
        if !accepts_exec(last, k) {
            proof {
                reveal(assemble);
                lemma_machine_error_stays(fs, i - from + 1, fs.len() as int);
            }
            return Err(
                ParseError::UnexpectedTagError(
                    UnexpectedTagError {
                        current_tag: string_of(&tag),
                        last_tag: string_of(&last_tag),
                        expected_tags: expected_tags_exec(last),
                    },
                ),
            );
        }
        match draft.apply(last, k, f) {
            Ok(()) => {},
            Err(e) => {
                proof {
                    reveal(assemble);
                    lemma_machine_error_stays(fs, i - from + 1, fs.len() as int);
                }
                return Err(e);
            },
        }
        last = Some(k);
        last_tag = tag;
        i = i + 1;
    }
    draft.finish()
}

impl Message {
    /// Construct a new `Message` from a list of fields.
    ///
    /// Must start with field `:20:`. Must not contain more than one `:20:` tag.
    pub fn from_fields(fields: Vec<Field>) -> (r: Result<Message, ParseError>)
        ensures
            message_result_view(r) == assemble(fields_view(fields@)),
    {
        assert(fields@.subrange(0, fields.len() as int) == fields@);
        assemble_range(&fields, 0, fields.len())
    }
}

/// The fields split into messages: a new message starts at each `:20:` tag. Fields in front
/// of the first `:20:` form a message of their own (which then fails to assemble).
pub open spec fn split_messages(fs: Seq<(Seq<char>, Seq<char>)>) -> Seq<Seq<(Seq<char>, Seq<char>)>>
    decreases fs.len(),
{
    if fs.len() == 0 {
        Seq::empty()
    } else {
        let prev = split_messages(fs.drop_last());
        let f = fs.last();
        if f.0 == seq!['2', '0'] || prev.len() == 0 {
            prev.push(seq![f])
        } else {
            prev.update(prev.len() - 1, prev.last().push(f))
        }
    }
}

/// The messages that the groups `gs[0..n]` make, or the first error.
pub open spec fn messages_spec(gs: Seq<Seq<(Seq<char>, Seq<char>)>>, n: int) -> Result<
    Seq<MessageView>,
    ParseErrorView,
>
    decreases n,
{
    if n <= 0 {
        Ok(Seq::empty())
    } else {
        match messages_spec(gs, n - 1) {
            Err(e) => Err(e),
            Ok(ms) => match assemble(gs[n - 1]) {
                Ok(m) => Ok(ms.push(m)),
                Err(e) => Err(e),
            },
        }
    }
}

/// What parsing the statement `s` gives.
pub open spec fn parse_spec(s: Seq<char>) -> Result<Seq<MessageView>, ParseErrorView> {
    match tokenize(s) {
        Err(line) => Err(ParseErrorView::Grammar(GrammarRule::Fields, line)),
        Ok(fs) => {
            let gs = split_messages(fs);
            if gs.len() == 0 {
                Err(ParseErrorView::RequiredTagNotFound(seq!['2', '0']))
            } else {
                messages_spec(gs, gs.len() as int)
            }
        },
    }
}

/// The groups that start at `starts`, the last one ending at `end`.
pub open spec fn ranges_view(
    fs: Seq<(Seq<char>, Seq<char>)>,
    starts: Seq<usize>,
    end: int,
) -> Seq<Seq<(Seq<char>, Seq<char>)>> {
    Seq::new(
        starts.len(),
        |k: int|
            fs.subrange(
                starts[k] as int,
                if k + 1 < starts.len() {
                    starts[k + 1] as int
                } else {
                    end
                },
            ),
    )
}

fn is_ref_tag(f: &Field) -> (r: bool)
    ensures
        r == (f@.0 == seq!['2', '0']),
{
    let tag = chars_of(f.tag.as_str());
    same_chars(&tag, &lit('2', '0'))
}

/// Where the messages start.
fn message_starts(fields: &Vec<Field>) -> (starts: Vec<usize>)
    ensures
        ranges_view(fields_view(fields@), starts@, fields.len() as int) == split_messages(
            fields_view(fields@),
        ),
        forall|k: int| 0 <= k < starts.len() ==> starts@[k] < fields.len(),
        forall|k: int| 0 < k < starts.len() ==> starts@[k - 1] < #[trigger] starts@[k],
{
    let ghost fs = fields_view(fields@);
    let mut starts: Vec<usize> = Vec::new();
    let mut i: usize = 0;
    while i < fields.len()
        invariant
            i <= fields.len(),
            fs == fields_view(fields@),
            ranges_view(fs, starts@, i as int) == split_messages(fs.subrange(0, i as int)),
            forall|k: int| 0 <= k < starts.len() ==> starts@[k] < i,
            forall|k: int| 0 < k < starts.len() ==> starts@[k - 1] < #[trigger] starts@[k],
            starts.len() > 0 ==> starts@[0] == 0,
            i > 0 ==> starts.len() > 0,
        decreases fields.len() - i,
    {
        let ghost pre = fs.subrange(0, i as int);
        let ghost next = fs.subrange(0, i + 1);
        let ghost old_starts = starts@;
        assert(next.drop_last() == pre);
        assert(next.last() == fs[i as int]);
        if is_ref_tag(&fields[i]) || starts.len() == 0 {
            starts.push(i);
            assert(ranges_view(fs, starts@, i + 1) =~= ranges_view(fs, old_starts, i as int).push(
                seq![fs[i as int]],
            )) by {
                let a = ranges_view(fs, starts@, i + 1);
                let b = ranges_view(fs, old_starts, i as int).push(seq![fs[i as int]]);
                assert forall|k: int| 0 <= k < a.len() implies a[k] == b[k] by {
                    if k + 1 == a.len() {
                        assert(a[k] =~= seq![fs[i as int]]);
                    }
                }
            }
        } else {
            let ghost prev = split_messages(pre);
            assert(ranges_view(fs, starts@, i + 1) =~= prev.update(
                prev.len() - 1,
                prev.last().push(fs[i as int]),
            )) by {
                let a = ranges_view(fs, starts@, i + 1);
                let b = prev.update(prev.len() - 1, prev.last().push(fs[i as int]));
                assert forall|k: int| 0 <= k < a.len() implies a[k] == b[k] by {
                    if k + 1 == a.len() {
                        assert(a[k] =~= b[k]);
                    }
                }
            }
        }
        i = i + 1;
    }
    assert(fs.subrange(0, fields.len() as int) == fs);
    starts
}

pub open spec fn messages_result_view(r: Result<Vec<Message>, ParseError>) -> Result<
    Seq<MessageView>,
    ParseErrorView,
> {
    match r {
        Ok(v) => Ok(v@.map_values(|m: Message| m@)),
        Err(e) => Err(e@),
    }
}

proof fn lemma_messages_error_stays(gs: Seq<Seq<(Seq<char>, Seq<char>)>>, k: int, m: int)
    requires
        0 <= k <= m,
        messages_spec(gs, k) is Err,
    ensures
        messages_spec(gs, m) == messages_spec(gs, k),
    decreases m - k,
{
    if m > k {
        lemma_messages_error_stays(gs, k, m - 1);
    }
}

/// The messages that the groups of `fields` make.
#[verifier::rlimit(60)]
fn assemble_all(fields: &Vec<Field>) -> (r: Result<Vec<Message>, ParseError>)
    ensures
        ({
            let gs = split_messages(fields_view(fields@));
            messages_result_view(r) == if gs.len() == 0 {
                Err(ParseErrorView::RequiredTagNotFound(seq!['2', '0']))
            } else {
                messages_spec(gs, gs.len() as int)
            }
        }),
{
    let ghost fs = fields_view(fields@);
    let starts = message_starts(fields);
    let ghost gs = split_messages(fs);
    if starts.len() == 0 {
        return Err(required(lit('2', '0')));
    }
    let mut messages: Vec<Message> = Vec::new();
    assert(messages@.map_values(|m: Message| m@) =~= Seq::<MessageView>::empty());
    let mut k: usize = 0;
    while k < starts.len()
        invariant
            k <= starts.len(),
            fs == fields_view(fields@),
            gs == split_messages(fs),
            ranges_view(fs, starts@, fields.len() as int) == gs,
            forall|j: int| 0 <= j < starts.len() ==> starts@[j] < fields.len(),
            forall|j: int| 0 < j < starts.len() ==> starts@[j - 1] < #[trigger] starts@[j],
            messages_spec(gs, k as int) == Ok::<_, ParseErrorView>(
                messages@.map_values(|m: Message| m@),
            ),
        decreases starts.len() - k,
    {
        let from = starts[k];
        let to = if k + 1 < starts.len() {
            starts[k + 1]
        } else {
            fields.len()
        };
        assert(gs[k as int] == fs.subrange(from as int, to as int));
        assert(fs.subrange(from as int, to as int) == fields_view(
            fields@.subrange(from as int, to as int),
        ));
        match assemble_range(fields, from, to) {
            Ok(m) => {
                let ghost before = messages@;
                messages.push(m);
                assert(messages@.map_values(|m: Message| m@) =~= before.map_values(
                    |m: Message| m@,
                ).push(m@));
            },
            Err(e) => {
                proof {
                    lemma_messages_error_stays(gs, k + 1, gs.len() as int);
                }
                return Err(e);
            },
        }
        k = k + 1;
    }
    Ok(messages)
}

/// Parse and validate a MT940 statement: all the messages it holds, in order, or the first
/// error.
pub fn parse_mt940(statement: &str) -> (r: Result<Vec<Message>, ParseError>)
    ensures
        messages_result_view(r) == parse_spec(statement@),
{
    match parse_fields(statement) {
        Ok(fields) => assemble_all(&fields),
        Err(e) => Err(ParseError::GrammarError(e)),
    }
}

} // verus!
