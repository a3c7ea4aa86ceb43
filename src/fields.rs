//! The first pass of the parser: a statement as a list of `:tag:value` fields.
//!
//! Everything in front of the first tag is skipped. From there on the text is a sequence of
//! lines ended by `"\r\n"` (the last one may end with the input); a line holding any other
//! `'\r'` is refused. A line that starts with a tag
//! opens a field; the lines that follow it, up to the next tag line, continue its value. An
//! empty line ends the statement, after which only empty lines may follow. A line that starts
//! with `':'` without being a tag line is refused. A value is its lines joined by `'\n'`,
//! without the white space around it.
use vstd::prelude::*;
use crate::errors::{GrammarError, GrammarRule};
use crate::text::{
    is_alnum, split_lf, trim, chars_of, string_of, slice_of, trimmed,
    split_at_lf, is_alnum_char, lemma_split_lf_nonempty,
};

verus! {

/// A field of a statement, with no validation of its value.
#[derive(Debug, PartialEq, Eq)]
pub struct Field {
    pub tag: String,
    pub value: String,
}

impl View for Field {
    type V = (Seq<char>, Seq<char>);

    open spec fn view(&self) -> (Seq<char>, Seq<char>) {
        (self.tag@, self.value@)
    }
}

impl Field {
    /// The single field that `s` holds.
    pub fn from_str(s: &str) -> (r: Result<Field, GrammarError>)
        ensures
            match r {
                Ok(f) => tokenize(s@) == Ok::<_, Seq<char>>(seq![f@]),
                Err(e) => e.rule == GrammarRule::Fields && match tokenize(s@) {
                    Ok(fs) => fs.len() != 1 && e.input@ == s@,
                    Err(line) => e.input@ == line,
                },
            },
    {
        match parse_fields(s) {
            Ok(mut v) => {
                if v.len() == 1 {
                    let ghost fs = fields_view(v@);
                    match v.pop() {
                        Some(f) => {
                            assert(fs =~= seq![f@]);
                            Ok(f)
                        },
                        None => Err(GrammarError { rule: GrammarRule::Fields, input: String::from_str(s) }),
                    }
                } else {
                    Err(GrammarError { rule: GrammarRule::Fields, input: String::from_str(s) })
                }
            },
            Err(e) => Err(e),
        }
    }

    pub fn new(tag: &str, value: &str) -> (r: Field)
        ensures
            r@ == (tag@, value@),
    {
        Field { tag: String::from_str(tag), value: String::from_str(value) }
    }
}

/// The length of the run of ASCII letters and digits that starts at `i`.
pub open spec fn alnum_run(s: Seq<char>, i: int) -> nat
    decreases s.len() - i,
{
    if 0 <= i < s.len() && is_alnum(s[i]) {
        1 + alnum_run(s, i + 1)
    } else {
        0
    }
}

/// A tag `:X:`, with `X` one or more ASCII letters or digits, starts at `p`.
pub open spec fn tag_at(s: Seq<char>, p: int) -> bool {
    let n = alnum_run(s, p + 1);
    &&& 0 <= p < s.len()
    &&& s[p] == ':'
    &&& n > 0
    &&& p + 1 + n < s.len()
    &&& s[p + 1 + n] == ':'
}

/// The tag of a tag line.
pub open spec fn tag_of_line(line: Seq<char>) -> Seq<char> {
    line.subrange(1, 1 + alnum_run(line, 1) as int)
}

/// What follows the tag on a tag line.
pub open spec fn rest_of_line(line: Seq<char>) -> Seq<char> {
    line.subrange(2 + alnum_run(line, 1) as int, line.len() as int)
}

/// The first position from `i` on where a tag starts, or the length of `s`.
pub open spec fn first_tag_from(s: Seq<char>, i: int) -> int
    decreases s.len() - i,
{
    if i < 0 || i >= s.len() {
        s.len() as int
    } else if tag_at(s, i) {
        i
    } else {
        first_tag_from(s, i + 1)
    }
}

/// The fields read so far, each as its tag and its unjoined raw value, and whether the
/// closing empty line was seen; or the line that broke the grammar.
pub type ScanState = Result<(Seq<(Seq<char>, Seq<char>)>, bool), Seq<char>>;

/// One line of the statement, its `"\r\n"` removed.
pub open spec fn line_step(st: ScanState, line: Seq<char>) -> ScanState {
    match st {
        Err(e) => Err(e),
        Ok((fs, ended)) => {
            if ended {
                if line.len() == 0 {
                    Ok((fs, true))
                } else {
                    Err(line)
                }
            } else if line.contains('\r') {
                Err(line)
            } else if tag_at(line, 0) {
                Ok((fs.push((tag_of_line(line), rest_of_line(line))), false))
            } else if line.len() == 0 {
                Ok((fs, true))
            } else if line[0] == ':' || fs.len() == 0 {
                Err(line)
            } else {
                let last = fs.last();
                Ok((fs.update(fs.len() - 1, (last.0, last.1 + seq!['\n'] + line)), false))
            }
        },
    }
}

/// The line-feed separated pieces `segs[0..n]`; all but the very last piece of the text must
/// end with `'\r'`.
pub open spec fn scan_pieces(segs: Seq<Seq<char>>, n: int) -> ScanState
    decreases n,
{
    if n <= 0 {
        Ok((Seq::empty(), false))
    } else {
        let st = scan_pieces(segs, n - 1);
        let seg = segs[n - 1];
        if n < segs.len() {
            if seg.len() > 0 && seg.last() == '\r' {
                line_step(st, seg.drop_last())
            } else {
                match st {
                    Err(e) => Err(e),
                    Ok(_) => Err(seg),
                }
            }
        } else {
            line_step(st, seg)
        }
    }
}

/// A raw field with its value joined and trimmed.
pub open spec fn finish_field(f: (Seq<char>, Seq<char>)) -> (Seq<char>, Seq<char>) {
    (f.0, trim(f.1))
}

/// The fields of a statement, or the first line that does not conform to the grammar.
pub open spec fn tokenize(s: Seq<char>) -> Result<Seq<(Seq<char>, Seq<char>)>, Seq<char>> {
    let segs = split_lf(s.subrange(first_tag_from(s, 0), s.len() as int));
    match scan_pieces(segs, segs.len() as int) {
        Ok((fs, _)) => Ok(fs.map_values(|f: (Seq<char>, Seq<char>)| finish_field(f))),
        Err(line) => Err(line),
    }
}

/// The text conforms to the field grammar.
pub open spec fn conforms(s: Seq<char>) -> bool {
    tokenize(s) is Ok
}

pub open spec fn fields_view(v: Seq<Field>) -> Seq<(Seq<char>, Seq<char>)> {
    v.map_values(|f: Field| f@)
}

proof fn lemma_alnum_run_step(s: Seq<char>, i: int, j: int)
    requires
        0 <= i <= j < s.len(),
        is_alnum(s[j]),
        alnum_run(s, i) == (j - i) + alnum_run(s, j),
    ensures
        alnum_run(s, i) == (j + 1 - i) + alnum_run(s, j + 1),
{
}

proof fn lemma_scan_error_stays(segs: Seq<Seq<char>>, k: int, m: int)
    requires
        0 <= k <= m,
        scan_pieces(segs, k) is Err,
    ensures
        scan_pieces(segs, m) == scan_pieces(segs, k),
    decreases m - k,
{
    if m > k {
        lemma_scan_error_stays(segs, k, m - 1);
    }
}

/// The length of the tag that starts at `p`, or 0 where no tag starts there.
pub(crate) fn tag_len_at(s: &Vec<char>, p: usize) -> (n: usize)
    ensures
        tag_at(s@, p as int) ==> n == alnum_run(s@, p + 1),
        !tag_at(s@, p as int) ==> n == 0,
{
    if p >= s.len() || s[p] != ':' {
        return 0;
    }
    let mut j: usize = p + 1;
    while j < s.len() && is_alnum_char(s[j])
        invariant
            p + 1 <= j <= s.len(),
            alnum_run(s@, p + 1) == (j - (p + 1)) + alnum_run(s@, j as int),
        decreases s.len() - j,
    {
        proof {
            lemma_alnum_run_step(s@, p + 1, j as int);
        }
        j = j + 1;
    }
    if j > p + 1 && j < s.len() && s[j] == ':' {
        j - (p + 1)
    } else {
        0
    }
}

/// The first position where a tag starts, or the length of `s`.
fn find_first_tag(s: &Vec<char>) -> (p: usize)
    ensures
        p == first_tag_from(s@, 0),
        p <= s.len(),
{
    let mut i: usize = 0;
    while i < s.len()
        invariant
            i <= s.len(),
            first_tag_from(s@, 0) == first_tag_from(s@, i as int),
        decreases s.len() - i,
    {
        if tag_len_at(s, i) > 0 {
            return i;
        }
        i = i + 1;
    }
    i
}

proof fn lemma_push_finished(before: Seq<Field>, f: Field, fs: Seq<(Seq<char>, Seq<char>)>)
    requires
        fs.len() > 0,
        fields_view(before) == fs.drop_last().map_values(
            |f: (Seq<char>, Seq<char>)| finish_field(f),
        ),
        f@ == finish_field(fs.last()),
    ensures
        fields_view(before.push(f)) == fs.map_values(|f: (Seq<char>, Seq<char>)| finish_field(f)),
{
    let a = fields_view(before.push(f));
    let b = fs.map_values(|f: (Seq<char>, Seq<char>)| finish_field(f));
    assert(fields_view(before).len() == before.len());
    assert(before.len() == fs.len() - 1);
    assert forall|i: int| 0 <= i < fs.len() implies a[i] == b[i] by {
        if i < fs.len() - 1 {
            assert(before.push(f)[i] == before[i]);
            assert(fields_view(before)[i] == before[i]@);
        }
    }
    assert(a =~= b);
}

/// The fields read so far: those before the last one, finished, and the last one raw.
struct Scanner {
    done: Vec<Field>,
    cur_tag: Vec<char>,
    cur_raw: Vec<char>,
    has_cur: bool,
    ended: bool,
}

impl Scanner {
    spec fn models(&self, fs: Seq<(Seq<char>, Seq<char>)>, ended: bool) -> bool {
        &&& self.ended == ended
        &&& self.has_cur == (fs.len() > 0)
        &&& fs.len() == 0 ==> self.done.len() == 0
        &&& fs.len() > 0 ==> {
            &&& fields_view(self.done@) == fs.drop_last().map_values(
                |f: (Seq<char>, Seq<char>)| finish_field(f),
            )
            &&& fs.last() == (self.cur_tag@, self.cur_raw@)
        }
    }

    /// The fields, once the last line was read.
    fn finish(self, Ghost(fs): Ghost<Seq<(Seq<char>, Seq<char>)>>, Ghost(ended): Ghost<bool>) -> (r:
        Vec<Field>)
        requires
            self.models(fs, ended),
        ensures
            fields_view(r@) == fs.map_values(|f: (Seq<char>, Seq<char>)| finish_field(f)),
    {
        let mut done = self.done;
        if self.has_cur {
            let ghost before = done@;
            let value = trimmed(&self.cur_raw);
            let f = Field { tag: string_of(&self.cur_tag), value: string_of(&value) };
            done.push(f);
            proof {
                lemma_push_finished(before, f, fs);
            }
        } else {
            assert(fields_view(done@) =~= fs.map_values(
                |f: (Seq<char>, Seq<char>)| finish_field(f),
            ));
        }
        done
    }

    /// Reads one line; `false` where the line breaks the grammar.
    fn read_line(
        &mut self,
        line: &Vec<char>,
        Ghost(fs): Ghost<Seq<(Seq<char>, Seq<char>)>>,
        Ghost(ended): Ghost<bool>,
    ) -> (ok: bool)
        requires
            old(self).models(fs, ended),
        ensures
            match line_step(Ok((fs, ended)), line@) {
                Ok((fs2, e2)) => ok && final(self).models(fs2, e2),
                Err(_) => !ok,
            },
    {
        if self.ended {
            return line.len() == 0;
        }
        let mut j: usize = 0;
        while j < line.len()
            invariant
                j <= line.len(),
                forall|k: int| 0 <= k < j ==> line@[k] != '\r',
            decreases line.len() - j,
        {
            if line[j] == '\r' {
                assert(line@.contains('\r'));
                return false;
            }
            j = j + 1;
        }
        assert(!line@.contains('\r'));
        let n = tag_len_at(line, 0);
        if n > 0 {
            assert(tag_at(line@, 0));
            assert(1 + n < line.len());
            let tag = slice_of(line, 1, 1 + n);
            let raw = slice_of(line, 2 + n, line.len());
            let ghost fs2 = fs.push((tag_of_line(line@), rest_of_line(line@)));
            if self.has_cur {
                let ghost before = self.done@;
                let value = trimmed(&self.cur_raw);
                let f = Field { tag: string_of(&self.cur_tag), value: string_of(&value) };
                self.done.push(f);
                proof {
                    lemma_push_finished(before, f, fs);
                    assert(fs2.drop_last() =~= fs);
                }
            } else {
                assert(fs2.drop_last() =~= fs);
                assert(fields_view(self.done@) =~= fs2.drop_last().map_values(
                    |f: (Seq<char>, Seq<char>)| finish_field(f),
                ));
            }
            self.cur_tag = tag;
            self.cur_raw = raw;
            self.has_cur = true;
            return true;
        }
        if line.len() == 0 {
            self.ended = true;
            return true;
        }
        if line[0] == ':' || !self.has_cur {
            return false;
        }
        self.cur_raw.push('\n');
        let mut i: usize = 0;
        let ghost start = self.cur_raw@;
        while i < line.len()
            invariant
                i <= line.len(),
                self.cur_raw@ == start + line@.subrange(0, i as int),
                self.done == old(self).done,
                self.cur_tag == old(self).cur_tag,
                self.has_cur == old(self).has_cur,
                self.ended == old(self).ended,
            decreases line.len() - i,
        {
            self.cur_raw.push(line[i]);
            i = i + 1;
        }
        assert(line@.subrange(0, line.len() as int) == line@);
        assert(start =~= old(self).cur_raw@ + seq!['\n']);
        let ghost last = fs.last();
        let ghost fs2 = fs.update(fs.len() - 1, (last.0, last.1 + seq!['\n'] + line@));
        assert(fs2.drop_last() =~= fs.drop_last());
        true
    }
}

/// Parse a MT940 statement to a list of its fields.
///
/// There is no validation of the contents of the fields: they could be nonsensical.
pub fn parse_fields(statement: &str) -> (r: Result<Vec<Field>, GrammarError>)
    ensures
        conforms(statement@) <==> r is Ok,
        match r {
            Ok(v) => tokenize(statement@) == Ok::<_, Seq<char>>(fields_view(v@)),
            Err(e) => e.rule == GrammarRule::Fields && tokenize(statement@) == Err::<
                Seq<(Seq<char>, Seq<char>)>,
                _,
            >(e.input@),
        },
{
    let s = chars_of(statement);
    let p = find_first_tag(&s);
    let rest = slice_of(&s, p, s.len());
    let segs = split_at_lf(&rest);
    proof {
        lemma_split_lf_nonempty(rest@);
        assert(rest@ == statement@.subrange(first_tag_from(statement@, 0), statement@.len() as int));
    }
    let ghost gs = segs.deep_view();
    let mut sc = Scanner { done: Vec::new(), cur_tag: Vec::new(), cur_raw: Vec::new(), has_cur: false, ended: false };
    let ghost mut fs: Seq<(Seq<char>, Seq<char>)> = Seq::empty();
    let ghost mut ended: bool = false;
    let mut k: usize = 0;
    while k < segs.len()
        invariant
            k <= segs.len(),
            gs == segs.deep_view(),
            gs == split_lf(rest@),
            rest@ == statement@.subrange(first_tag_from(statement@, 0), statement@.len() as int),
            segs.len() >= 1,
            scan_pieces(gs, k as int) == Ok::<_, Seq<char>>((fs, ended)),
            sc.models(fs, ended),
        decreases segs.len() - k,
    {
        let seg = &segs[k];
        assert(seg@ == gs[k as int]);
        let ok: bool;
        if k + 1 < segs.len() {
            if seg.len() > 0 && seg[seg.len() - 1] == '\r' {
                let line = slice_of(seg, 0, seg.len() - 1);
                assert(line@ == seg@.drop_last());
                assert(scan_pieces(gs, k + 1) == line_step(scan_pieces(gs, k as int), line@));
                ok = sc.read_line(&line, Ghost(fs), Ghost(ended));
                if !ok {
                    proof {
                        lemma_scan_error_stays(gs, k + 1, gs.len() as int);
                    }
                    return Err(GrammarError { rule: GrammarRule::Fields, input: string_of(&line) });
                }
            } else {
                assert(scan_pieces(gs, k + 1) == Err::<(Seq<(Seq<char>, Seq<char>)>, bool), _>(seg@));
                proof {
                    lemma_scan_error_stays(gs, k + 1, gs.len() as int);
                }
                return Err(GrammarError { rule: GrammarRule::Fields, input: string_of(seg) });
            }
        } else {
            assert(scan_pieces(gs, k + 1) == line_step(scan_pieces(gs, k as int), seg@));
            ok = sc.read_line(seg, Ghost(fs), Ghost(ended));
            if !ok {
                proof {
                    lemma_scan_error_stays(gs, k + 1, gs.len() as int);
                }
                return Err(GrammarError { rule: GrammarRule::Fields, input: string_of(seg) });
            }
        }
        proof {
            let next = scan_pieces(gs, k + 1);
            fs = next->Ok_0.0;
            ended = next->Ok_0.1;
        }
        k = k + 1;
    }
    Ok(sc.finish(Ghost(fs), Ghost(ended)))
}

} // verus!
