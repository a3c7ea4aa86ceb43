//! Sanitizers: functions that repair common violations of the format in real-world
//! statements, at the price of some information.
//!
//! The line based ones see a text as lines, split as `str::lines` does. A line that starts with a
//! tag (`:X:`) opens a block; the lines up to the next tag line are its continuation lines.
//! Lines in front of the first tag line form the prefix. The result is written with each line
//! ended by `"\r\n"`.
use vstd::prelude::*;
use crate::fields::{
    alnum_run, conforms, first_tag_from, line_step, scan_pieces, tag_at, tag_len_at, tag_of_line,
    tokenize,
};
use crate::text::{
    all_swift, is_swift_char, split_lf, chars_of, string_of, split_at_lf, is_swift_char_exec,
    slice_of, lemma_deep_view_chars, lemma_split_lf_nonempty,
};

verus! {

/// The lines of `s`, as `str::lines` gives them: split at `'\n'`, a `'\r'` before it removed,
/// and no last empty line.
pub open spec fn text_lines(s: Seq<char>) -> Seq<Seq<char>> {
    let segs = split_lf(s);
    let body = segs.drop_last().map_values(|l: Seq<char>| strip_cr(l));
    if segs.last().len() == 0 {
        body
    } else {
        body.push(segs.last())
    }
}

/// `l` without one `'\r'` at its end.
pub open spec fn strip_cr(l: Seq<char>) -> Seq<char> {
    if l.len() > 0 && l.last() == '\r' {
        l.drop_last()
    } else {
        l
    }
}

/// The lines, each followed by `"\r\n"`.
pub open spec fn join_crlf(ls: Seq<Seq<char>>) -> Seq<char>
    decreases ls.len(),
{
    if ls.len() == 0 {
        Seq::empty()
    } else {
        join_crlf(ls.drop_last()) + ls.last() + seq!['\r', '\n']
    }
}

/// A tag line opens a block.
pub open spec fn is_tag_line(l: Seq<char>) -> bool {
    tag_at(l, 0)
}

/// A block: a tag line and its continuation lines.
pub type Block = (Seq<char>, Seq<Seq<char>>);

/// The lines in front of the first tag line, and the blocks.
pub type Blocks = (Seq<Seq<char>>, Seq<Block>);

pub open spec fn split_blocks(ls: Seq<Seq<char>>) -> Blocks
    decreases ls.len(),
{
    if ls.len() == 0 {
        (Seq::empty(), Seq::empty())
    } else {
        let (p, bs) = split_blocks(ls.drop_last());
        let l = ls.last();
        if is_tag_line(l) {
            (p, bs.push((l, Seq::empty())))
        } else if bs.len() == 0 {
            (p.push(l), bs)
        } else {
            (p, bs.update(bs.len() - 1, (bs.last().0, bs.last().1.push(l))))
        }
    }
}

pub open spec fn flatten_blocks(bs: Seq<Block>) -> Seq<Seq<char>>
    decreases bs.len(),
{
    if bs.len() == 0 {
        Seq::empty()
    } else {
        flatten_blocks(bs.drop_last()).push(bs.last().0) + bs.last().1
    }
}

pub open spec fn flatten(x: Blocks) -> Seq<Seq<char>> {
    x.0 + flatten_blocks(x.1)
}

pub open spec fn block_tag_is(b: Block, t: Seq<char>) -> bool {
    tag_of_line(b.0) == t
}

/// Whether the continuation lines of block `i` stay when text between messages is removed:
/// they stay unless the next block is a `:20:`, or, for the last block, unless it is no
/// `:86:`.
pub open spec fn keeps_tail(bs: Seq<Block>, i: int) -> bool {
    if i + 1 < bs.len() {
        !block_tag_is(bs[i + 1], seq!['2', '0'])
    } else {
        block_tag_is(bs[i], seq!['8', '6'])
    }
}

/// Whether the prefix stays: it goes in front of a `:20:`; with no tag line at all only the
/// first line stays.
pub open spec fn between_messages_prefix(x: Blocks) -> Seq<Seq<char>> {
    if x.1.len() == 0 {
        if x.0.len() > 1 {
            x.0.take(1)
        } else {
            x.0
        }
    } else if block_tag_is(x.1[0], seq!['2', '0']) {
        Seq::empty()
    } else {
        x.0
    }
}

pub open spec fn strip_between_messages_blocks(x: Blocks) -> Blocks {
    (
        between_messages_prefix(x),
        Seq::new(
            x.1.len(),
            |i: int|
                (x.1[i].0, if keeps_tail(x.1, i) {
                    x.1[i].1
                } else {
                    Seq::empty()
                }),
        ),
    )
}

/// At most five continuation lines stay after each `:86:`.
pub open spec fn strip_excess_blocks(x: Blocks) -> Blocks {
    (
        x.0,
        Seq::new(
            x.1.len(),
            |i: int|
                (x.1[i].0, if block_tag_is(x.1[i], seq!['8', '6']) && x.1[i].1.len() > 5 {
                    x.1[i].1.take(5)
                } else {
                    x.1[i].1
                }),
        ),
    )
}

/// What removing text between messages makes of `s`.
pub open spec fn strip_between_messages_spec(s: Seq<char>) -> Seq<char> {
    join_crlf(flatten(strip_between_messages_blocks(split_blocks(text_lines(s)))))
}

/// What removing excess `:86:` lines makes of `s`.
pub open spec fn strip_excess_spec(s: Seq<char>) -> Seq<char> {
    join_crlf(flatten(strip_excess_blocks(split_blocks(text_lines(s)))))
}

/// What `deunicode::deunicode_char` gives for `c`.
pub uninterp spec fn deunicode_of(c: char) -> Option<Seq<char>>;

/// What a character becomes in the SWIFT character set: itself where it belongs to it, else its
/// transliteration where that is made of SWIFT characters (an empty one removes the character),
/// else a dot.
pub open spec fn swift_replacement(c: char) -> Seq<char> {
    if is_swift_char(c) {
        seq![c]
    } else {
        match deunicode_of(c) {
            Some(t) => if all_swift(t) {
                t
            } else {
                seq!['.']
            },
            None => seq!['.'],
        }
    }
}

pub open spec fn swift_charset_spec(s: Seq<char>) -> Seq<char>
    decreases s.len(),
{
    if s.len() == 0 {
        Seq::empty()
    } else {
        swift_charset_spec(s.drop_last()) + swift_replacement(s.last())
    }
}

/// What `sanitize` makes of `s`.
pub open spec fn sanitize_spec(s: Seq<char>) -> Seq<char> {
    strip_excess_spec(strip_between_messages_spec(swift_charset_spec(s)))
}

/// A copy of the lines `v[0..n]`.
fn copy_lines(v: &Vec<Vec<char>>, n: usize) -> (r: Vec<Vec<char>>)
    requires
        n <= v.len(),
    ensures
        r.deep_view() == v.deep_view().take(n as int),
{
    let mut r: Vec<Vec<char>> = Vec::new();
    let mut i: usize = 0;
    while i < n
        invariant
            i <= n <= v.len(),
            r.deep_view() == v.deep_view().take(i as int),
        decreases n - i,
    {
        let l = slice_of(&v[i], 0, v[i].len());
        let ghost before = r.deep_view();
        proof {
            lemma_deep_view_chars(l);
            lemma_deep_view_chars(v@[i as int]);
            assert(v@[i as int]@.subrange(0, v@[i as int].len() as int) == v@[i as int]@);
        }
        r.push(l);
        assert(r.deep_view() =~= before.push(l@));
        assert(v.deep_view().take(i + 1) =~= v.deep_view().take(i as int).push(v.deep_view()[i as int]));
        i = i + 1;
    }
    r
}

/// The lines of `s`, as `str::lines` gives them.
fn lines_of(s: &Vec<char>) -> (r: Vec<Vec<char>>)
    ensures
        r.deep_view() == text_lines(s@),
{
    let segs = split_at_lf(s);
    proof {
        lemma_split_lf_nonempty(s@);
    }
    let ghost g = segs.deep_view();
    let last = segs.len() - 1;
    let mut r: Vec<Vec<char>> = Vec::new();
    let mut i: usize = 0;
    while i < last
        invariant
            i <= last == segs.len() - 1,
            g == segs.deep_view(),
            g == split_lf(s@),
            r.deep_view() == g.take(i as int).map_values(|l: Seq<char>| strip_cr(l)),
        decreases last - i,
    {
        let seg = &segs[i];
        assert(seg@ == g[i as int]);
        let n = seg.len();
        let l = if n > 0 && seg[n - 1] == '\r' {
            slice_of(seg, 0, n - 1)
        } else {
            slice_of(seg, 0, n)
        };
        assert(l@ == strip_cr(g[i as int]));
        let ghost before = r.deep_view();
        proof {
            lemma_deep_view_chars(l);
        }
        r.push(l);
        assert(r.deep_view() =~= before.push(l@));
        assert(g.take(i + 1).map_values(|l: Seq<char>| strip_cr(l)) =~= g.take(i as int).map_values(
            |l: Seq<char>| strip_cr(l),
        ).push(strip_cr(g[i as int])));
        i = i + 1;
    }
    assert(g.take(last as int) =~= g.drop_last());
    if segs[last].len() > 0 {
        let l = slice_of(&segs[last], 0, segs[last].len());
        let ghost before = r.deep_view();
        proof {
            lemma_deep_view_chars(l);
            assert(g.last() == segs@[last as int]@);
            assert(segs@[last as int]@.subrange(0, segs@[last as int].len() as int) == segs@[last as int]@);
        }
        r.push(l);
        assert(r.deep_view() =~= before.push(l@));
    } else {
        assert(g.last() == segs@[last as int]@);
    }
    r
}

/// The lines, each followed by `"\r\n"`.
fn join_lines(ls: &Vec<Vec<char>>) -> (r: Vec<char>)
    ensures
        r@ == join_crlf(ls.deep_view()),
{
    let ghost g = ls.deep_view();
    let mut r: Vec<char> = Vec::new();
    let mut i: usize = 0;
    while i < ls.len()
        invariant
            i <= ls.len(),
            g == ls.deep_view(),
            r@ == join_crlf(g.take(i as int)),
        decreases ls.len() - i,
    {
        let l = &ls[i];
        assert(l@ == g[i as int]);
        let ghost start = r@;
        let mut j: usize = 0;
        while j < l.len()
            invariant
                j <= l.len(),
                r@ == start + l@.take(j as int),
            decreases l.len() - j,
        {
            r.push(l[j]);
            assert(l@.take(j + 1) =~= l@.take(j as int).push(l@[j as int]));
            j = j + 1;
        }
        r.push('\r');
        r.push('\n');
        assert(g.take(i + 1).drop_last() =~= g.take(i as int));
        assert(l@.take(l.len() as int) == l@);
        assert(r@ =~= join_crlf(g.take(i as int)) + g[i as int] + seq!['\r', '\n']);
        i = i + 1;
    }
    assert(g.take(ls.len() as int) == g);
    r
}

/// A tag line and its continuation lines.
struct LineBlock {
    head: Vec<char>,
    tail: Vec<Vec<char>>,
}

spec fn block_view(b: LineBlock) -> Block {
    (b.head@, b.tail.deep_view())
}

spec fn blocks_view(bs: Seq<LineBlock>) -> Seq<Block> {
    bs.map_values(|b: LineBlock| block_view(b))
}

/// Every block starts with a tag line.
pub open spec fn heads_are_tags(bs: Seq<Block>) -> bool {
    forall|i: int| 0 <= i < bs.len() ==> is_tag_line(#[trigger] bs[i].0)
}

proof fn lemma_split_blocks_heads(ls: Seq<Seq<char>>)
    ensures
        heads_are_tags(split_blocks(ls).1),
    decreases ls.len(),
{
    if ls.len() > 0 {
        lemma_split_blocks_heads(ls.drop_last());
    }
}

fn copy_line(l: &Vec<char>) -> (r: Vec<char>)
    ensures
        r@ == l@,
{
    assert(l@.subrange(0, l.len() as int) == l@);
    slice_of(l, 0, l.len())
}

/// The prefix and the blocks of the lines `ls`.
fn blocks_of(ls: &Vec<Vec<char>>) -> (r: (Vec<Vec<char>>, Vec<LineBlock>))
    ensures
        (r.0.deep_view(), blocks_view(r.1@)) == split_blocks(ls.deep_view()),
{
    let ghost g = ls.deep_view();
    let mut p: Vec<Vec<char>> = Vec::new();
    let mut bs: Vec<LineBlock> = Vec::new();
    let mut i: usize = 0;
    assert(p.deep_view() =~= Seq::<Seq<char>>::empty());
    assert(blocks_view(bs@) =~= Seq::<Block>::empty());
    while i < ls.len()
        invariant
            i <= ls.len(),
            g == ls.deep_view(),
            (p.deep_view(), blocks_view(bs@)) == split_blocks(g.take(i as int)),
        decreases ls.len() - i,
    {
        let l = copy_line(&ls[i]);
        assert(l@ == g[i as int]);
        assert(g.take(i + 1).drop_last() =~= g.take(i as int));
        assert(g.take(i + 1).last() == g[i as int]);
        proof {
            lemma_deep_view_chars(l);
        }
        if tag_len_at(&l, 0) > 0 {
            let ghost before = blocks_view(bs@);
            let b = LineBlock { head: l, tail: Vec::new() };
            assert(b.tail.deep_view() =~= Seq::<Seq<char>>::empty());
            bs.push(b);
            assert(blocks_view(bs@) =~= before.push(block_view(b)));
        } else if bs.len() == 0 {
            let ghost before = p.deep_view();
            p.push(l);
            assert(p.deep_view() =~= before.push(l@));
        } else {
            let ghost before = blocks_view(bs@);
            match bs.pop() {
                Some(mut b) => {
                    let ghost tb = b.tail.deep_view();
                    b.tail.push(l);
                    assert(b.tail.deep_view() =~= tb.push(l@));
                    bs.push(b);
                    assert(blocks_view(bs@) =~= before.update(
                        before.len() - 1,
                        (before.last().0, before.last().1.push(l@)),
                    ));
                },
                None => {},
            }
        }
        i = i + 1;
    }
    assert(g.take(ls.len() as int) == g);
    (p, bs)
}

/// The tag of the tag line `head` is `a b`.
fn head_tag_is(head: &Vec<char>, a: char, b: char) -> (r: bool)
    requires
        is_tag_line(head@),
    ensures
        r == (tag_of_line(head@) == seq![a, b]),
{
    let n = tag_len_at(head, 0);
    if n == 2 && head[1] == a && head[2] == b {
        assert(tag_of_line(head@) =~= seq![a, b]);
        true
    } else {
        proof {
            if tag_of_line(head@) == seq![a, b] {
                assert(tag_of_line(head@).len() == 2);
                assert(tag_of_line(head@)[0] == head@[1]);
                assert(tag_of_line(head@)[1] == head@[2]);
            }
        }
        false
    }
}

/// Removes the text between messages, on blocks.
fn strip_between_blocks(p: &Vec<Vec<char>>, bs: &Vec<LineBlock>) -> (r: (Vec<Vec<char>>, Vec<LineBlock>))
    requires
        heads_are_tags(blocks_view(bs@)),
    ensures
        (r.0.deep_view(), blocks_view(r.1@)) == strip_between_messages_blocks(
            (p.deep_view(), blocks_view(bs@)),
        ),
        heads_are_tags(blocks_view(r.1@)),
{
    let ghost x = (p.deep_view(), blocks_view(bs@));
    let n = bs.len();
    if n > 0 {
        assert(blocks_view(bs@)[0] == block_view(bs@[0]));
        assert(is_tag_line(blocks_view(bs@)[0].0));
    }
    let prefix = if n == 0 {
        copy_lines(p, if p.len() > 0 {
            1
        } else {
            0
        })
    } else if head_tag_is(&bs[0].head, '2', '0') {
        Vec::new()
    } else {
        copy_lines(p, p.len())
    };
    proof {
        assert(p.deep_view().take(p.len() as int) == p.deep_view());
        if n == 0 && p.len() == 1 {
            assert(p.deep_view().take(1) =~= p.deep_view());
        }
        if n == 0 && p.len() == 0 {
            assert(p.deep_view().take(0) =~= p.deep_view());
        }
        if n > 0 {
            assert(blocks_view(bs@)[0] == block_view(bs@[0]));
        }
        assert(prefix.deep_view() =~= between_messages_prefix(x));
    }
    let mut out: Vec<LineBlock> = Vec::new();
    let mut i: usize = 0;
    while i < n
        invariant
            i <= n == bs.len(),
            x == (p.deep_view(), blocks_view(bs@)),
            heads_are_tags(blocks_view(bs@)),
            blocks_view(out@) =~= strip_between_messages_blocks(x).1.take(i as int),
            heads_are_tags(blocks_view(out@)),
        decreases n - i,
    {
        assert(blocks_view(bs@)[i as int] == block_view(bs@[i as int]));
        assert(is_tag_line(blocks_view(bs@)[i as int].0));
        let keep = if i + 1 < n {
            assert(blocks_view(bs@)[i + 1] == block_view(bs@[i + 1]));
            assert(is_tag_line(blocks_view(bs@)[i + 1].0));
            !head_tag_is(&bs[i + 1].head, '2', '0')
        } else {
            head_tag_is(&bs[i].head, '8', '6')
        };
        assert(keep == keeps_tail(x.1, i as int));
        let tail = if keep {
            copy_lines(&bs[i].tail, bs[i].tail.len())
        } else {
            Vec::new()
        };
        proof {
            let t = bs@[i as int].tail.deep_view();
            assert(t.take(t.len() as int) == t);
            assert(tail.deep_view() =~= (if keep {
                t
            } else {
                Seq::empty()
            }));
        }
        let b = LineBlock { head: copy_line(&bs[i].head), tail };
        let ghost before = blocks_view(out@);
        out.push(b);
        assert(blocks_view(out@) =~= before.push(block_view(b)));
        assert(strip_between_messages_blocks(x).1.take(i + 1) =~= strip_between_messages_blocks(
            x,
        ).1.take(i as int).push(strip_between_messages_blocks(x).1[i as int]));
        i = i + 1;
    }
    assert(strip_between_messages_blocks(x).1.take(n as int) =~= strip_between_messages_blocks(x).1);
    (prefix, out)
}

/// Keeps at most five continuation lines after each `:86:`, on blocks.
fn strip_excess_on_blocks(p: &Vec<Vec<char>>, bs: &Vec<LineBlock>) -> (r: (Vec<Vec<char>>, Vec<LineBlock>))
    requires
        heads_are_tags(blocks_view(bs@)),
    ensures
        (r.0.deep_view(), blocks_view(r.1@)) == strip_excess_blocks((p.deep_view(), blocks_view(bs@))),
{
    let ghost x = (p.deep_view(), blocks_view(bs@));
    let prefix = copy_lines(p, p.len());
    assert(p.deep_view().take(p.len() as int) == p.deep_view());
    let n = bs.len();
    let mut out: Vec<LineBlock> = Vec::new();
    let mut i: usize = 0;
    while i < n
        invariant
            i <= n == bs.len(),
            x == (p.deep_view(), blocks_view(bs@)),
            heads_are_tags(blocks_view(bs@)),
            blocks_view(out@) =~= strip_excess_blocks(x).1.take(i as int),
        decreases n - i,
    {
        assert(blocks_view(bs@)[i as int] == block_view(bs@[i as int]));
        assert(is_tag_line(blocks_view(bs@)[i as int].0));
        let cut = head_tag_is(&bs[i].head, '8', '6') && bs[i].tail.len() > 5;
        let tail = if cut {
            copy_lines(&bs[i].tail, 5)
        } else {
            copy_lines(&bs[i].tail, bs[i].tail.len())
        };
        proof {
            let t = bs@[i as int].tail.deep_view();
            assert(t.take(t.len() as int) == t);
        }
        let b = LineBlock { head: copy_line(&bs[i].head), tail };
        let ghost before = blocks_view(out@);
        out.push(b);
        assert(blocks_view(out@) =~= before.push(block_view(b)));
        assert(strip_excess_blocks(x).1.take(i + 1) =~= strip_excess_blocks(x).1.take(i as int).push(
            strip_excess_blocks(x).1[i as int],
        ));
        i = i + 1;
    }
    assert(strip_excess_blocks(x).1.take(n as int) =~= strip_excess_blocks(x).1);
    (prefix, out)
}

/// The lines of the prefix and the blocks, in order.
fn flatten_exec(p: &Vec<Vec<char>>, bs: &Vec<LineBlock>) -> (r: Vec<Vec<char>>)
    ensures
        r.deep_view() == flatten((p.deep_view(), blocks_view(bs@))),
{
    let ghost bv = blocks_view(bs@);
    let mut r = copy_lines(p, p.len());
    assert(p.deep_view().take(p.len() as int) == p.deep_view());
    let mut i: usize = 0;
    assert(bv.take(0) =~= Seq::<Block>::empty());
    assert(p.deep_view() + flatten_blocks(Seq::<Block>::empty()) =~= p.deep_view());
    while i < bs.len()
        invariant
            i <= bs.len(),
            bv == blocks_view(bs@),
            r.deep_view() == p.deep_view() + flatten_blocks(bv.take(i as int)),
        decreases bs.len() - i,
    {
        assert(bv[i as int] == block_view(bs@[i as int]));
        let ghost before = r.deep_view();
        let h = copy_line(&bs[i].head);
        proof {
            lemma_deep_view_chars(h);
        }
        r.push(h);
        assert(r.deep_view() =~= before.push(h@));
        let t = &bs[i].tail;
        let mut j: usize = 0;
        while j < t.len()
            invariant
                j <= t.len(),
                r.deep_view() == before.push(h@) + t.deep_view().take(j as int),
            decreases t.len() - j,
        {
            let l = copy_line(&t[j]);
            proof {
                lemma_deep_view_chars(l);
                assert(t.deep_view()[j as int] == t@[j as int]@);
            }
            let ghost b2 = r.deep_view();
            r.push(l);
            assert(r.deep_view() =~= b2.push(l@));
            assert(t.deep_view().take(j + 1) =~= t.deep_view().take(j as int).push(l@));
            assert(before.push(h@) + t.deep_view().take(j + 1) =~= (before.push(h@) + t.deep_view().take(j as int)).push(l@));
            j = j + 1;
        }
        assert(t.deep_view().take(t.len() as int) == t.deep_view());
        assert(bv.take(i + 1).drop_last() =~= bv.take(i as int));
        assert(bv.take(i + 1).last() == bv[i as int]);
        assert(r.deep_view() =~= p.deep_view() + flatten_blocks(bv.take(i + 1)));
        i = i + 1;
    }
    assert(bv.take(bs.len() as int) =~= bv);
    r
}

/// Relies on `deunicode::deunicode_char`: the ASCII transliteration of a character, where it
/// knows one.
#[verifier::external_body]
fn transliterate(c: char) -> (r: Option<String>)
    ensures
        match r {
            Some(t) => deunicode_of(c) == Some(t@),
            None => deunicode_of(c) is None,
        },
{
    deunicode::deunicode_char(c).map(String::from)
}

fn replacement_of(c: char) -> (r: Vec<char>)
    ensures
        r@ == swift_replacement(c),
{
    if is_swift_char_exec(c) {
        let r = vec![c];
        assert(r@ =~= seq![c]);
        return r;
    }
    let dot = vec!['.'];
    assert(dot@ =~= seq!['.']);
    match transliterate(c) {
        Some(t) => {
            let tc = chars_of(t.as_str());
            let mut ok = true;
            let mut i: usize = 0;
            while ok && i < tc.len()
                invariant
                    i <= tc.len(),
                    ok ==> forall|k: int| 0 <= k < i ==> is_swift_char(#[trigger] tc@[k]),
                    !ok ==> !all_swift(tc@),
                decreases tc.len() - i,
            {
                if !is_swift_char_exec(tc[i]) {
                    ok = false;
                }
                i = i + 1;
            }
            if ok {
                tc
            } else {
                dot
            }
        },
        None => dot,
    }
}

/// Try to make a given input conform to the SWIFT character set.
///
/// Characters outside of it are transliterated to ASCII (`'ä'` becomes `'a'`, `'ß'` becomes
/// `"ss"`); what still does not fit (like `'!'` or `'='`) becomes a dot.
pub fn to_swift_charset(s: &str) -> (r: String)
    ensures
        r@ == swift_charset_spec(s@),
{
    let cs = chars_of(s);
    let mut out: Vec<char> = Vec::new();
    let mut i: usize = 0;
    while i < cs.len()
        invariant
            i <= cs.len(),
            out@ == swift_charset_spec(cs@.take(i as int)),
        decreases cs.len() - i,
    {
        let rep = replacement_of(cs[i]);
        let ghost start = out@;
        let mut j: usize = 0;
        while j < rep.len()
            invariant
                j <= rep.len(),
                out@ == start + rep@.take(j as int),
            decreases rep.len() - j,
        {
            out.push(rep[j]);
            assert(rep@.take(j + 1) =~= rep@.take(j as int).push(rep@[j as int]));
            j = j + 1;
        }
        assert(rep@.take(rep.len() as int) == rep@);
        assert(cs@.take(i + 1).drop_last() =~= cs@.take(i as int));
        assert(cs@.take(i + 1).last() == cs@[i as int]);
        i = i + 1;
    }
    assert(cs@.take(cs.len() as int) == cs@);
    string_of(&out)
}

/// Remove text between messages.
///
/// Statements sometimes separate their messages with `-` or the like, which makes them
/// noncompliant. Lines that are no tag lines are removed in front of each `:20:` line, and after
/// the last tag line unless that is a `:86:` (whose text may validly go on to the end).
pub fn strip_stuff_between_messages(s: &str) -> (r: String)
    ensures
        r@ == strip_between_messages_spec(s@),
{
    let cs = chars_of(s);
    let ls = lines_of(&cs);
    let (p, bs) = blocks_of(&ls);
    proof {
        lemma_split_blocks_heads(ls.deep_view());
    }
    let (p2, bs2) = strip_between_blocks(&p, &bs);
    let out = flatten_exec(&p2, &bs2);
    string_of(&join_lines(&out))
}

/// Remove the lines of `:86:` fields beyond the six allowed.
///
/// Note that you potentially lose information with this sanitizer.
pub fn strip_excess_tag86_lines(input: &str) -> (r: String)
    ensures
        r@ == strip_excess_spec(input@),
{
    let cs = chars_of(input);
    let ls = lines_of(&cs);
    let (p, bs) = blocks_of(&ls);
    proof {
        lemma_split_blocks_heads(ls.deep_view());
    }
    let (p2, bs2) = strip_excess_on_blocks(&p, &bs);
    let out = flatten_exec(&p2, &bs2);
    string_of(&join_lines(&out))
}

/// Run all sanitizers on the input in a useful order.
///
/// Be aware that some data could be truncated in order to make valid statements.
pub fn sanitize(s: &str) -> (r: String)
    ensures
        r@ == sanitize_spec(s@),
{
    let s1 = to_swift_charset(s);
    let s2 = strip_stuff_between_messages(s1.as_str());
    strip_excess_tag86_lines(s2.as_str())
}


/// A line: no line feed in it, SWIFT characters only.
pub open spec fn line_ok(l: Seq<char>) -> bool {
    &&& forall|i: int| 0 <= i < l.len() ==> #[trigger] l[i] != '\n'
    &&& all_swift(l)
}

pub open spec fn lines_ok(ls: Seq<Seq<char>>) -> bool {
    forall|i: int| 0 <= i < ls.len() ==> line_ok(#[trigger] ls[i])
}

/// Lines that belong to no tag: good lines that are no tag lines.
pub open spec fn plain_lines(ls: Seq<Seq<char>>) -> bool {
    forall|i: int| 0 <= i < ls.len() ==> line_ok(#[trigger] ls[i]) && !is_tag_line(ls[i])
}

pub open spec fn block_ok(b: Block) -> bool {
    line_ok(b.0) && is_tag_line(b.0) && plain_lines(b.1)
}

/// The shape that `split_blocks` gives, with good lines.
pub open spec fn well_formed(x: Blocks) -> bool {
    plain_lines(x.0) && forall|i: int| 0 <= i < x.1.len() ==> block_ok(#[trigger] x.1[i])
}

proof fn lemma_charset_identity(s: Seq<char>)
    requires
        all_swift(s),
    ensures
        swift_charset_spec(s) == s,
    decreases s.len(),
{
    if s.len() > 0 {
        lemma_charset_identity(s.drop_last());
        assert(s.drop_last().push(s.last()) =~= s);
        assert(swift_replacement(s.last()) =~= seq![s.last()]);
    }
}

proof fn lemma_charset_all_swift(s: Seq<char>)
    ensures
        all_swift(swift_charset_spec(s)),
    decreases s.len(),
{
    if s.len() > 0 {
        lemma_charset_all_swift(s.drop_last());
        let a = swift_charset_spec(s.drop_last());
        let r = swift_replacement(s.last());
        assert(all_swift(r));
        assert forall|i: int| 0 <= i < (a + r).len() implies is_swift_char(#[trigger] (a + r)[i]) by {
            if i >= a.len() {
                assert((a + r)[i] == r[i - a.len()]);
            }
        }
    }
}

proof fn lemma_split_lf_lines(s: Seq<char>)
    requires
        all_swift(s),
    ensures
        lines_ok(split_lf(s)),
    decreases s.len(),
{
    if s.len() > 0 {
        lemma_split_lf_lines(s.drop_last());
        lemma_split_lf_nonempty(s.drop_last());
        let prev = split_lf(s.drop_last());
        if s.last() != '\n' {
            let l = prev.last().push(s.last());
            assert(line_ok(prev[prev.len() - 1]));
            assert(line_ok(l));
        } else {
            assert(line_ok(Seq::<char>::empty()));
        }
        assert forall|i: int| 0 <= i < split_lf(s).len() implies line_ok(#[trigger] split_lf(s)[i]) by {
            if i < prev.len() - 1 {
                assert(line_ok(prev[i]));
            } else if i < prev.len() {
                assert(line_ok(prev[i]));
            }
        }
    }
}

proof fn lemma_text_lines_ok(s: Seq<char>)
    requires
        all_swift(s),
    ensures
        lines_ok(text_lines(s)),
{
    lemma_split_lf_lines(s);
    lemma_split_lf_nonempty(s);
    let segs = split_lf(s);
    assert forall|i: int| 0 <= i < text_lines(s).len() implies line_ok(#[trigger] text_lines(s)[i]) by {
        if i < segs.len() - 1 {
            assert(line_ok(segs[i]));
            let l = segs[i];
            if l.len() > 0 && l.last() == '\r' {
                assert(line_ok(l.drop_last()));
            }
        } else {
            assert(line_ok(segs[segs.len() - 1]));
        }
    }
}

proof fn lemma_split_blocks_wf(ls: Seq<Seq<char>>)
    requires
        lines_ok(ls),
    ensures
        well_formed(split_blocks(ls)),
    decreases ls.len(),
{
    if ls.len() > 0 {
        assert(lines_ok(ls.drop_last())) by {
            assert forall|i: int| 0 <= i < ls.drop_last().len() implies line_ok(
                #[trigger] ls.drop_last()[i],
            ) by {
                assert(line_ok(ls[i]));
            }
        }
        lemma_split_blocks_wf(ls.drop_last());
        let (p, bs) = split_blocks(ls.drop_last());
        let l = ls.last();
        assert(line_ok(ls[ls.len() - 1]));
        if is_tag_line(l) {
            assert(block_ok((l, Seq::<Seq<char>>::empty())));
            let nb = bs.push((l, Seq::<Seq<char>>::empty()));
            assert forall|i: int| 0 <= i < nb.len() implies block_ok(#[trigger] nb[i]) by {
                if i < bs.len() {
                    assert(block_ok(bs[i]));
                }
            }
        } else if bs.len() == 0 {
            let np = p.push(l);
            assert forall|i: int| 0 <= i < np.len() implies line_ok(#[trigger] np[i]) && !is_tag_line(np[i]) by {
                if i < p.len() {
                    assert(line_ok(p[i]) && !is_tag_line(p[i]));
                }
            }
        } else {
            let last = bs.last();
            assert(block_ok(bs[bs.len() - 1]));
            let nt = last.1.push(l);
            assert forall|i: int| 0 <= i < nt.len() implies line_ok(#[trigger] nt[i]) && !is_tag_line(nt[i]) by {
                if i < last.1.len() {
                    assert(line_ok(last.1[i]) && !is_tag_line(last.1[i]));
                }
            }
            let nb = bs.update(bs.len() - 1, (last.0, nt));
            assert forall|i: int| 0 <= i < nb.len() implies block_ok(#[trigger] nb[i]) by {
                if i < bs.len() - 1 {
                    assert(block_ok(bs[i]));
                }
            }
        }
    }
}

proof fn lemma_flatten_blocks_ok(bs: Seq<Block>)
    requires
        forall|i: int| 0 <= i < bs.len() ==> block_ok(#[trigger] bs[i]),
    ensures
        lines_ok(flatten_blocks(bs)),
    decreases bs.len(),
{
    if bs.len() > 0 {
        let init = bs.drop_last();
        assert forall|i: int| 0 <= i < init.len() implies block_ok(#[trigger] init[i]) by {
            assert(block_ok(bs[i]));
        }
        lemma_flatten_blocks_ok(init);
        let b = bs.last();
        assert(block_ok(bs[bs.len() - 1]));
        let a = flatten_blocks(init).push(b.0);
        let r = a + b.1;
        assert forall|i: int| 0 <= i < r.len() implies line_ok(#[trigger] r[i]) by {
            if i < a.len() - 1 {
                assert(line_ok(flatten_blocks(init)[i]));
            } else if i >= a.len() {
                assert(r[i] == b.1[i - a.len()]);
                assert(line_ok(b.1[i - a.len()]));
            }
        }
    }
}

proof fn lemma_flatten_ok(x: Blocks)
    requires
        well_formed(x),
    ensures
        lines_ok(flatten(x)),
{
    lemma_flatten_blocks_ok(x.1);
    let r = x.0 + flatten_blocks(x.1);
    assert forall|i: int| 0 <= i < r.len() implies line_ok(#[trigger] r[i]) by {
        if i < x.0.len() {
            assert(line_ok(x.0[i]));
        } else {
            assert(r[i] == flatten_blocks(x.1)[i - x.0.len()]);
        }
    }
}

proof fn lemma_join_swift(ls: Seq<Seq<char>>)
    requires
        lines_ok(ls),
    ensures
        all_swift(join_crlf(ls)),
    decreases ls.len(),
{
    if ls.len() > 0 {
        assert(lines_ok(ls.drop_last())) by {
            assert forall|i: int| 0 <= i < ls.drop_last().len() implies line_ok(
                #[trigger] ls.drop_last()[i],
            ) by {
                assert(line_ok(ls[i]));
            }
        }
        lemma_join_swift(ls.drop_last());
        let a = join_crlf(ls.drop_last());
        let l = ls.last();
        assert(line_ok(ls[ls.len() - 1]));
        let r = a + l + seq!['\r', '\n'];
        assert forall|i: int| 0 <= i < r.len() implies is_swift_char(#[trigger] r[i]) by {
            if i < a.len() {
                assert(r[i] == a[i]);
            } else if i < a.len() + l.len() {
                assert(r[i] == l[i - a.len()]);
            }
        }
    }
}

/// Appending text without a line feed extends the last piece.
proof fn lemma_split_lf_append(a: Seq<char>, b: Seq<char>)
    requires
        forall|i: int| 0 <= i < b.len() ==> #[trigger] b[i] != '\n',
    ensures
        split_lf(a + b) == split_lf(a).update(split_lf(a).len() - 1, split_lf(a).last() + b),
    decreases b.len(),
{
    lemma_split_lf_nonempty(a);
    if b.len() == 0 {
        assert(a + b == a);
        assert(split_lf(a).last() + b == split_lf(a).last());
        assert(split_lf(a).update(split_lf(a).len() - 1, split_lf(a).last()) =~= split_lf(a));
    } else {
        let b2 = b.drop_last();
        lemma_split_lf_append(a, b2);
        assert((a + b).drop_last() == a + b2);
        assert((a + b).last() == b.last());
        assert(b.last() != '\n');
        assert(split_lf(a).last() + b2 + seq![b.last()] =~= split_lf(a).last() + b);
        assert((split_lf(a).last() + b2).push(b.last()) =~= split_lf(a).last() + b);
        assert(split_lf(a + b) =~= split_lf(a).update(split_lf(a).len() - 1, split_lf(a).last() + b));
    }
}

proof fn lemma_split_lf_join(ls: Seq<Seq<char>>)
    requires
        lines_ok(ls),
    ensures
        split_lf(join_crlf(ls)) == ls.map_values(|l: Seq<char>| l.push('\r')).push(Seq::empty()),
    decreases ls.len(),
{
    if ls.len() == 0 {
        assert(split_lf(Seq::<char>::empty()) =~= seq![Seq::<char>::empty()]);
        assert(ls.map_values(|l: Seq<char>| l.push('\r')).push(Seq::empty()) =~= seq![
            Seq::<char>::empty(),
        ]);
    } else {
        let init = ls.drop_last();
        assert(lines_ok(init)) by {
            assert forall|i: int| 0 <= i < init.len() implies line_ok(#[trigger] init[i]) by {
                assert(line_ok(ls[i]));
            }
        }
        lemma_split_lf_join(init);
        let x = join_crlf(init);
        let l = ls.last();
        assert(line_ok(ls[ls.len() - 1]));
        let lr = l.push('\r');
        assert forall|i: int| 0 <= i < lr.len() implies #[trigger] lr[i] != '\n' by {
            if i < l.len() {
                assert(lr[i] == l[i]);
            }
        }
        lemma_split_lf_append(x, lr);
        let full = join_crlf(ls);
        assert(full =~= (x + lr).push('\n'));
        assert(full.drop_last() =~= x + lr);
        let m = init.map_values(|l: Seq<char>| l.push('\r'));
        assert(split_lf(x) == m.push(Seq::empty()));
        assert(split_lf(x + lr) =~= m.push(lr));
        assert(ls.map_values(|l: Seq<char>| l.push('\r')) =~= m.push(lr));
    }
}

proof fn lemma_text_lines_join(ls: Seq<Seq<char>>)
    requires
        lines_ok(ls),
    ensures
        text_lines(join_crlf(ls)) == ls,
{
    lemma_split_lf_join(ls);
    let segs = split_lf(join_crlf(ls));
    let m = ls.map_values(|l: Seq<char>| l.push('\r'));
    assert(segs.drop_last() =~= m);
    assert forall|i: int| 0 <= i < ls.len() implies strip_cr(#[trigger] m[i]) == ls[i] by {
        assert(m[i].drop_last() =~= ls[i]);
    }
    assert(text_lines(join_crlf(ls)) =~= ls);
}


proof fn lemma_split_plain(p: Seq<Seq<char>>)
    requires
        plain_lines(p),
    ensures
        split_blocks(p) == (p, Seq::<Block>::empty()),
    decreases p.len(),
{
    if p.len() > 0 {
        assert(plain_lines(p.drop_last())) by {
            assert forall|i: int| 0 <= i < p.drop_last().len() implies line_ok(
                #[trigger] p.drop_last()[i],
            ) && !is_tag_line(p.drop_last()[i]) by {
                assert(line_ok(p[i]) && !is_tag_line(p[i]));
            }
        }
        lemma_split_plain(p.drop_last());
        assert(!is_tag_line(p[p.len() - 1]));
        assert(p.drop_last().push(p.last()) =~= p);
    }
}

/// Lines that are no tag lines go to the last block.
proof fn lemma_split_tail(z: Seq<Seq<char>>, t: Seq<Seq<char>>)
    requires
        plain_lines(t),
        split_blocks(z).1.len() > 0,
    ensures
        ({
            let (p, bs) = split_blocks(z);
            split_blocks(z + t) == (p, bs.update(bs.len() - 1, (bs.last().0, bs.last().1 + t)))
        }),
    decreases t.len(),
{
    let (p, bs) = split_blocks(z);
    if t.len() == 0 {
        assert(z + t == z);
        assert(bs.last().1 + t == bs.last().1);
        assert(bs.update(bs.len() - 1, (bs.last().0, bs.last().1)) =~= bs);
    } else {
        let t2 = t.drop_last();
        assert(plain_lines(t2)) by {
            assert forall|i: int| 0 <= i < t2.len() implies line_ok(#[trigger] t2[i])
                && !is_tag_line(t2[i]) by {
                assert(line_ok(t[i]) && !is_tag_line(t[i]));
            }
        }
        lemma_split_tail(z, t2);
        assert((z + t).drop_last() == z + t2);
        assert((z + t).last() == t.last());
        assert(!is_tag_line(t[t.len() - 1]));
        assert((bs.last().1 + t2).push(t.last()) =~= bs.last().1 + t);
        let nb = bs.update(bs.len() - 1, (bs.last().0, bs.last().1 + t2));
        assert(nb.update(nb.len() - 1, (nb.last().0, nb.last().1.push(t.last()))) =~= bs.update(
            bs.len() - 1,
            (bs.last().0, bs.last().1 + t),
        ));
    }
}

proof fn lemma_split_flatten_blocks(p: Seq<Seq<char>>, bs: Seq<Block>)
    requires
        well_formed((p, bs)),
    ensures
        split_blocks(p + flatten_blocks(bs)) == (p, bs),
    decreases bs.len(),
{
    if bs.len() == 0 {
        assert(p + flatten_blocks(bs) =~= p);
        lemma_split_plain(p);
    } else {
        let init = bs.drop_last();
        let x = (p, bs);
        assert(well_formed((p, init))) by {
            assert forall|i: int| 0 <= i < init.len() implies block_ok(#[trigger] init[i]) by {
                assert(block_ok(x.1[i]));
            }
        }
        lemma_split_flatten_blocks(p, init);
        let b = bs.last();
        assert(block_ok(x.1[bs.len() - 1]));
        let y = p + flatten_blocks(init);
        assert((y.push(b.0)).drop_last() == y);
        assert(split_blocks(y.push(b.0)) == (p, init.push((b.0, Seq::<Seq<char>>::empty()))));
        lemma_split_tail(y.push(b.0), b.1);
        assert(p + flatten_blocks(bs) =~= y.push(b.0) + b.1);
        let nb = init.push((b.0, Seq::<Seq<char>>::empty()));
        assert(Seq::<Seq<char>>::empty() + b.1 =~= b.1);
        assert(nb.update(nb.len() - 1, (b.0, Seq::<Seq<char>>::empty() + b.1)) =~= bs);
    }
}

proof fn lemma_split_flatten(x: Blocks)
    requires
        well_formed(x),
    ensures
        split_blocks(flatten(x)) == x,
{
    lemma_split_flatten_blocks(x.0, x.1);
}

proof fn lemma_flatten_split(ls: Seq<Seq<char>>)
    ensures
        flatten(split_blocks(ls)) == ls,
    decreases ls.len(),
{
    if ls.len() > 0 {
        lemma_flatten_split(ls.drop_last());
        let (p, bs) = split_blocks(ls.drop_last());
        let l = ls.last();
        if is_tag_line(l) {
            let nb = bs.push((l, Seq::<Seq<char>>::empty()));
            assert(nb.drop_last() =~= bs);
            assert(p + flatten_blocks(nb) =~= (p + flatten_blocks(bs)).push(l));
        } else if bs.len() == 0 {
            assert(flatten_blocks(bs) =~= Seq::<Seq<char>>::empty());
            assert(p.push(l) + flatten_blocks(bs) =~= (p + flatten_blocks(bs)).push(l));
        } else {
            let last = bs.last();
            let nb = bs.update(bs.len() - 1, (last.0, last.1.push(l)));
            assert(nb.drop_last() =~= bs.drop_last());
            assert(flatten_blocks(bs) == flatten_blocks(bs.drop_last()).push(last.0) + last.1);
            assert(p + flatten_blocks(nb) =~= (p + flatten_blocks(bs)).push(l));
        }
        assert(ls.drop_last().push(l) =~= ls);
    }
}

proof fn lemma_plain_take(ls: Seq<Seq<char>>, n: int)
    requires
        plain_lines(ls),
        0 <= n <= ls.len(),
    ensures
        plain_lines(ls.take(n)),
{
    assert forall|i: int| 0 <= i < ls.take(n).len() implies line_ok(#[trigger] ls.take(n)[i])
        && !is_tag_line(ls.take(n)[i]) by {
        assert(line_ok(ls[i]) && !is_tag_line(ls[i]));
    }
}

proof fn lemma_transforms_wf(x: Blocks)
    requires
        well_formed(x),
    ensures
        well_formed(strip_between_messages_blocks(x)),
        well_formed(strip_excess_blocks(x)),
{
    let y = strip_between_messages_blocks(x);
    let z = strip_excess_blocks(x);
    if x.1.len() == 0 && x.0.len() > 1 {
        lemma_plain_take(x.0, 1);
    }
    assert(plain_lines(Seq::<Seq<char>>::empty()));
    assert forall|i: int| 0 <= i < y.1.len() implies block_ok(#[trigger] y.1[i]) by {
        assert(block_ok(x.1[i]));
        assert(plain_lines(Seq::<Seq<char>>::empty()));
    }
    assert forall|i: int| 0 <= i < z.1.len() implies block_ok(#[trigger] z.1[i]) by {
        assert(block_ok(x.1[i]));
        if x.1[i].1.len() > 5 {
            lemma_plain_take(x.1[i].1, 5);
        }
    }
}

proof fn lemma_transforms_fixed(x: Blocks)
    requires
        well_formed(x),
    ensures
        strip_between_messages_blocks(strip_excess_blocks(strip_between_messages_blocks(x)))
            == strip_excess_blocks(strip_between_messages_blocks(x)),
        strip_excess_blocks(strip_excess_blocks(strip_between_messages_blocks(x)))
            == strip_excess_blocks(strip_between_messages_blocks(x)),
{
    let y = strip_between_messages_blocks(x);
    let z = strip_excess_blocks(y);
    let a = strip_between_messages_blocks(z);
    let b = strip_excess_blocks(z);
    assert(z.1.len() == x.1.len());
    assert forall|i: int| 0 <= i < x.1.len() implies #[trigger] z.1[i].0 == x.1[i].0 by {}
    assert forall|i: int| 0 <= i < x.1.len() implies keeps_tail(z.1, i) == keeps_tail(x.1, i) by {
        if i + 1 < x.1.len() {
            assert(z.1[i + 1].0 == x.1[i + 1].0);
        }
    }
    if x.1.len() == 0 && x.0.len() > 1 {
        assert(x.0.take(1).len() == 1);
    }
    if x.1.len() > 0 {
        assert(z.1[0].0 == x.1[0].0);
    }
    assert(a.0 =~= z.0);
    assert forall|i: int| 0 <= i < a.1.len() implies #[trigger] a.1[i] == z.1[i] by {
        if !keeps_tail(x.1, i) {
            assert(y.1[i].1 =~= Seq::<Seq<char>>::empty());
            assert(z.1[i].1 =~= Seq::<Seq<char>>::empty());
        }
    }
    assert(a.1 =~= z.1);
    assert forall|i: int| 0 <= i < b.1.len() implies #[trigger] b.1[i] == z.1[i] by {
        if y.1[i].1.len() > 5 {
            assert(y.1[i].1.take(5).take(5) =~= y.1[i].1.take(5));
        }
    }
    assert(b.1 =~= z.1);
}

/// Sanitizing a second time changes nothing: `sanitize(sanitize(s)) == sanitize(s)`.
pub proof fn lemma_sanitize_idempotent(s: Seq<char>)
    ensures
        sanitize_spec(sanitize_spec(s)) == sanitize_spec(s),
{
    let a0 = swift_charset_spec(s);
    lemma_charset_all_swift(s);
    lemma_text_lines_ok(a0);
    let x = split_blocks(text_lines(a0));
    lemma_split_blocks_wf(text_lines(a0));
    let y = strip_between_messages_blocks(x);
    lemma_transforms_wf(x);
    lemma_flatten_ok(y);
    lemma_text_lines_join(flatten(y));
    lemma_split_flatten(y);
    let z = strip_excess_blocks(y);
    lemma_transforms_wf(y);
    lemma_flatten_ok(z);
    let out = join_crlf(flatten(z));
    assert(sanitize_spec(s) == out);
    lemma_join_swift(flatten(z));
    lemma_charset_identity(out);
    lemma_text_lines_join(flatten(z));
    lemma_split_flatten(z);
    lemma_transforms_fixed(x);
    lemma_transforms_wf(z);
    let w = strip_between_messages_blocks(z);
    assert(w == z);
    lemma_text_lines_join(flatten(w));
    lemma_split_flatten(w);
}


/// A statement that the sanitizers leave alone: lines in front of the first tag only where that
/// tag is no `:20:` (and at most one line where there is no tag at all), and continuation lines
/// only where the next tag is no `:20:`, or, after the last tag, where it is a `:86:`; at most
/// five after a `:86:`.
pub open spec fn clean_blocks(x: Blocks) -> bool {
    &&& x.1.len() == 0 ==> x.0.len() <= 1
    &&& x.1.len() > 0 && block_tag_is(x.1[0], seq!['2', '0']) ==> x.0.len() == 0
    &&& forall|i: int|
        0 <= i < x.1.len() && (#[trigger] x.1[i]).1.len() > 0 ==> keeps_tail(x.1, i) && (
        block_tag_is(x.1[i], seq!['8', '6']) ==> x.1[i].1.len() <= 5)
}

/// A statement that conforms to the grammar, is written in the SWIFT character set, and is clean
/// (`clean_blocks`) comes out of `sanitize` as it went in, but for its line endings, which all
/// become `"\r\n"`.
pub proof fn lemma_sanitize_keeps_clean_statement(s: Seq<char>)
    requires
        conforms(s),
        all_swift(s),
        clean_blocks(split_blocks(text_lines(s))),
    ensures
        sanitize_spec(s) == join_crlf(text_lines(s)),
{
    lemma_charset_identity(s);
    let ls = text_lines(s);
    lemma_text_lines_ok(s);
    let x = split_blocks(ls);
    lemma_split_blocks_wf(ls);
    let y = strip_between_messages_blocks(x);
    assert(y.0 =~= x.0);
    assert forall|i: int| 0 <= i < y.1.len() implies #[trigger] y.1[i] == x.1[i] by {
        if x.1[i].1.len() == 0 {
            assert(x.1[i].1 =~= Seq::<Seq<char>>::empty());
        }
    }
    assert(y.1 =~= x.1);
    assert(y == x);
    lemma_flatten_ok(x);
    lemma_text_lines_join(flatten(x));
    lemma_split_flatten(x);
    let z = strip_excess_blocks(x);
    assert forall|i: int| 0 <= i < z.1.len() implies #[trigger] z.1[i] == x.1[i] by {}
    assert(z.1 =~= x.1);
    assert(z == x);
    lemma_flatten_split(ls);
}

/// A line of a statement: not empty, no `'\r'` in it, and a tag line wherever it starts with
/// `':'`.
pub open spec fn statement_line_ok(l: Seq<char>) -> bool {
    &&& l.len() > 0
    &&& !l.contains('\r')
    &&& tag_at(l, 0) || l[0] != ':'
}

/// The number of tag lines among `ls`.
pub open spec fn tag_line_count(ls: Seq<Seq<char>>) -> nat
    decreases ls.len(),
{
    if ls.len() == 0 {
        0
    } else {
        tag_line_count(ls.drop_last()) + if tag_at(ls.last(), 0) {
            1nat
        } else {
            0nat
        }
    }
}

proof fn lemma_alnum_run_prefix(a: Seq<char>, s: Seq<char>, i: int)
    requires
        a.len() <= s.len(),
        s.subrange(0, a.len() as int) == a,
        0 <= i,
        i + alnum_run(a, i) < a.len(),
    ensures
        alnum_run(s, i) == alnum_run(a, i),
    decreases a.len() - i,
{
    assert(s[i] == a[i]) by {
        assert(s.subrange(0, a.len() as int)[i] == s[i]);
    }
    if alnum_run(a, i) > 0 {
        lemma_alnum_run_prefix(a, s, i + 1);
    }
}

proof fn lemma_join_prefix(ls: Seq<Seq<char>>)
    requires
        ls.len() > 0,
    ensures
        join_crlf(ls).len() >= ls[0].len(),
        join_crlf(ls).subrange(0, ls[0].len() as int) == ls[0],
    decreases ls.len(),
{
    if ls.len() == 1 {
        assert(ls.drop_last() =~= Seq::<Seq<char>>::empty());
        assert((ls[0] + seq!['\r', '\n']).subrange(0, ls[0].len() as int) =~= ls[0]);
        assert(join_crlf(ls.drop_last()) == Seq::<char>::empty());
        assert(ls.last() == ls[0]);
        assert(join_crlf(ls) =~= Seq::<char>::empty() + ls[0] + seq!['\r', '\n']);
    } else {
        lemma_join_prefix(ls.drop_last());
        let a = join_crlf(ls.drop_last());
        let full = a + ls.last() + seq!['\r', '\n'];
        assert(full.subrange(0, ls[0].len() as int) =~= a.subrange(0, ls[0].len() as int));
    }
}

proof fn lemma_scan_statement_lines(ls: Seq<Seq<char>>, k: int)
    requires
        ls.len() > 0,
        tag_at(ls[0], 0),
        lines_ok(ls),
        forall|i: int| 0 <= i < ls.len() ==> statement_line_ok(#[trigger] ls[i]),
        0 <= k <= ls.len(),
    ensures
        ({
            let segs = ls.map_values(|l: Seq<char>| l.push('\r')).push(Seq::empty());
            &&& scan_pieces(segs, k) is Ok
            &&& !scan_pieces(segs, k)->Ok_0.1
            &&& scan_pieces(segs, k)->Ok_0.0.len() == tag_line_count(ls.take(k))
            &&& k > 0 ==> scan_pieces(segs, k)->Ok_0.0.len() > 0
        }),
    decreases k,
{
    let segs = ls.map_values(|l: Seq<char>| l.push('\r')).push(Seq::empty());
    if k == 0 {
        assert(ls.take(0) =~= Seq::<Seq<char>>::empty());
    } else {
        lemma_scan_statement_lines(ls, k - 1);
        let l = ls[k - 1];
        assert(statement_line_ok(l));
        let seg = segs[k - 1];
        assert(seg == l.push('\r'));
        assert(seg.drop_last() =~= l);
        assert(ls.take(k).drop_last() =~= ls.take(k - 1));
        assert(ls.take(k).last() == l);
        if k == 1 {
            assert(tag_at(l, 0));
        }
    }
}

/// The tokenizer is total on statements of the grammar: CRLF-terminated lines of SWIFT
/// characters, the first one a tag line, none empty or holding another `'\r'`, and each that
/// starts with `':'` a tag line. It yields one field per tag line.
pub proof fn lemma_statement_conforms(ls: Seq<Seq<char>>)
    requires
        ls.len() > 0,
        tag_at(ls[0], 0),
        lines_ok(ls),
        forall|i: int| 0 <= i < ls.len() ==> statement_line_ok(#[trigger] ls[i]),
    ensures
        conforms(join_crlf(ls)),
        tokenize(join_crlf(ls))->Ok_0.len() == tag_line_count(ls),
{
    let s = join_crlf(ls);
    let a = ls[0];
    lemma_join_prefix(ls);
    lemma_alnum_run_prefix(a, s, 1);
    assert(s[0] == a[0]) by {
        assert(s.subrange(0, a.len() as int)[0] == s[0]);
    }
    let n = alnum_run(a, 1) as int;
    assert(s[1 + n] == a[1 + n]) by {
        assert(s.subrange(0, a.len() as int)[1 + n] == s[1 + n]);
    }
    assert(tag_at(s, 0));
    assert(first_tag_from(s, 0) == 0);
    assert(s.subrange(0, s.len() as int) == s);
    lemma_split_lf_join(ls);
    let segs = ls.map_values(|l: Seq<char>| l.push('\r')).push(Seq::empty());
    lemma_scan_statement_lines(ls, ls.len() as int);
    assert(ls.take(ls.len() as int) == ls);
    assert(segs[ls.len() as int] == Seq::<char>::empty());
}

} // verus!
