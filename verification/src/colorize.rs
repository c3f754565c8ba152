//! Parsing color spans out of a catalog entry's description.
//!
//! A description may embed spans of the shape `{color:NAME}TEXT{/color}`,
//! where `NAME` is one or more word bytes and `TEXT` is the shortest run
//! without a line feed before the next closing tag.  Parsing yields the
//! plain runs and the colored spans in order; painting the spans with
//! terminal escapes is the surrounding binary's business, since it
//! depends on where the output goes.

use vstd::prelude::*;
use vstd::string::StringSliceAdditionalSpecFns;
use crate::bytes::starts_with;
use crate::bytes::starts_with_bytes;
use crate::bytes::to_vec_bytes;
use crate::lines::LF;

verus! {

/// One piece of a parsed description: a run of plain bytes, or a span to
/// paint in the named color.
#[derive(Debug, PartialEq, Eq)]
pub enum Segment {
    Plain(Vec<u8>),
    Colored(Vec<u8>, Vec<u8>),
}

/// The mathematical shape of one piece.
#[verifier::ext_equal]
pub enum SegmentView {
    Plain(Seq<u8>),
    Colored(Seq<u8>, Seq<u8>),
}

impl View for Segment {
    type V = SegmentView;

    open spec fn view(&self) -> SegmentView {
        match self {
            Segment::Plain(b) => SegmentView::Plain(b@),
            Segment::Colored(name, text) => SegmentView::Colored(name@, text@),
        }
    }
}

/// The opening tag up to the color name.
pub open spec fn open_tag() -> Seq<u8> {
    "{color:".spec_bytes()
}

/// The closing tag.
pub open spec fn close_tag() -> Seq<u8> {
    "{/color}".spec_bytes()
}

pub const RBRACE: u8 = 125;

/// A word byte: a letter, a digit, or an underscore.
pub open spec fn is_word_byte(b: u8) -> bool {
    (48 <= b && b <= 57) || (65 <= b && b <= 90) || (97 <= b && b <= 122) || b == 95
}

/// How many word bytes `s` begins with.
pub open spec fn word_run(s: Seq<u8>) -> int
    decreases s.len(),
{
    if s.len() > 0 && is_word_byte(s[0]) {
        1 + word_run(s.drop_first())
    } else {
        0
    }
}

proof fn lemma_word_run_bounds(s: Seq<u8>)
    ensures
        0 <= word_run(s) <= s.len(),
    decreases s.len(),
{
    if s.len() > 0 && is_word_byte(s[0]) {
        lemma_word_run_bounds(s.drop_first());
    }
}

/// Where the closing tag first starts in `s`, provided no line feed comes
/// before it; -1 when the span cannot close.
pub open spec fn close_at(s: Seq<u8>) -> int
    decreases s.len(),
{
    if starts_with(s, close_tag()) {
        0
    } else if s.len() == 0 || s[0] == LF {
        -1
    } else {
        let r = close_at(s.drop_first());
        if r == -1 {
            -1
        } else {
            r + 1
        }
    }
}

proof fn lemma_close_at_bounds(s: Seq<u8>)
    ensures
        close_at(s) >= 0 ==> close_at(s) + close_tag().len() <= s.len(),
        close_at(s) >= -1,
    decreases s.len(),
{
    if !starts_with(s, close_tag()) && s.len() > 0 && s[0] != LF {
        lemma_close_at_bounds(s.drop_first());
    }
}

/// The span that begins exactly at the start of `s`: its color name, its
/// text, and the total length it covers; or nothing when no span begins
/// here.
pub open spec fn span_at(s: Seq<u8>) -> Option<(Seq<u8>, Seq<u8>, int)> {
    if starts_with(s, open_tag()) {
        let after = s.skip(open_tag().len() as int);
        let w = word_run(after);
        if w > 0 && w < after.len() && after[w] == RBRACE {
            let rest = after.skip(w + 1);
            let c = close_at(rest);
            if c >= 0 {
                Some(
                    (
                        after.take(w),
                        rest.take(c),
                        open_tag().len() + w + 1 + c + close_tag().len(),
                    ),
                )
            } else {
                None
            }
        } else {
            None
        }
    } else {
        None
    }
}

proof fn lemma_span_at_bounds(s: Seq<u8>)
    ensures
        span_at(s) matches Some(m) ==> 0 < m.2 <= s.len(),
{
    if starts_with(s, open_tag()) {
        let after = s.skip(open_tag().len() as int);
        lemma_word_run_bounds(after);
        let w = word_run(after);
        if w > 0 && w < after.len() && after[w] == RBRACE {
            let rest = after.skip(w + 1);
            lemma_close_at_bounds(rest);
        }
    }
}

/// The parsed pieces of `s`, plain bytes one by one.
pub open spec fn spec_spans(s: Seq<u8>) -> Seq<SegmentView>
    decreases s.len(),
    via spec_spans_decreases
{
    if s.len() == 0 {
        Seq::empty()
    } else {
        match span_at(s) {
            Some(m) => seq![SegmentView::Colored(m.0, m.1)] + spec_spans(s.skip(m.2)),
            None => seq![SegmentView::Plain(seq![s[0]])] + spec_spans(s.drop_first()),
        }
    }
}

#[via_fn]
proof fn spec_spans_decreases(s: Seq<u8>) {
    lemma_span_at_bounds(s);
}

/// The pieces with every plain run taken apart into single bytes, the
/// shape `spec_spans` yields them in.
pub open spec fn exploded(segs: Seq<SegmentView>) -> Seq<SegmentView>
    decreases segs.len(),
{
    if segs.len() == 0 {
        Seq::empty()
    } else {
        let head = match segs[0] {
            SegmentView::Plain(b) => single_plains(b),
            SegmentView::Colored(name, text) => seq![SegmentView::Colored(name, text)],
        };
        head + exploded(segs.drop_first())
    }
}

/// One plain piece per byte.
pub open spec fn single_plains(b: Seq<u8>) -> Seq<SegmentView>
    decreases b.len(),
{
    if b.len() == 0 {
        Seq::empty()
    } else {
        seq![SegmentView::Plain(seq![b[0]])] + single_plains(b.drop_first())
    }
}

proof fn lemma_single_plains_push(b: Seq<u8>, x: u8)
    ensures
        single_plains(b.push(x)) == single_plains(b) + seq![SegmentView::Plain(seq![x])],
    decreases b.len(),
{
    if b.len() == 0 {
        assert(b.push(x) =~= seq![x]);
        assert(b.push(x).drop_first() =~= Seq::<u8>::empty());
        assert(single_plains(Seq::<u8>::empty()) =~= Seq::<SegmentView>::empty());
        assert(single_plains(b.push(x)) =~~= single_plains(b) + seq![
            SegmentView::Plain(seq![x]),
        ]);
    } else {
        assert(b.push(x)[0] == b[0]);
        assert(b.push(x).drop_first() =~= b.drop_first().push(x));
        lemma_single_plains_push(b.drop_first(), x);
        assert(single_plains(b.push(x)) == seq![SegmentView::Plain(seq![b[0]])] + (single_plains(
            b.drop_first(),
        ) + seq![SegmentView::Plain(seq![x])]));
        assert(single_plains(b) == seq![SegmentView::Plain(seq![b[0]])] + single_plains(
            b.drop_first(),
        ));
        assert(seq![SegmentView::Plain(seq![b[0]])] + (single_plains(b.drop_first()) + seq![
            SegmentView::Plain(seq![x]),
        ]) =~~= (seq![SegmentView::Plain(seq![b[0]])] + single_plains(b.drop_first())) + seq![
            SegmentView::Plain(seq![x]),
        ]);
    }
}

proof fn lemma_exploded_push(segs: Seq<SegmentView>, s: SegmentView)
    ensures
        exploded(segs.push(s)) == exploded(segs) + (match s {
            SegmentView::Plain(b) => single_plains(b),
            SegmentView::Colored(name, text) => seq![SegmentView::Colored(name, text)],
        }),
    decreases segs.len(),
{
    let tail = match s {
        SegmentView::Plain(b) => single_plains(b),
        SegmentView::Colored(name, text) => seq![SegmentView::Colored(name, text)],
    };
    if segs.len() == 0 {
        assert(segs.push(s) =~= seq![s]);
        assert(segs.push(s).drop_first() =~= Seq::<SegmentView>::empty());
        assert(tail + exploded(Seq::<SegmentView>::empty()) =~= tail);
        assert(exploded(segs) + tail =~= tail);
    } else {
        assert(segs.push(s)[0] == segs[0]);
        assert(segs.push(s).drop_first() =~= segs.drop_first().push(s));
        lemma_exploded_push(segs.drop_first(), s);
        let head = match segs[0] {
            SegmentView::Plain(b) => single_plains(b),
            SegmentView::Colored(name, text) => seq![SegmentView::Colored(name, text)],
        };
        assert(head + (exploded(segs.drop_first()) + tail) =~= (head + exploded(
            segs.drop_first(),
        )) + tail);
    }
}

/// The span that begins exactly at position `p` of `desc`, if any.
fn try_span(desc: &[u8], p: usize) -> (r: Option<(Vec<u8>, Vec<u8>, usize)>)
    requires
        p <= desc@.len(),
    ensures
        match r {
            Some(m) => span_at(desc@.skip(p as int)) matches Some(sm) && m.0@ == sm.0 && m.1@
                == sm.1 && m.2 == sm.2 && p + m.2 <= desc@.len(),
            None => span_at(desc@.skip(p as int)) is None,
        },
{
    let ghost s = desc@.skip(p as int);
    let n: usize = desc.len();
    let tail: &[u8] = &desc[p..n];
    assert(tail@ =~= s);
    if !starts_with_bytes(tail, "{color:".as_bytes()) {
        return None;
    }
    let open_len: usize = "{color:".as_bytes().len();
    assert(open_len == open_tag().len());
    let ghost after = s.skip(open_len as int);
    let mut w: usize = open_len;
    assert(after.skip(0) =~= after);
    while w < tail.len() && ((48 <= tail[w] && tail[w] <= 57) || (65 <= tail[w] && tail[w] <= 90)
        || (97 <= tail[w] && tail[w] <= 122) || tail[w] == 95)
        invariant
            open_len == open_tag().len(),
            open_len <= w <= tail@.len(),
            tail@ == s,
            after == s.skip(open_len as int),
            word_run(after) == w - open_len + word_run(after.skip(w - open_len)),
        decreases tail@.len() - w,
    {
        assert(after.skip(w - open_len)[0] == after[w - open_len]);
        assert(after[w - open_len] == tail@[w as int]);
        assert(after.skip(w - open_len).drop_first() =~= after.skip(w - open_len + 1));
        w += 1;
    }
    proof {
        if w < tail@.len() {
            assert(after.skip(w - open_len)[0] == after[w - open_len]);
            assert(after[w - open_len] == tail@[w as int]);
        }
        assert(word_run(after.skip(w - open_len)) == 0);
        assert(word_run(after) == w - open_len);
    }
    let word_count = w - open_len;
    if word_count == 0 {
        return None;
    }
    if w >= tail.len() || tail[w] != RBRACE {
        proof {
            if w < tail@.len() {
                assert(after[word_run(after)] == tail@[w as int]);
            }
            lemma_word_run_bounds(after);
        }
        return None;
    }
    assert(after[word_run(after)] == RBRACE);
    let ghost rest = after.skip(word_run(after) + 1);
    let text_start: usize = w + 1;
    let mut c: usize = text_start;
    assert(rest.skip(0) =~= rest);
    assert(rest =~= s.skip(text_start as int));
    let close_len: usize = "{/color}".as_bytes().len();
    assert(close_len == close_tag().len());
    let mut closed: bool = false;
    loop
        invariant_except_break
            close_len == close_tag().len(),
            text_start <= c <= tail@.len(),
            tail@ == s,
            s == desc@.skip(p as int),
            rest == s.skip(text_start as int),
            n == desc@.len(),
            p + tail@.len() == n,
            !closed,
            close_at(rest) == if close_at(rest.skip(c - text_start)) == -1 {
                -1
            } else {
                c - text_start + close_at(rest.skip(c - text_start))
            },
        ensures
            closed ==> close_at(rest) >= 0 && c - text_start == close_at(rest) && c + close_len
                <= tail@.len() && text_start <= c,
            !closed ==> close_at(rest) == -1,
        decreases tail@.len() - c,
    {
        let sub: &[u8] = &desc[p + c..n];
        assert(sub@ =~= s.skip(c as int));
        assert(s.skip(c as int) =~= rest.skip(c - text_start));
        if starts_with_bytes(sub, "{/color}".as_bytes()) {
            assert(close_at(rest.skip(c - text_start)) == 0);
            assert(sub@.len() >= close_tag().len());
            closed = true;
            break ;
        }
        if c >= tail.len() || tail[c] == LF {
            proof {
                if c < tail@.len() {
                    assert(rest.skip(c - text_start)[0] == tail@[c as int]);
                }
                assert(close_at(rest.skip(c - text_start)) == -1);
            }
            break ;
        }
        assert(rest.skip(c - text_start)[0] == tail@[c as int]);
        assert(rest.skip(c - text_start).drop_first() =~= rest.skip(c - text_start + 1));
        proof {
            lemma_close_at_bounds(rest.skip(c - text_start + 1));
            let shifted = rest.skip(c - text_start);
            assert(!starts_with(shifted, close_tag()));
            assert(shifted.len() > 0);
            assert(shifted[0] != LF);
            assert(close_at(shifted) == (if close_at(rest.skip(c - text_start + 1)) == -1 {
                -1int
            } else {
                1 + close_at(rest.skip(c - text_start + 1))
            }));
        }
        c += 1;
    }
    if !closed {
        return None;
    }
    let name = to_vec_bytes(&desc[p + open_len..p + w]);
    let text = to_vec_bytes(&desc[p + text_start..p + c]);
    let total: usize = c + close_len;
    proof {
        let sm = span_at(s).unwrap();
        assert(name@ =~= after.take(word_run(after)));
        assert(text@ =~= rest.take(close_at(rest)));
        assert(total == open_tag().len() + word_run(after) + 1 + close_at(rest)
            + close_tag().len());
    }
    Some((name, text, total))
}

/// Parses a description into its plain runs and color spans, in order.
pub fn parse_color_spans(desc: &[u8]) -> (r: Vec<Segment>)
    ensures
        exploded(r@.map_values(|g: Segment| g@)) == spec_spans(desc@),
{
    let mut r: Vec<Segment> = Vec::new();
    let mut pending: Vec<u8> = Vec::new();
    let n: usize = desc.len();
    let mut p: usize = 0;
    assert(desc@.skip(0) =~= desc@);
    assert(exploded(r@.map_values(|g: Segment| g@)) =~= Seq::<SegmentView>::empty());
    assert(single_plains(pending@) =~= Seq::<SegmentView>::empty());
    assert(Seq::<SegmentView>::empty() + Seq::<SegmentView>::empty() + spec_spans(desc@)
        =~= spec_spans(desc@));
    while p < n
        invariant
            n == desc@.len(),
            p <= n,
            exploded(r@.map_values(|g: Segment| g@)) + single_plains(pending@) + spec_spans(
                desc@.skip(p as int),
            ) == spec_spans(desc@),
        decreases n - p,
    {
        let ghost done = exploded(r@.map_values(|g: Segment| g@));
        let ghost pend = single_plains(pending@);
        let ghost suffix = desc@.skip(p as int);
        match try_span(desc, p) {
            Some(m) => {
                let ghost sm = span_at(suffix).unwrap();
                proof {
                    lemma_span_at_bounds(suffix);
                }
                if pending.len() > 0 {
                    let ghost rmap = r@.map_values(|g: Segment| g@);
                    let ghost pview = pending@;
                    let flushed = Segment::Plain(pending);
                    pending = Vec::new();
                    r.push(flushed);
                    proof {
                        assert(r@.map_values(|g: Segment| g@) =~= rmap.push(
                            SegmentView::Plain(pview),
                        ));
                        lemma_exploded_push(rmap, SegmentView::Plain(pview));
                    }
                }
                let ghost rmap2 = r@.map_values(|g: Segment| g@);
                let ghost nameview = m.0@;
                let ghost textview = m.1@;
                let total = m.2;
                r.push(Segment::Colored(m.0, m.1));
                proof {
                    assert(r@.map_values(|g: Segment| g@) =~= rmap2.push(
                        SegmentView::Colored(nameview, textview),
                    ));
                    lemma_exploded_push(rmap2, SegmentView::Colored(nameview, textview));
                    assert(suffix.skip(sm.2) =~= desc@.skip(p + sm.2));
                    assert(exploded(r@.map_values(|g: Segment| g@)) + single_plains(
                        Seq::<u8>::empty(),
                    ) + spec_spans(desc@.skip(p + sm.2)) =~= done + pend + spec_spans(suffix));
                }
                p += total;
            },
            None => {
                let b = desc[p];
                let ghost pview = pending@;
                pending.push(b);
                proof {
                    lemma_single_plains_push(pview, b);
                    assert(suffix.drop_first() =~= desc@.skip(p + 1));
                    assert(suffix[0] == desc@[p as int]);
                    assert(done + single_plains(pending@) + spec_spans(desc@.skip(p + 1)) =~= done
                        + pend + spec_spans(suffix));
                }
                p += 1;
            },
        }
    }
    assert(desc@.skip(n as int) =~= Seq::<u8>::empty());
    let ghost done = exploded(r@.map_values(|g: Segment| g@));
    let ghost pend = single_plains(pending@);
    assert(done + pend + spec_spans(Seq::<u8>::empty()) =~= done + pend);
    if pending.len() > 0 {
        let ghost rmap = r@.map_values(|g: Segment| g@);
        let ghost pview = pending@;
        let flushed = Segment::Plain(pending);
        r.push(flushed);
        proof {
            assert(r@.map_values(|g: Segment| g@) =~= rmap.push(SegmentView::Plain(pview)));
            lemma_exploded_push(rmap, SegmentView::Plain(pview));
        }
        assert(exploded(r@.map_values(|g: Segment| g@)) =~= done + pend);
    } else {
        assert(pend =~= Seq::<SegmentView>::empty());
        assert(done + pend =~= done);
    }
    r
}

} // verus!
