//! Splitting file text into lines, and joining lines back into text.
//!
//! A line ends at each line feed; a carriage return immediately before the
//! line feed is not part of the line.  Text after the last line feed forms
//! a final line, and text ending in a line feed has no empty final line.
//! These are the conventions of the readers that the surrounding binary
//! uses to scan configuration files.

use vstd::prelude::*;

verus! {

pub const LF: u8 = 10;

pub const CR: u8 = 13;

/// One captured line with a single trailing carriage return removed.
pub open spec fn strip_cr(l: Seq<u8>) -> Seq<u8> {
    if l.len() > 0 && l.last() == CR {
        l.drop_last()
    } else {
        l
    }
}

/// The lines of `text` when the bytes `cur` have already been read as the
/// beginning of the current line.
pub open spec fn split_rest(text: Seq<u8>, cur: Seq<u8>) -> Seq<Seq<u8>>
    decreases text.len(),
{
    if text.len() == 0 {
        if cur.len() == 0 {
            Seq::empty()
        } else {
            seq![strip_cr(cur)]
        }
    } else if text[0] == LF {
        seq![strip_cr(cur)] + split_rest(text.drop_first(), Seq::empty())
    } else {
        split_rest(text.drop_first(), cur.push(text[0]))
    }
}

/// The lines of `text`.
pub open spec fn spec_lines(text: Seq<u8>) -> Seq<Seq<u8>> {
    split_rest(text, Seq::empty())
}

/// Removes one trailing carriage return, if any.
fn strip_cr_exec(line: Vec<u8>) -> (r: Vec<u8>)
    ensures
        r@ == strip_cr(line@),
{
    let mut line = line;
    if line.len() > 0 && line[line.len() - 1] == CR {
        let _last = line.pop();
    }
    line
}

/// Splits `text` into its lines.
pub fn split_lines(text: &[u8]) -> (lines: Vec<Vec<u8>>)
    ensures
        lines.deep_view() == spec_lines(text@),
{
    let mut lines: Vec<Vec<u8>> = Vec::new();
    let mut cur: Vec<u8> = Vec::new();
    let n: usize = text.len();
    let mut i: usize = 0;
    assert(lines.deep_view() =~~= Seq::<Seq<u8>>::empty());
    assert(text@.skip(0) =~= text@);
    assert(Seq::<Seq<u8>>::empty() + spec_lines(text@) =~~= spec_lines(text@));
    while i < n
        invariant
            n == text@.len(),
            i <= n,
            spec_lines(text@) == lines.deep_view() + split_rest(text@.skip(i as int), cur@),
        decreases n - i,
    {
        let ghost prev_lines = lines.deep_view();
        let ghost prev_cur = cur@;
        assert(text@.skip(i as int).drop_first() =~= text@.skip(i + 1));
        assert(text@.skip(i as int)[0] == text@[i as int]);
        let b = text[i];
        if b == LF {
            let line = strip_cr_exec(cur);
            cur = Vec::new();
            lines.push(line);
            assert(lines.deep_view() =~~= prev_lines.push(strip_cr(prev_cur)));
            assert(prev_lines.push(strip_cr(prev_cur)) + split_rest(text@.skip(i + 1), cur@)
                =~~= prev_lines + (seq![strip_cr(prev_cur)] + split_rest(
                text@.skip(i + 1),
                cur@,
            )));
        }
        else {
            cur.push(b);
        }
        i += 1;
    }
    assert(text@.skip(n as int) =~= Seq::<u8>::empty());
    let ghost prev_lines = lines.deep_view();
    let ghost prev_cur = cur@;
    if cur.len() > 0 {
        let line = strip_cr_exec(cur);
        lines.push(line);
        assert(lines.deep_view() =~~= prev_lines.push(strip_cr(prev_cur)));
        assert(prev_lines.push(strip_cr(prev_cur)) =~~= prev_lines + seq![strip_cr(prev_cur)]);
    } else {
        assert(prev_lines + split_rest(Seq::empty(), prev_cur) =~~= prev_lines);
    }
    lines
}

/// The concatenation of `lines` with a line feed between consecutive lines
/// and none at the end.
pub open spec fn join_separated(lines: Seq<Seq<u8>>) -> Seq<u8>
    decreases lines.len(),
{
    if lines.len() == 0 {
        Seq::empty()
    } else if lines.len() == 1 {
        lines[0]
    } else {
        lines[0] + seq![LF] + join_separated(lines.drop_first())
    }
}

} // verus!
