//! Disabling the startup colorscript call in a shell configuration file.
//!
//! Every line that launches `pokemon-colorscripts` and is not already a
//! comment gets a comment sign in front; all other lines pass through
//! unchanged.  The lines are rejoined with a line feed between
//! consecutive lines and none at the end.

use vstd::prelude::*;
use vstd::string::StringSliceAdditionalSpecFns;
use crate::bytes::HASH;
use crate::bytes::push_bytes;
use crate::bytes::starts_with;
use crate::bytes::starts_with_bytes;
use crate::bytes::trim_start_blank;
use crate::lines::LF;
use crate::lines::join_separated;
use crate::lines::spec_lines;
use crate::lines::split_lines;

verus! {

/// The command whose startup lines are commented out.
pub open spec fn colorscript_prefix() -> Seq<u8> {
    "pokemon-colorscripts".spec_bytes()
}

/// A line, commented out when it starts the colorscript command and is
/// not already a comment after leading whitespace.
pub open spec fn spec_fix_line(l: Seq<u8>) -> Seq<u8> {
    if starts_with(l, colorscript_prefix()) && !(trim_start_blank(l).len() > 0 && trim_start_blank(
        l,
    )[0] == HASH) {
        seq![HASH] + l
    } else {
        l
    }
}

/// The whole file text after the rewrite.
pub open spec fn spec_modify_zshrc(text: Seq<u8>) -> Seq<u8> {
    join_separated(spec_lines(text).map_values(|l: Seq<u8>| spec_fix_line(l)))
}

/// One line after the rewrite.
fn fix_line(line: &[u8]) -> (r: Vec<u8>)
    ensures
        r@ == spec_fix_line(line@),
{
    let mut r: Vec<u8> = Vec::new();
    if starts_with_bytes(line, "pokemon-colorscripts".as_bytes()) && !already_comment(line) {
        r.push(HASH);
    }
    push_bytes(&mut r, line);
    assert(r@ =~= spec_fix_line(line@));
    r
}

/// The line's first byte after leading whitespace is a comment sign.
fn already_comment(line: &[u8]) -> (r: bool)
    ensures
        r == (trim_start_blank(line@).len() > 0 && trim_start_blank(line@)[0] == HASH),
{
    let n: usize = line.len();
    let mut i: usize = 0;
    assert(line@.skip(0) =~= line@);
    while i < n && (line[i] == 32 || line[i] == 9 || line[i] == 10 || line[i] == 13 || line[i]
        == 11 || line[i] == 12)
        invariant
            n == line@.len(),
            i <= n,
            trim_start_blank(line@) == trim_start_blank(line@.skip(i as int)),
        decreases n - i,
    {
        assert(line@.skip(i as int)[0] == line@[i as int]);
        assert(line@.skip(i as int).drop_first() =~= line@.skip(i + 1));
        i += 1;
    }
    if i < n {
        assert(line@.skip(i as int)[0] == line@[i as int]);
        line[i] == HASH
    } else {
        false
    }
}

proof fn lemma_join_separated_push(lines: Seq<Seq<u8>>, x: Seq<u8>)
    ensures
        lines.len() == 0 ==> join_separated(lines.push(x)) == x,
        lines.len() > 0 ==> join_separated(lines.push(x)) == join_separated(lines) + seq![LF] + x,
    decreases lines.len(),
{
    if lines.len() == 0 {
        assert(lines.push(x) =~= seq![x]);
        assert(join_separated(seq![x]) == x);
    } else {
        lemma_join_separated_push(lines.drop_first(), x);
        assert(lines.push(x).drop_first() =~= lines.drop_first().push(x));
        assert(lines.push(x)[0] == lines[0]);
        if lines.len() == 1 {
            assert(join_separated(lines.push(x)) == lines[0] + seq![LF] + x);
            assert(join_separated(lines) == lines[0]);
        } else {
            assert(join_separated(lines.push(x)) == lines[0] + seq![LF] + (join_separated(
                lines.drop_first(),
            ) + seq![LF] + x));
            assert(lines[0] + seq![LF] + (join_separated(lines.drop_first()) + seq![LF] + x) =~= (
            lines[0] + seq![LF] + join_separated(lines.drop_first())) + seq![LF] + x);
        }
    }
}

/// Rewrites the whole file text: the transformed lines, joined with a
/// line feed between consecutive lines.
pub fn modify_zshrc_text(text: &[u8]) -> (r: Vec<u8>)
    ensures
        r@ == spec_modify_zshrc(text@),
{
    let lines = split_lines(text);
    let ghost mapped = spec_lines(text@).map_values(|l: Seq<u8>| spec_fix_line(l));
    let mut r: Vec<u8> = Vec::new();
    let n: usize = lines.len();
    let mut i: usize = 0;
    while i < n
        invariant
            n == lines@.len(),
            i <= n,
            lines.deep_view() == spec_lines(text@),
            mapped == spec_lines(text@).map_values(|l: Seq<u8>| spec_fix_line(l)),
            mapped.len() == n,
            r@ == join_separated(mapped.subrange(0, i as int)),
        decreases n - i,
    {
        let fixed = fix_line(lines[i].as_slice());
        assert(lines.deep_view()[i as int] == lines@[i as int]@);
        assert(fixed@ == mapped[i as int]);
        proof {
            lemma_join_separated_push(mapped.subrange(0, i as int), mapped[i as int]);
            assert(mapped.subrange(0, i as int).push(mapped[i as int]) =~= mapped.subrange(
                0,
                i + 1,
            ));
        }
        if i > 0 {
            r.push(LF);
        }
        push_bytes(&mut r, fixed.as_slice());
        i += 1;
    }
    assert(mapped.subrange(0, n as int) =~= mapped);
    r
}

} // verus!
