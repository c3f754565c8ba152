//! Ordering backup folder names.
//!
//! The operator picks a backup snapshot from the subdirectories of the
//! backup location, listed newest first: since the folders carry
//! timestamp-shaped names, sorting the names in descending byte order
//! puts the most recent snapshot on top.

use vstd::prelude::*;

verus! {

/// Lexicographic byte order: `a` comes no later than `b`.
pub open spec fn lex_le(a: Seq<u8>, b: Seq<u8>) -> bool
    decreases a.len(),
{
    if a.len() == 0 {
        true
    } else if b.len() == 0 {
        false
    } else if a[0] < b[0] {
        true
    } else if a[0] > b[0] {
        false
    } else {
        lex_le(a.drop_first(), b.drop_first())
    }
}

/// Any two names are ordered one way or the other.
pub proof fn lemma_lex_le_total(a: Seq<u8>, b: Seq<u8>)
    ensures
        lex_le(a, b) || lex_le(b, a),
    decreases a.len(),
{
    if a.len() > 0 && b.len() > 0 && a[0] == b[0] {
        lemma_lex_le_total(a.drop_first(), b.drop_first());
    }
}

/// The order is transitive.
pub proof fn lemma_lex_le_trans(a: Seq<u8>, b: Seq<u8>, c: Seq<u8>)
    requires
        lex_le(a, b),
        lex_le(b, c),
    ensures
        lex_le(a, c),
    decreases a.len(),
{
    if a.len() > 0 {
        if b.len() > 0 && c.len() > 0 && a[0] == b[0] && b[0] == c[0] {
            lemma_lex_le_trans(a.drop_first(), b.drop_first(), c.drop_first());
        }
    }
}

/// Decides the lexicographic byte order.
pub fn lex_le_bytes(a: &[u8], b: &[u8]) -> (r: bool)
    ensures
        r == lex_le(a@, b@),
{
    let an: usize = a.len();
    let bn: usize = b.len();
    let mut i: usize = 0;
    assert(a@.skip(0) =~= a@);
    assert(b@.skip(0) =~= b@);
    while i < an && i < bn
        invariant
            an == a@.len(),
            bn == b@.len(),
            i <= an,
            i <= bn,
            lex_le(a@, b@) == lex_le(a@.skip(i as int), b@.skip(i as int)),
        decreases an - i,
    {
        assert(a@.skip(i as int)[0] == a@[i as int]);
        assert(b@.skip(i as int)[0] == b@[i as int]);
        if a[i] < b[i] {
            return true;
        }
        if a[i] > b[i] {
            return false;
        }
        assert(a@.skip(i as int).drop_first() =~= a@.skip(i + 1));
        assert(b@.skip(i as int).drop_first() =~= b@.skip(i + 1));
        i += 1;
    }
    if i >= an {
        assert(a@.skip(i as int).len() == 0);
        true
    } else {
        assert(a@.skip(i as int).len() > 0);
        assert(b@.skip(i as int).len() == 0);
        false
    }
}

/// The position of a greatest name in `names`.
fn find_max_index(names: &Vec<Vec<u8>>) -> (best: usize)
    requires
        names@.len() > 0,
    ensures
        best < names@.len(),
        forall|k: int|
            0 <= k < names@.len() ==> lex_le(#[trigger] names@[k]@, names@[best as int]@),
{
    let n: usize = names.len();
    let mut best: usize = 0;
    let mut j: usize = 1;
    proof {
        lemma_lex_le_total(names@[0]@, names@[0]@);
    }
    while j < n
        invariant
            n == names@.len(),
            best < j <= n || (best == 0 && j <= n),
            best < n,
            forall|k: int| 0 <= k < j ==> lex_le(#[trigger] names@[k]@, names@[best as int]@),
        decreases n - j,
    {
        proof {
            lemma_lex_le_total(names@[j as int]@, names@[best as int]@);
        }
        if !lex_le_bytes(names[j].as_slice(), names[best].as_slice()) {
            proof {
                let old_best = best as int;
                assert forall|k: int| 0 <= k < j implies lex_le(
                    #[trigger] names@[k]@,
                    names@[j as int]@,
                ) by {
                    lemma_lex_le_trans(names@[k]@, names@[old_best]@, names@[j as int]@);
                }
                lemma_lex_le_total(names@[j as int]@, names@[j as int]@);
            }
            best = j;
        }
        j += 1;
    }
    best
}

/// Sorts folder names in descending byte order, so that the newest
/// timestamp-named snapshot comes first.  The result lists exactly the
/// given names.
pub fn sort_names_descending(names: Vec<Vec<u8>>) -> (r: Vec<Vec<u8>>)
    ensures
        r@.len() == names@.len(),
        forall|i: int, j: int| 0 <= i < j < r@.len() ==> lex_le(#[trigger] r@[j]@, #[trigger] r@[i]@),
        r.deep_view().to_multiset() == names.deep_view().to_multiset(),
{
    broadcast use vstd::seq_lib::group_to_multiset_ensures;

    let mut remaining = names;
    let mut r: Vec<Vec<u8>> = Vec::new();
    assert(r.deep_view() =~~= Seq::<Seq<u8>>::empty());
    assert(r.deep_view().to_multiset().add(remaining.deep_view().to_multiset())
        =~= remaining.deep_view().to_multiset());
    while remaining.len() > 0
        invariant
            r@.len() + remaining@.len() == names@.len(),
            forall|i: int, j: int|
                0 <= i < j < r@.len() ==> lex_le(#[trigger] r@[j]@, #[trigger] r@[i]@),
            forall|i: int, j: int|
                0 <= i < r@.len() && 0 <= j < remaining@.len() ==> lex_le(
                    #[trigger] remaining@[j]@,
                    #[trigger] r@[i]@,
                ),
            r.deep_view().to_multiset().add(remaining.deep_view().to_multiset())
                == names.deep_view().to_multiset(),
        decreases remaining@.len(),
    {
        let ghost old_r = r@;
        let ghost old_rdv = r.deep_view();
        let ghost old_rem = remaining@;
        let ghost old_remdv = remaining.deep_view();
        let best = find_max_index(&remaining);
        let picked = remaining.remove(best);
        let ghost picked_view = picked@;
        r.push(picked);
        proof {
            assert(remaining.deep_view() =~~= old_remdv.remove(best as int));
            assert(r.deep_view() =~~= old_rdv.push(picked_view));
            assert(old_remdv[best as int] == picked_view);
            old_remdv.to_multiset_ensures();
            old_rdv.to_multiset_ensures();
            assert(old_remdv.remove(best as int).to_multiset() =~= old_remdv.to_multiset().remove(
                picked_view,
            ));
            assert(old_rdv.push(picked_view).to_multiset() =~= old_rdv.to_multiset().insert(
                picked_view,
            ));
            assert(old_remdv.to_multiset().count(picked_view) > 0) by {
                assert(old_remdv.contains(picked_view));
            }
            assert(old_rdv.to_multiset().insert(picked_view).add(
                old_remdv.to_multiset().remove(picked_view),
            ) =~= old_rdv.to_multiset().add(old_remdv.to_multiset()));
            assert(forall|j: int|
                0 <= j < remaining@.len() ==> remaining@[j]@ == old_remdv.remove(best as int)[j]);
            assert(forall|j: int|
                0 <= j < remaining@.len() ==> lex_le(#[trigger] remaining@[j]@, picked_view));
        }
    }
    assert(remaining.deep_view() =~~= Seq::<Seq<u8>>::empty());
    assert(r.deep_view().to_multiset().add(Seq::<Seq<u8>>::empty().to_multiset())
        =~= r.deep_view().to_multiset());
    r
}

} // verus!
