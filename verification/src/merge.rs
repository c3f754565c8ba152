//! The backup merge engine's per-file logic.
//!
//! For one backed-up file the engine resolves the live counterpart of the
//! backup-relative path, extracts the customization block from the backup
//! copy, gates on a conflict when the live target is already marked, and
//! builds the decorated block that a restore appends onto the live file.
//! The surrounding binary walks the backup tree, reads and appends files,
//! and asks the operator about conflicts; every decision in between is
//! taken here.

use vstd::prelude::*;
use vstd::string::StringSliceAdditionalSpecFns;
use crate::bytes::bytes_eq;
use crate::bytes::push_bytes;
use crate::bytes::starts_with;
use crate::extract::extract_customization;
use crate::extract::spec_customization_block;
use crate::lines::LF;
use crate::marker::banner_bytes;
use crate::marker::banner_line;
use crate::marker::decor_bytes;
use crate::marker::decor_line;
use crate::marker::has_marker;
use crate::marker::marker_bytes;
use crate::marker::marker_line;
use crate::marker::spec_has_marker;
use crate::marker::spec_should_install;

verus! {

pub const SLASH: u8 = 47;

pub const DOT: u8 = 46;

/// The result of feeding one backed-up file through the engine.
#[derive(Clone, Copy, PartialEq, Eq, Debug, Structural)]
pub enum RestoreOutcome {
    /// The customization block was appended onto the live target.
    Restored,
    /// No live counterpart of the backed-up file exists; nothing is
    /// created.
    SkippedNoTarget,
    /// The backup copy holds no customization block to restore.
    SkippedNoCustomization,
    /// The live target is already marked and the operator declined to
    /// restore over it.
    SkippedUserDeclined,
    /// Reading or writing a file failed; the walk continues.
    Failed,
}

/// The literal first path segment under which a backup mirrors the
/// configuration directory itself.
pub open spec fn config_segment() -> Seq<u8> {
    ".config".spec_bytes()
}

/// The backup-relative path's first segment is the literal `.config`.
pub open spec fn first_segment_is_config(rel: Seq<u8>) -> bool {
    rel == config_segment() || starts_with(rel, config_segment() + seq![SLASH])
}

/// Resolves a backup-relative path to its live counterpart under the home
/// directory `home` (given without a trailing separator).  A path whose
/// first segment is `.config` lands inside the live configuration root
/// `home/.config` without duplicating the segment; any other path lands
/// directly under `home`.
pub fn resolve_live_path(home: &[u8], rel: &[u8]) -> (r: Vec<u8>)
    ensures
        first_segment_is_config(rel@) ==> r@ == (home@ + seq![SLASH] + config_segment())
            + rel@.skip(config_segment().len() as int),
        !first_segment_is_config(rel@) ==> r@ == home@ + seq![SLASH] + rel@,
{
    let mut r: Vec<u8> = Vec::new();
    push_bytes(&mut r, home);
    r.push(SLASH);
    push_bytes(&mut r, rel);
    assert(r@ =~= home@ + seq![SLASH] + rel@);
    proof {
        let seg = config_segment();
        if rel@ == seg {
            assert(rel@.skip(seg.len() as int) =~= Seq::<u8>::empty());
            assert(r@ =~= (home@ + seq![SLASH] + seg) + rel@.skip(seg.len() as int));
        } else if starts_with(rel@, seg + seq![SLASH]) {
            assert(rel@.subrange(0, seg.len() as int) =~= (seg + seq![SLASH]).subrange(
                0,
                seg.len() as int,
            ));
            assert((seg + seq![SLASH]).subrange(0, seg.len() as int) =~= seg);
            assert(rel@ =~= rel@.subrange(0, seg.len() as int) + rel@.skip(seg.len() as int));
            assert(r@ =~= (home@ + seq![SLASH] + seg) + rel@.skip(seg.len() as int));
        }
    }
    r
}

/// The position of the last occurrence of `b` in `s`, or -1 when `b` does
/// not occur.
pub open spec fn last_index_of(s: Seq<u8>, b: u8) -> int
    decreases s.len(),
{
    if s.len() == 0 {
        -1
    } else if s.last() == b {
        s.len() - 1
    } else {
        last_index_of(s.drop_last(), b)
    }
}

proof fn lemma_last_index_of_bounds(s: Seq<u8>, b: u8)
    ensures
        -1 <= last_index_of(s, b) < s.len(),
    decreases s.len(),
{
    if s.len() > 0 && s.last() != b {
        lemma_last_index_of_bounds(s.drop_last(), b);
    }
}

/// The position of the last occurrence of `b` in `s`, if any.
fn rfind_byte(s: &[u8], b: u8) -> (r: Option<usize>)
    ensures
        match r {
            Some(i) => i == last_index_of(s@, b) && i < s@.len(),
            None => last_index_of(s@, b) == -1,
        },
{
    let mut i: usize = s.len();
    assert(s@.subrange(0, s@.len() as int) =~= s@);
    while i > 0
        invariant
            i <= s@.len(),
            last_index_of(s@, b) == last_index_of(s@.subrange(0, i as int), b),
        decreases i,
    {
        assert(s@.subrange(0, i as int).last() == s@[i - 1]);
        if s[i - 1] == b {
            return Some(i - 1);
        }
        assert(s@.subrange(0, i as int).drop_last() =~= s@.subrange(0, i - 1));
        i -= 1;
    }
    assert(s@.subrange(0, 0) =~= Seq::<u8>::empty());
    None
}

/// The file name of `path`: everything after the last separator.
pub open spec fn file_name_of(path: Seq<u8>) -> Seq<u8> {
    path.skip(last_index_of(path, SLASH) + 1)
}

/// A backed-up file is excluded from restoring when its file name carries
/// one of the binary image extensions, matched exactly and case
/// sensitively.  A name whose only dot leads (a hidden file) has no
/// extension.
pub open spec fn spec_is_excluded(path: Seq<u8>) -> bool {
    let name = file_name_of(path);
    let d = last_index_of(name, DOT);
    d >= 1 && {
        let ext = name.skip(d + 1);
        ext == "png".spec_bytes() || ext == "jpg".spec_bytes() || ext == "svg".spec_bytes()
    }
}

/// Decides whether the backup tree walk skips `path` as a binary image.
pub fn is_excluded_extension(path: &[u8]) -> (r: bool)
    ensures
        r == spec_is_excluded(path@),
{
    proof {
        lemma_last_index_of_bounds(path@, SLASH);
    }
    let n: usize = path.len();
    let name_start: usize = match rfind_byte(path, SLASH) {
        Some(i) => i + 1,
        None => 0,
    };
    let name: &[u8] = &path[name_start..n];
    assert(name@ =~= file_name_of(path@));
    proof {
        lemma_last_index_of_bounds(name@, DOT);
    }
    match rfind_byte(name, DOT) {
        Some(d) => {
            if d >= 1 {
                let ext: &[u8] = &name[d + 1..name.len()];
                assert(ext@ =~= file_name_of(path@).skip(d + 1));
                bytes_eq(ext, "png".as_bytes()) || bytes_eq(ext, "jpg".as_bytes()) || bytes_eq(
                    ext,
                    "svg".as_bytes(),
                )
            } else {
                false
            }
        },
        None => false,
    }
}

/// The exact bytes a restore appends onto the live target: two blank
/// lines, the decorated block framing the marker and the provenance
/// banner, then the customization block.
pub open spec fn spec_restore_payload(block: Seq<u8>) -> Seq<u8> {
    seq![LF] + seq![LF] + decor_bytes() + seq![LF] + marker_bytes() + seq![LF] + decor_bytes()
        + seq![LF] + banner_bytes() + seq![LF] + decor_bytes() + seq![LF] + block + seq![LF]
}

/// Builds the bytes a restore appends for the extracted `block`.
pub fn restore_payload(block: &[u8]) -> (r: Vec<u8>)
    ensures
        r@ == spec_restore_payload(block@),
{
    let mut r: Vec<u8> = Vec::new();
    r.push(LF);
    r.push(LF);
    push_bytes(&mut r, decor_line());
    r.push(LF);
    push_bytes(&mut r, marker_line());
    r.push(LF);
    push_bytes(&mut r, decor_line());
    r.push(LF);
    push_bytes(&mut r, banner_line());
    r.push(LF);
    push_bytes(&mut r, decor_line());
    r.push(LF);
    push_bytes(&mut r, block);
    r.push(LF);
    assert(r@ =~= spec_restore_payload(block@));
    r
}

/// Whether restoring this backup copy into this live target needs the
/// operator's confirmation first: there is a non-empty block to restore,
/// and the target already carries the marker.
pub fn needs_confirmation(backup_text: &[u8], target_text: &[u8]) -> (r: bool)
    ensures
        r == (spec_customization_block(backup_text@).len() > 0 && spec_has_marker(target_text@)),
{
    let extracted = extract_customization(backup_text);
    extracted.1.len() > 0 && has_marker(target_text)
}

/// One backed-up file's trip through the engine, after the surrounding
/// binary has read the backup copy (`backup_text`), learned whether the
/// resolved live target exists (`target_exists`), read the live target's
/// text (`target_text`, empty when the target is missing), and obtained
/// the operator's answer to the conflict prompt (`proceed`, asked only
/// when the conflict arises; a declined or never-asked prompt is `false`).
///
/// Returns the outcome together with the bytes to append onto the live
/// target, or `None` when the target must stay untouched.  A missing
/// target is never created; a declined conflict leaves the target's bytes
/// exactly as they were.
pub fn restore_file_step(
    backup_text: &[u8],
    target_exists: bool,
    target_text: &[u8],
    proceed: bool,
) -> (r: (RestoreOutcome, Option<Vec<u8>>))
    ensures
        !target_exists ==> r == (RestoreOutcome::SkippedNoTarget, None::<Vec<u8>>),
        target_exists && spec_customization_block(backup_text@).len() == 0 ==> r == (
            RestoreOutcome::SkippedNoCustomization,
            None::<Vec<u8>>,
        ),
        target_exists && spec_customization_block(backup_text@).len() > 0 && spec_has_marker(
            target_text@,
        ) && !proceed ==> r == (RestoreOutcome::SkippedUserDeclined, None::<Vec<u8>>),
        target_exists && spec_customization_block(backup_text@).len() > 0 && (!spec_has_marker(
            target_text@,
        ) || proceed) ==> r.0 == RestoreOutcome::Restored && (r.1 matches Some(p) && p@
            == spec_restore_payload(spec_customization_block(backup_text@))),
{
    if !target_exists {
        return (RestoreOutcome::SkippedNoTarget, None);
    }
    let extracted = extract_customization(backup_text);
    let block = extracted.1;
    if block.len() == 0 {
        return (RestoreOutcome::SkippedNoCustomization, None);
    }
    if has_marker(target_text) && !proceed {
        return (RestoreOutcome::SkippedUserDeclined, None);
    }
    let payload = restore_payload(block.as_slice());
    (RestoreOutcome::Restored, Some(payload))
}

/// How many outcomes of a run are `Restored`: the run's summary count.
pub open spec fn spec_count_restored(outcomes: Seq<RestoreOutcome>) -> int
    decreases outcomes.len(),
{
    if outcomes.len() == 0 {
        0
    } else {
        spec_count_restored(outcomes.drop_last()) + if outcomes.last() is Restored {
            1int
        } else {
            0int
        }
    }
}

proof fn lemma_count_restored_le_len(outcomes: Seq<RestoreOutcome>)
    ensures
        0 <= spec_count_restored(outcomes) <= outcomes.len(),
    decreases outcomes.len(),
{
    if outcomes.len() > 0 {
        lemma_count_restored_le_len(outcomes.drop_last());
    }
}

/// Counts the files a run restored.
pub fn count_restored(outcomes: &Vec<RestoreOutcome>) -> (n: usize)
    ensures
        n == spec_count_restored(outcomes@),
{
    let mut n: usize = 0;
    let mut i: usize = 0;
    assert(outcomes@.subrange(0, 0) =~= Seq::<RestoreOutcome>::empty());
    while i < outcomes.len()
        invariant
            i <= outcomes@.len(),
            0 <= n <= i,
            n == spec_count_restored(outcomes@.subrange(0, i as int)),
        decreases outcomes@.len() - i,
    {
        proof {
            lemma_count_restored_le_len(outcomes@.subrange(0, i as int));
        }
        assert(outcomes@.subrange(0, i + 1).drop_last() =~= outcomes@.subrange(0, i as int));
        assert(outcomes@.subrange(0, i + 1).last() == outcomes@[i as int]);
        if matches!(outcomes[i], RestoreOutcome::Restored) {
            n += 1;
        }
        i += 1;
    }
    assert(outcomes@.subrange(0, outcomes@.len() as int) =~= outcomes@);
    n
}

/// Appending never shrinks a file and never disturbs the bytes already
/// present: the merged text keeps the prior text as its exact prefix,
/// whatever tail an install or restore appends.
pub proof fn lemma_append_preserves_prefix(text: Seq<u8>, tail: Seq<u8>)
    ensures
        (text + tail).len() >= text.len(),
        (text + tail).subrange(0, text.len() as int) == text,
{
    assert((text + tail).subrange(0, text.len() as int) =~= text);
}

/// A restore stamps the marker into the live target for good: after a
/// restore-merge, the target's text contains the marker, and the marker
/// guard refuses any further unforced install into it.
pub proof fn lemma_restored_target_rejects_reinstall(target: Seq<u8>, block: Seq<u8>)
    ensures
        spec_has_marker(target + spec_restore_payload(block)),
        !spec_should_install(target + spec_restore_payload(block), false),
{
    let merged = target + spec_restore_payload(block);
    let i = target.len() + 3 + decor_bytes().len();
    assert(merged.subrange(i as int, i + marker_bytes().len() as int) =~= marker_bytes());
}

} // verus!
