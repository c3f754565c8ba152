//! The customization marker and the predicates built on it.
//!
//! The marker is a single fixed comment line whose presence in a file's
//! text is the sole signal that the file contains (or once contained) user
//! customizations below a boundary.  The provenance banner is a second
//! fixed line written right after a freshly restored block, so that a later
//! restore pass can recognize previously restored boilerplate and skip it.

use vstd::prelude::*;
use vstd::string::StringSliceAdditionalSpecFns;
use crate::bytes::contains_bytes;
use crate::bytes::has_substring;
use crate::bytes::push_bytes;
use crate::lines::LF;

verus! {

/// The sentinel line separating generated content from user customizations,
/// as a byte sequence.  It must match byte for byte across install and
/// restore.
pub open spec fn marker_bytes() -> Seq<u8> {
    "# ================== Customized Configurations Below ===========================".spec_bytes()
}

/// The provenance banner written right after a freshly restored marker
/// block, as a byte sequence.
pub open spec fn banner_bytes() -> Seq<u8> {
    "#                      Auto-restored by HyDE-Ext".spec_bytes()
}

/// The decorative box-drawing line that frames the marker and the banner.
pub open spec fn decor_bytes() -> Seq<u8> {
    "# ==============================================================================".spec_bytes()
}

/// The marker line as live bytes.
pub fn marker_line() -> (r: &'static [u8])
    ensures
        r@ == marker_bytes(),
{
    "# ================== Customized Configurations Below ===========================".as_bytes()
}

/// The provenance banner line as live bytes.
pub fn banner_line() -> (r: &'static [u8])
    ensures
        r@ == banner_bytes(),
{
    "#                      Auto-restored by HyDE-Ext".as_bytes()
}

/// The decorative line as live bytes.
pub fn decor_line() -> (r: &'static [u8])
    ensures
        r@ == decor_bytes(),
{
    "# ==============================================================================".as_bytes()
}

/// A file's text contains the customization marker.
pub open spec fn spec_has_marker(text: Seq<u8>) -> bool {
    has_substring(text, marker_bytes())
}

/// The shared "is this file already customized" test of both components.
pub fn has_marker(text: &[u8]) -> (r: bool)
    ensures
        r == spec_has_marker(text@),
{
    contains_bytes(text, marker_line())
}

/// Whether a target file may receive freshly generated base content: yes
/// unless its text already carries the marker and the operator did not
/// force the run.
pub open spec fn spec_should_install(target_text: Seq<u8>, force: bool) -> bool {
    force || !spec_has_marker(target_text)
}

/// The marker guard's decision.  `target_text` is the target file's current
/// text, with an unreadable or missing target passed as empty text.  The
/// result is `false` iff the text contains the marker and `force` is false.
pub fn should_install(target_text: &[u8], force: bool) -> (r: bool)
    ensures
        r == spec_should_install(target_text@, force),
{
    force || !has_marker(target_text)
}

/// The exact bytes an install appends onto a target it may write: a blank
/// separator line, the generated base content, and a closing line feed.
/// No marker is inserted here; writing the marker is exclusively the
/// backup merge engine's business.
pub open spec fn spec_install_payload(source_text: Seq<u8>) -> Seq<u8> {
    seq![LF] + source_text + seq![LF]
}

/// Builds the bytes an install appends for the base content `source_text`.
pub fn install_payload(source_text: &[u8]) -> (r: Vec<u8>)
    ensures
        r@ == spec_install_payload(source_text@),
{
    let mut r: Vec<u8> = Vec::new();
    r.push(LF);
    push_bytes(&mut r, source_text);
    r.push(LF);
    assert(r@ =~= spec_install_payload(source_text@));
    r
}

/// The marker guard's whole install step: given the generated base
/// content and the target's current text, hands back the bytes to append,
/// or `None` when the target already carries the marker and the run is
/// not forced — the repeated install is then a permanent no-op for this
/// file.
pub fn install_file_step(source_text: &[u8], target_text: &[u8], force: bool) -> (r: Option<
    Vec<u8>,
>)
    ensures
        spec_should_install(target_text@, force) ==> (r matches Some(p) && p@
            == spec_install_payload(source_text@)),
        !spec_should_install(target_text@, force) ==> r is None,
{
    if should_install(target_text, force) {
        Some(install_payload(source_text))
    } else {
        None
    }
}

} // verus!
