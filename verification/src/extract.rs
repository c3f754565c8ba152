//! Extraction of a customization block from a backup copy.
//!
//! The backup copy's lines are scanned in order by a small state machine.
//! A line equal to the marker starts capturing and discards the next line
//! (the decorative line that always follows the marker).  A line containing
//! the provenance banner is discarded together with the line after it, so
//! that boilerplate written by a prior restore pass is not captured again.
//! Every other line seen while capturing joins the block, with a line feed
//! after it.

use vstd::prelude::*;
use crate::bytes::bytes_eq;
use crate::bytes::contains_bytes;
use crate::bytes::has_substring;
use crate::bytes::push_bytes;
use crate::lines::LF;
use crate::lines::spec_lines;
use crate::lines::split_lines;
use crate::marker::banner_bytes;
use crate::marker::banner_line;
use crate::marker::marker_bytes;
use crate::marker::marker_line;

verus! {

/// The scanner's state between two lines: whether lines are currently
/// captured, and whether the next line is discarded unconditionally.
#[derive(Clone, Copy, PartialEq, Eq, Structural)]
pub struct ScanState {
    pub appending: bool,
    pub skip_next: bool,
}

/// The scanner's state before the first line: seeking, nothing to skip.
pub open spec fn scan_init() -> ScanState {
    ScanState { appending: false, skip_next: false }
}

/// The state after reading one line in state `st`.
pub open spec fn scan_step(st: ScanState, line: Seq<u8>) -> ScanState {
    if st.skip_next {
        ScanState { appending: st.appending, skip_next: false }
    } else if line == marker_bytes() {
        ScanState { appending: true, skip_next: true }
    } else if has_substring(line, banner_bytes()) {
        ScanState { appending: st.appending, skip_next: true }
    } else {
        st
    }
}

/// The bytes that reading `line` in state `st` adds to the block: the line
/// and a line feed when the line is captured, nothing otherwise.
pub open spec fn scan_capture(st: ScanState, line: Seq<u8>) -> Seq<u8> {
    if !st.skip_next && line != marker_bytes() && !has_substring(line, banner_bytes())
        && st.appending {
        line + seq![LF]
    } else {
        Seq::empty()
    }
}

/// The state after reading all of `lines` starting in state `st`.
pub open spec fn scan_state(st: ScanState, lines: Seq<Seq<u8>>) -> ScanState
    decreases lines.len(),
{
    if lines.len() == 0 {
        st
    } else {
        scan_state(scan_step(st, lines[0]), lines.drop_first())
    }
}

/// The block captured from `lines` starting in state `st`.
pub open spec fn scan_block(st: ScanState, lines: Seq<Seq<u8>>) -> Seq<u8>
    decreases lines.len(),
{
    if lines.len() == 0 {
        Seq::empty()
    } else {
        scan_capture(st, lines[0]) + scan_block(scan_step(st, lines[0]), lines.drop_first())
    }
}

/// The marker (or a prior restore's banner block) was seen somewhere in
/// the backup copy's text.
pub open spec fn spec_found_marker(text: Seq<u8>) -> bool {
    scan_state(scan_init(), spec_lines(text)).appending
}

/// The customization block extracted from the backup copy's text.
pub open spec fn spec_customization_block(text: Seq<u8>) -> Seq<u8> {
    scan_block(scan_init(), spec_lines(text))
}

/// Scans the backup copy's text and returns whether a marker was found,
/// together with the extracted customization block.  A result of `false`
/// means the backup copy holds no customization at all; an empty block
/// means there is nothing to restore either way.
pub fn extract_customization(backup_text: &[u8]) -> (r: (bool, Vec<u8>))
    ensures
        r.0 == spec_found_marker(backup_text@),
        r.1@ == spec_customization_block(backup_text@),
{
    let lines = split_lines(backup_text);
    let marker = marker_line();
    let banner = banner_line();
    let mut appending = false;
    let mut skip_next = false;
    let mut block: Vec<u8> = Vec::new();
    let n: usize = lines.len();
    let mut i: usize = 0;
    assert(lines.deep_view().skip(0) =~= lines.deep_view());
    assert(Seq::<u8>::empty() + spec_customization_block(backup_text@) =~= spec_customization_block(
        backup_text@,
    ));
    while i < n
        invariant
            n == lines@.len(),
            i <= n,
            lines.deep_view() == spec_lines(backup_text@),
            marker@ == marker_bytes(),
            banner@ == banner_bytes(),
            spec_found_marker(backup_text@) == scan_state(
                ScanState { appending, skip_next },
                lines.deep_view().skip(i as int),
            ).appending,
            spec_customization_block(backup_text@) == block@ + scan_block(
                ScanState { appending, skip_next },
                lines.deep_view().skip(i as int),
            ),
        decreases n - i,
    {
        let ghost st = ScanState { appending, skip_next };
        let ghost rest = lines.deep_view().skip(i as int);
        assert(rest.drop_first() =~= lines.deep_view().skip(i + 1));
        assert(rest[0] == lines@[i as int]@);
        let line = &lines[i];
        if skip_next {
            skip_next = false;
        } else if bytes_eq(line.as_slice(), marker) {
            appending = true;
            skip_next = true;
        } else if contains_bytes(line.as_slice(), banner) {
            skip_next = true;
        } else if appending {
            let ghost prev_block = block@;
            push_bytes(&mut block, line.as_slice());
            block.push(LF);
            assert(block@ =~= prev_block + scan_capture(st, rest[0]));
            assert(prev_block + (scan_capture(st, rest[0]) + scan_block(
                scan_step(st, rest[0]),
                rest.drop_first(),
            )) =~= (prev_block + scan_capture(st, rest[0])) + scan_block(
                scan_step(st, rest[0]),
                rest.drop_first(),
            ));
        } else {
            assert(block@ + Seq::<u8>::empty() =~= block@);
        }
        assert(ScanState { appending, skip_next } == scan_step(st, rest[0]));
        proof {
            if scan_capture(st, rest[0]).len() == 0 {
                assert(block@ + (scan_capture(st, rest[0]) + scan_block(
                    scan_step(st, rest[0]),
                    rest.drop_first(),
                )) =~= block@ + scan_block(scan_step(st, rest[0]), rest.drop_first()));
            }
        }
        i += 1;
    }
    assert(lines.deep_view().skip(n as int) =~= Seq::<Seq<u8>>::empty());
    assert(block@ + Seq::<u8>::empty() =~= block@);
    (appending, block)
}

} // verus!
