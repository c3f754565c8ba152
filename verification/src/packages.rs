//! Parsing a package list file into titled groups.
//!
//! The list is plain text: a comment line containing a run of equal signs
//! opens a new group and carries the group's title between the comment
//! signs; other comment lines are ignored; every non-blank line names one
//! package, trimmed of surrounding whitespace.  Packages collected before
//! the next separator (or the end of the file) form one group under the
//! most recent title.

use vstd::prelude::*;
use vstd::string::StringSliceAdditionalSpecFns;
use crate::bytes::HASH;
use crate::bytes::contains_bytes;
use crate::bytes::has_substring;
use crate::bytes::to_vec_bytes;
use crate::bytes::trim_blank;
use crate::bytes::trim_blank_slice;
use crate::bytes::trim_byte;
use crate::bytes::trim_byte_slice;
use crate::lines::spec_lines;
use crate::lines::split_lines;

verus! {

/// One titled group of package names.
pub struct PackageGroup {
    pub title: Vec<u8>,
    pub packages: Vec<Vec<u8>>,
}

/// The mathematical shape of one group.
#[verifier::ext_equal]
pub struct PackageGroupView {
    pub title: Seq<u8>,
    pub packages: Seq<Seq<u8>>,
}

impl View for PackageGroup {
    type V = PackageGroupView;

    open spec fn view(&self) -> PackageGroupView {
        PackageGroupView { title: self.title@, packages: self.packages.deep_view() }
    }
}

/// The run of equal signs that makes a comment line a group separator.
pub open spec fn separator_marker() -> Seq<u8> {
    "=====".spec_bytes()
}

/// The parser's state between two lines: the pending title, the packages
/// collected since the last separator, and the groups already closed.
#[verifier::ext_equal]
pub struct ListScan {
    pub title: Seq<u8>,
    pub current: Seq<Seq<u8>>,
    pub groups: Seq<PackageGroupView>,
}

/// The parser's state before the first line.
pub open spec fn list_init() -> ListScan {
    ListScan { title: Seq::empty(), current: Seq::empty(), groups: Seq::empty() }
}

/// Closes the pending group, if it holds any package.
pub open spec fn close_current(st: ListScan) -> Seq<PackageGroupView> {
    if st.current.len() > 0 {
        st.groups.push(PackageGroupView { title: st.title, packages: st.current })
    } else {
        st.groups
    }
}

/// The state after reading one line.
pub open spec fn list_step(st: ListScan, line: Seq<u8>) -> ListScan {
    if line.len() > 0 && line[0] == HASH {
        if has_substring(line, separator_marker()) {
            ListScan {
                title: trim_blank(trim_byte(line, HASH)),
                current: Seq::empty(),
                groups: close_current(st),
            }
        } else {
            st
        }
    } else if trim_blank(line).len() > 0 {
        ListScan { title: st.title, current: st.current.push(trim_blank(line)), groups: st.groups }
    } else {
        st
    }
}

/// The state after reading all of `lines` starting from `st`.
pub open spec fn list_scan(st: ListScan, lines: Seq<Seq<u8>>) -> ListScan
    decreases lines.len(),
{
    if lines.len() == 0 {
        st
    } else {
        list_scan(list_step(st, lines[0]), lines.drop_first())
    }
}

/// The titled groups of the whole list text, the pending group closed at
/// the end of the file.
pub open spec fn spec_package_groups(text: Seq<u8>) -> Seq<PackageGroupView> {
    close_current(list_scan(list_init(), spec_lines(text)))
}

/// Parses the package list `text` into its titled groups.
pub fn parse_package_groups(text: &[u8]) -> (groups: Vec<PackageGroup>)
    ensures
        groups@.map_values(|g: PackageGroup| g@) == spec_package_groups(text@),
{
    let lines = split_lines(text);
    let mut title: Vec<u8> = Vec::new();
    let mut current: Vec<Vec<u8>> = Vec::new();
    let mut groups: Vec<PackageGroup> = Vec::new();
    let n: usize = lines.len();
    let mut i: usize = 0;
    assert(lines.deep_view().skip(0) =~= lines.deep_view());
    assert(ListScan {
        title: title@,
        current: current.deep_view(),
        groups: groups@.map_values(|g: PackageGroup| g@),
    } =~~= list_init());
    while i < n
        invariant
            n == lines@.len(),
            i <= n,
            list_scan(list_init(), lines.deep_view()) == list_scan(
                ListScan {
                    title: title@,
                    current: current.deep_view(),
                    groups: groups@.map_values(|g: PackageGroup| g@),
                },
                lines.deep_view().skip(i as int),
            ),
        decreases n - i,
    {
        let ghost st = ListScan {
            title: title@,
            current: current.deep_view(),
            groups: groups@.map_values(|g: PackageGroup| g@),
        };
        let ghost rest = lines.deep_view().skip(i as int);
        assert(rest.drop_first() =~= lines.deep_view().skip(i + 1));
        assert(rest[0] == lines@[i as int]@);
        let line: &[u8] = lines[i].as_slice();
        if line.len() > 0 && line[0] == HASH {
            if contains_bytes(line, "=====".as_bytes()) {
                if current.len() > 0 {
                    let ghost prev_groups = groups@.map_values(|g: PackageGroup| g@);
                    let ghost closed_view = PackageGroupView {
                        title: title@,
                        packages: current.deep_view(),
                    };
                    let closed = PackageGroup { title: title, packages: current };
                    assert(closed@ =~~= closed_view);
                    groups.push(closed);
                    assert(groups@.map_values(|g: PackageGroup| g@) =~~= prev_groups.push(
                        closed_view,
                    ));
                    title = Vec::new();
                    current = Vec::new();
                }
                let hashless = trim_byte_slice(line, HASH);
                let titled = trim_blank_slice(hashless);
                title = to_vec_bytes(titled);
                assert(current.deep_view() =~~= Seq::<Seq<u8>>::empty());
            }
        } else {
            let trimmed = trim_blank_slice(line);
            if trimmed.len() > 0 {
                let ghost prev_current = current.deep_view();
                current.push(to_vec_bytes(trimmed));
                assert(current.deep_view() =~~= prev_current.push(trim_blank(rest[0])));
            }
        }
        assert(ListScan {
            title: title@,
            current: current.deep_view(),
            groups: groups@.map_values(|g: PackageGroup| g@),
        } =~~= list_step(st, rest[0]));
        i += 1;
    }
    assert(lines.deep_view().skip(n as int) =~= Seq::<Seq<u8>>::empty());
    let ghost end = list_scan(list_init(), lines.deep_view());
    if current.len() > 0 {
        let ghost prev_groups = groups@.map_values(|g: PackageGroup| g@);
        let ghost closed_view = PackageGroupView { title: title@, packages: current.deep_view() };
        let closed = PackageGroup { title: title, packages: current };
        assert(closed@ =~~= closed_view);
        groups.push(closed);
        assert(groups@.map_values(|g: PackageGroup| g@) =~~= prev_groups.push(closed_view));
    }
    assert(groups@.map_values(|g: PackageGroup| g@) =~~= close_current(end));
    groups
}

} // verus!
