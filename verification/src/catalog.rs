//! The asset catalog's entries, as the installers consume them.
//!
//! Reading and deserializing the catalog files, and asking the operator
//! which entries to install, belong to the surrounding binary; what
//! arrives here is one resolved entry per install action.  This module
//! models the entry, expands the home shorthand in its target path,
//! dispatches its handler name, and maps an operator's pick back to the
//! entry it names.

use vstd::prelude::*;
use vstd::string::StringSliceAdditionalSpecFns;
use crate::bytes::bytes_eq;
use crate::bytes::contains_bytes;
use crate::bytes::has_substring;
use crate::bytes::push_bytes;
use crate::bytes::to_vec_bytes;

verus! {

pub const TILDE: u8 = 126;

pub const SPACE: u8 = 32;

/// The width every title is padded to before the description joins it on
/// the selection screen.
pub const TITLE_WIDTH: usize = 50;

/// One installable entry of the asset catalog.
pub struct FileEntry {
    pub title: Vec<u8>,
    pub description: Vec<u8>,
    pub handler: Vec<u8>,
    pub default: bool,
    pub source_path: Option<Vec<u8>>,
    pub target_path: Option<Vec<u8>>,
}

/// The mathematical shape of one entry.
#[verifier::ext_equal]
pub struct FileEntryView {
    pub title: Seq<u8>,
    pub description: Seq<u8>,
    pub handler: Seq<u8>,
    pub default: bool,
    pub source_path: Option<Seq<u8>>,
    pub target_path: Option<Seq<u8>>,
}

impl View for FileEntry {
    type V = FileEntryView;

    open spec fn view(&self) -> FileEntryView {
        FileEntryView {
            title: self.title@,
            description: self.description@,
            handler: self.handler@,
            default: self.default,
            source_path: match self.source_path {
                Some(p) => Some(p@),
                None => None,
            },
            target_path: match self.target_path {
                Some(p) => Some(p@),
                None => None,
            },
        }
    }
}

/// `path` with every home shorthand byte replaced by the home directory.
pub open spec fn spec_expand_home(path: Seq<u8>, home: Seq<u8>) -> Seq<u8>
    decreases path.len(),
{
    if path.len() == 0 {
        Seq::empty()
    } else if path[0] == TILDE {
        home + spec_expand_home(path.drop_first(), home)
    } else {
        seq![path[0]] + spec_expand_home(path.drop_first(), home)
    }
}

/// Replaces every home shorthand byte in a catalog path by the home
/// directory, as the catalog reader does before handing the entry on.
pub fn expand_home(path: &[u8], home: &[u8]) -> (r: Vec<u8>)
    ensures
        r@ == spec_expand_home(path@, home@),
{
    let mut r: Vec<u8> = Vec::new();
    let n: usize = path.len();
    let mut i: usize = 0;
    assert(path@.skip(0) =~= path@);
    assert(r@ + spec_expand_home(path@, home@) =~= spec_expand_home(path@, home@));
    while i < n
        invariant
            n == path@.len(),
            i <= n,
            spec_expand_home(path@, home@) == r@ + spec_expand_home(
                path@.skip(i as int),
                home@,
            ),
        decreases n - i,
    {
        let ghost rest = path@.skip(i as int);
        assert(rest[0] == path@[i as int]);
        assert(rest.drop_first() =~= path@.skip(i + 1));
        let ghost prev = r@;
        if path[i] == TILDE {
            push_bytes(&mut r, home);
            assert(prev + (home@ + spec_expand_home(rest.drop_first(), home@)) =~= (prev + home@)
                + spec_expand_home(rest.drop_first(), home@));
        } else {
            r.push(path[i]);
            assert(prev + (seq![path@[i as int]] + spec_expand_home(rest.drop_first(), home@))
                =~= prev.push(path@[i as int]) + spec_expand_home(rest.drop_first(), home@));
        }
        i += 1;
    }
    assert(path@.skip(n as int) =~= Seq::<u8>::empty());
    assert(r@ + Seq::<u8>::empty() =~= r@);
    r
}

/// The installer that an entry's handler name selects.
#[derive(Clone, Copy, PartialEq, Eq, Debug, Structural)]
pub enum HandlerKind {
    Configs,
    Assets,
    Packages,
    Scripts,
    Ufw,
    Other,
}

/// The installer selected by `handler`.
pub open spec fn spec_parse_handler(handler: Seq<u8>) -> HandlerKind {
    if handler == "configs".spec_bytes() {
        HandlerKind::Configs
    } else if handler == "assets".spec_bytes() {
        HandlerKind::Assets
    } else if handler == "packages".spec_bytes() {
        HandlerKind::Packages
    } else if handler == "scripts".spec_bytes() {
        HandlerKind::Scripts
    } else if handler == "ufw".spec_bytes() {
        HandlerKind::Ufw
    } else {
        HandlerKind::Other
    }
}

/// Dispatches an entry's handler name to its installer.
pub fn parse_handler(handler: &[u8]) -> (r: HandlerKind)
    ensures
        r == spec_parse_handler(handler@),
{
    if bytes_eq(handler, "configs".as_bytes()) {
        HandlerKind::Configs
    } else if bytes_eq(handler, "assets".as_bytes()) {
        HandlerKind::Assets
    } else if bytes_eq(handler, "packages".as_bytes()) {
        HandlerKind::Packages
    } else if bytes_eq(handler, "scripts".as_bytes()) {
        HandlerKind::Scripts
    } else if bytes_eq(handler, "ufw".as_bytes()) {
        HandlerKind::Ufw
    } else {
        HandlerKind::Other
    }
}

/// The entry that stands in for a whole asset folder whose catalog file
/// is missing: titled and described by the folder's name, with no
/// handler and no paths, never selected by default.
pub fn missing_catalog_entry(folder: &[u8]) -> (r: FileEntry)
    ensures
        r@ == (FileEntryView {
            title: folder@,
            description: folder@,
            handler: Seq::empty(),
            default: false,
            source_path: None,
            target_path: None,
        }),
{
    let r = FileEntry {
        title: to_vec_bytes(folder),
        description: to_vec_bytes(folder),
        handler: Vec::new(),
        default: false,
        source_path: None,
        target_path: None,
    };
    assert(r@ =~~= (FileEntryView {
        title: folder@,
        description: folder@,
        handler: Seq::empty(),
        default: false,
        source_path: None,
        target_path: None,
    }));
    r
}

/// `title` padded on the right with spaces up to the selection screen's
/// title width; a longer title stays as it is.
pub open spec fn spec_padded_title(title: Seq<u8>) -> Seq<u8> {
    if title.len() >= TITLE_WIDTH {
        title
    } else {
        title + Seq::new((TITLE_WIDTH - title.len()) as nat, |i: int| SPACE)
    }
}

/// Pads a title for the selection screen.
pub fn pad_title(title: &[u8]) -> (r: Vec<u8>)
    ensures
        r@ == spec_padded_title(title@),
{
    let mut r = to_vec_bytes(title);
    while r.len() < TITLE_WIDTH
        invariant
            title@.len() >= TITLE_WIDTH ==> r@ == title@,
            title@.len() < TITLE_WIDTH ==> title@.len() <= r@.len() <= TITLE_WIDTH && r@
                == title@ + Seq::new((r@.len() - title@.len()) as nat, |i: int| SPACE),
        decreases TITLE_WIDTH - r@.len(),
    {
        r.push(SPACE);
        assert(r@ =~= title@ + Seq::new((r@.len() - title@.len()) as nat, |i: int| SPACE));
    }
    assert(r@ =~= spec_padded_title(title@));
    r
}

/// The place of one asset folder's catalog file under the asset root:
/// the folder holds a catalog file of its own name.
pub fn catalog_file_path(root: &[u8], folder: &[u8]) -> (r: Vec<u8>)
    ensures
        r@ == root@ + "/".spec_bytes() + folder@ + "/".spec_bytes() + folder@
            + ".toml".spec_bytes(),
{
    let mut r: Vec<u8> = Vec::new();
    push_bytes(&mut r, root);
    push_bytes(&mut r, "/".as_bytes());
    push_bytes(&mut r, folder);
    push_bytes(&mut r, "/".as_bytes());
    push_bytes(&mut r, folder);
    push_bytes(&mut r, ".toml".as_bytes());
    assert(r@ =~= root@ + "/".spec_bytes() + folder@ + "/".spec_bytes() + folder@
        + ".toml".spec_bytes());
    r
}

/// A fresh copy of one entry.
pub fn clone_entry(e: &FileEntry) -> (r: FileEntry)
    ensures
        r@ == e@,
{
    let source_path = match &e.source_path {
        Some(p) => Some(to_vec_bytes(p.as_slice())),
        None => None,
    };
    let target_path = match &e.target_path {
        Some(p) => Some(to_vec_bytes(p.as_slice())),
        None => None,
    };
    let r = FileEntry {
        title: to_vec_bytes(e.title.as_slice()),
        description: to_vec_bytes(e.description.as_slice()),
        handler: to_vec_bytes(e.handler.as_slice()),
        default: e.default,
        source_path,
        target_path,
    };
    assert(r@ =~~= e@);
    r
}

/// One run of entries sharing a handler, while the selection step groups
/// the catalog.
pub struct Category {
    pub handler: Vec<u8>,
    pub entries: Vec<FileEntry>,
}

/// The mathematical shape of one such run.
#[verifier::ext_equal]
pub struct CategoryView {
    pub handler: Seq<u8>,
    pub entries: Seq<FileEntryView>,
}

impl View for Category {
    type V = CategoryView;

    open spec fn view(&self) -> CategoryView {
        CategoryView {
            handler: self.handler@,
            entries: self.entries@.map_values(|e: FileEntry| e@),
        }
    }
}

/// The first category carrying `handler`, or -1 when none does.
pub open spec fn find_category(cats: Seq<CategoryView>, handler: Seq<u8>) -> int
    decreases cats.len(),
{
    if cats.len() == 0 {
        -1
    } else if cats[0].handler == handler {
        0
    } else {
        let r = find_category(cats.drop_first(), handler);
        if r == -1 {
            -1
        } else {
            r + 1
        }
    }
}

proof fn lemma_find_category_range(cats: Seq<CategoryView>, handler: Seq<u8>)
    ensures
        -1 <= find_category(cats, handler) < cats.len(),
        find_category(cats, handler) >= 0 ==> cats[find_category(cats, handler)].handler
            == handler,
    decreases cats.len(),
{
    if cats.len() > 0 && cats[0].handler != handler {
        lemma_find_category_range(cats.drop_first(), handler);
    }
}

proof fn lemma_find_category_at(cats: Seq<CategoryView>, handler: Seq<u8>, i: int)
    requires
        0 <= i <= cats.len(),
        forall|k: int| 0 <= k < i ==> (#[trigger] cats[k].handler) != handler,
    ensures
        i == cats.len() ==> find_category(cats, handler) == -1,
        i < cats.len() && cats[i].handler == handler ==> find_category(cats, handler) == i,
    decreases cats.len(),
{
    if cats.len() > 0 && i > 0 {
        assert(cats[0].handler != handler);
        assert(forall|k: int|
            0 <= k < i - 1 ==> (#[trigger] cats.drop_first()[k]).handler != handler);
        lemma_find_category_at(cats.drop_first(), handler, i - 1);
    }
}

/// One entry joins its run: the first category with its handler, or a
/// fresh category at the end.
pub open spec fn categorize_step(cats: Seq<CategoryView>, e: FileEntryView) -> Seq<CategoryView> {
    let i = find_category(cats, e.handler);
    if i == -1 {
        cats.push(CategoryView { handler: e.handler, entries: seq![e] })
    } else {
        cats.update(i, CategoryView { handler: cats[i].handler, entries: cats[i].entries.push(e) })
    }
}

/// All of `entries` categorized in order, starting from `cats`.
pub open spec fn categorize(cats: Seq<CategoryView>, entries: Seq<FileEntryView>) -> Seq<
    CategoryView,
>
    decreases entries.len(),
{
    if entries.len() == 0 {
        cats
    } else {
        categorize(categorize_step(cats, entries[0]), entries.drop_first())
    }
}

/// The categories flattened back into one run of entries.
pub open spec fn flatten_categories(cats: Seq<CategoryView>) -> Seq<FileEntryView>
    decreases cats.len(),
{
    if cats.len() == 0 {
        Seq::empty()
    } else {
        cats[0].entries + flatten_categories(cats.drop_first())
    }
}

/// The catalog's entries reordered for display: entries sharing a handler
/// stand together, runs ordered by each handler's first appearance,
/// entries inside a run keeping their catalog order.
pub open spec fn spec_grouped_by_handler(entries: Seq<FileEntryView>) -> Seq<FileEntryView> {
    flatten_categories(categorize(Seq::empty(), entries))
}

/// Groups the catalog's entries by handler for the selection step.
pub fn group_by_handler(entries: &Vec<FileEntry>) -> (r: Vec<FileEntry>)
    ensures
        r@.map_values(|e: FileEntry| e@) == spec_grouped_by_handler(
            entries@.map_values(|e: FileEntry| e@),
        ),
{
    let ghost all = entries@.map_values(|e: FileEntry| e@);
    let mut cats: Vec<Category> = Vec::new();
    let n: usize = entries.len();
    let mut i: usize = 0;
    assert(all.skip(0) =~= all);
    assert(cats@.map_values(|c: Category| c@) =~~= Seq::<CategoryView>::empty());
    while i < n
        invariant
            n == entries@.len(),
            i <= n,
            all == entries@.map_values(|e: FileEntry| e@),
            categorize(Seq::empty(), all) == categorize(
                cats@.map_values(|c: Category| c@),
                all.skip(i as int),
            ),
        decreases n - i,
    {
        let ghost catsv = cats@.map_values(|c: Category| c@);
        let ghost rest = all.skip(i as int);
        assert(rest.drop_first() =~= all.skip(i + 1));
        assert(rest[0] == entries@[i as int]@);
        let e = clone_entry(&entries[i]);
        let m: usize = cats.len();
        let mut j: usize = 0;
        let mut found: bool = false;
        while j < m && !found
            invariant
                m == cats@.len(),
                j <= m,
                rest.len() > 0,
                catsv == cats@.map_values(|c: Category| c@),
                e@ == rest[0],
                found ==> j < m && catsv[j as int].handler == e@.handler,
                forall|k: int| 0 <= k < j ==> (#[trigger] catsv[k].handler) != e@.handler,
            decreases m - j + if found {
                0int
            } else {
                1int
            },
        {
            if bytes_eq(cats[j].handler.as_slice(), e.handler.as_slice()) {
                found = true;
            } else {
                j += 1;
            }
        }
        proof {
            if found {
                lemma_find_category_at(catsv, e@.handler, j as int);
                assert(find_category(catsv, e@.handler) == j as int);
            } else {
                lemma_find_category_at(catsv, e@.handler, m as int);
                assert(find_category(catsv, e@.handler) == -1);
            }
        }
        if found {
            let mut cat = cats.remove(j);
            let ghost catv = cat@;
            cat.entries.push(e);
            assert(cat@ =~~= CategoryView {
                handler: catv.handler,
                entries: catv.entries.push(rest[0]),
            });
            cats.insert(j, cat);
            assert(cats@.map_values(|c: Category| c@) =~~= categorize_step(catsv, rest[0]));
        } else {
            let mut fresh_entries: Vec<FileEntry> = Vec::new();
            fresh_entries.push(e);
            let cat = Category { handler: to_vec_bytes(entries[i].handler.as_slice()), entries: fresh_entries };
            assert(cat@ =~~= CategoryView { handler: rest[0].handler, entries: seq![rest[0]] });
            cats.push(cat);
            assert(cats@.map_values(|c: Category| c@) =~~= categorize_step(catsv, rest[0]));
        }
        i += 1;
    }
    assert(all.skip(n as int) =~= Seq::<FileEntryView>::empty());
    let ghost final_cats = categorize(Seq::empty(), all);
    assert(cats@.map_values(|c: Category| c@) == final_cats);
    let mut r: Vec<FileEntry> = Vec::new();
    assert(r@.map_values(|e: FileEntry| e@) =~~= Seq::<FileEntryView>::empty());
    assert(Seq::<FileEntryView>::empty() + flatten_categories(final_cats) =~= flatten_categories(
        final_cats,
    ));
    while cats.len() > 0
        invariant
            spec_grouped_by_handler(all) == r@.map_values(|e: FileEntry| e@)
                + flatten_categories(cats@.map_values(|c: Category| c@)),
        decreases cats@.len(),
    {
        let ghost catsv = cats@.map_values(|c: Category| c@);
        assert(catsv.drop_first() =~= cats@.drop_first().map_values(|c: Category| c@));
        let head = cats.remove(0);
        assert(cats@.map_values(|c: Category| c@) =~~= catsv.drop_first());
        let mut es = head.entries;
        let ghost head_entries = es@.map_values(|e: FileEntry| e@);
        assert(head_entries == catsv[0].entries);
        let mut k: usize = 0;
        let en: usize = es.len();
        assert(head_entries.skip(0) =~= head_entries);
        while k < en
            invariant
                en == es@.len(),
                k <= en,
                head_entries == es@.map_values(|e: FileEntry| e@),
                spec_grouped_by_handler(all) == r@.map_values(|e: FileEntry| e@)
                    + (head_entries.skip(k as int) + flatten_categories(
                    cats@.map_values(|c: Category| c@),
                )),
            decreases en - k,
        {
            let ghost prev_r = r@.map_values(|e: FileEntry| e@);
            let ghost hrest = head_entries.skip(k as int);
            assert(hrest[0] == es@[k as int]@);
            assert(hrest.drop_first() =~= head_entries.skip(k + 1));
            let moved = clone_entry(&es[k]);
            r.push(moved);
            assert(r@.map_values(|e: FileEntry| e@) =~~= prev_r.push(hrest[0]));
            assert(prev_r.push(hrest[0]) + (hrest.drop_first() + flatten_categories(
                cats@.map_values(|c: Category| c@),
            )) =~~= prev_r + (hrest + flatten_categories(cats@.map_values(|c: Category| c@))));
            k += 1;
        }
        assert(head_entries.skip(en as int) =~= Seq::<FileEntryView>::empty());
        assert(Seq::<FileEntryView>::empty() + flatten_categories(
            cats@.map_values(|c: Category| c@),
        ) =~= flatten_categories(cats@.map_values(|c: Category| c@)));
    }
    assert(cats@.map_values(|c: Category| c@) =~~= Seq::<CategoryView>::empty());
    assert(r@.map_values(|e: FileEntry| e@) + Seq::<FileEntryView>::empty() =~= r@.map_values(
        |e: FileEntry| e@,
    ));
    r
}

/// Maps one picked display text back to the first catalog entry whose
/// title occurs in it, the rule the selection step uses to turn the
/// operator's picks into install actions.
pub fn find_entry_for_display(entries: &Vec<FileEntry>, display_text: &[u8]) -> (r: Option<usize>)
    ensures
        match r {
            Some(j) => j < entries@.len() && has_substring(display_text@, entries@[j as int]@.title)
                && forall|k: int|
                0 <= k < j ==> !has_substring(display_text@, #[trigger] entries@[k]@.title),
            None => forall|k: int|
                0 <= k < entries@.len() ==> !has_substring(
                    display_text@,
                    #[trigger] entries@[k]@.title,
                ),
        },
{
    let n: usize = entries.len();
    let mut j: usize = 0;
    while j < n
        invariant
            n == entries@.len(),
            j <= n,
            forall|k: int|
                0 <= k < j ==> !has_substring(display_text@, #[trigger] entries@[k]@.title),
        decreases n - j,
    {
        if contains_bytes(display_text, entries[j].title.as_slice()) {
            return Some(j);
        }
        j += 1;
    }
    None
}

} // verus!
