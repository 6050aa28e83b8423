//! The directory enumerator and the two scan modes.

use vstd::prelude::*;
use vstd::string::StringExecFns;
use crate::model::{lemma_sum_sizes_nonneg, sum_sizes, total_size, DirEntry, Meta, NodeKind, ScanResult};
use crate::order::{is_arrangement, is_sorted, lex_lt, lowered, precedes, sort_entries, sorts_stably, SortOrder};
use crate::size::{calculate_size, interactive_limits, measured, Limits, WalkItem};
use crate::stamp::{get_modified, modified_text, text_of, Timestamp};

verus! {

/// What was found of one immediate child of the target directory.
#[derive(Clone, Debug)]
pub struct Child {
    /// The final path component.
    pub name: String,
    pub path: String,
    /// The child's own metadata, `None` where it could not be inspected.
    pub meta: Option<Meta>,
    /// The walk of the child's tree under the interactive limits; only the
    /// eager mode reads it.
    pub walk: Vec<WalkItem>,
    /// How many immediate children the child has, where it could be listed.
    pub children_count: Option<usize>,
    /// When the child was last modified, where that could be read.
    pub modified: Option<Timestamp>,
}

/// What was found of the directory to scan.
#[derive(Clone, Debug)]
pub struct Target {
    pub path: String,
    pub exists: bool,
    pub is_dir: bool,
    /// The parent directory, `None` at a filesystem root.
    pub parent: Option<String>,
}

/// Whether directory sizes are measured at once or left for later.
#[derive(Clone, Copy, Debug, PartialEq, Eq, Structural)]
pub enum ScanMode {
    Eager,
    Deferred,
}

/// Why a scan failed.
#[derive(Clone, Debug)]
pub enum ScanError {
    /// The target does not exist.
    NotFound { path: String },
    /// The target exists but is no directory.
    NotADirectory { path: String },
    /// The target's contents could not be listed.
    Unreadable { path: String, cause: String },
}

impl ScanError {
    pub open spec fn message_text(&self) -> Seq<char> {
        match self {
            ScanError::NotFound { path } => "Path does not exist: "@ + path@,
            ScanError::NotADirectory { path } => "Path is not a directory: "@ + path@,
            ScanError::Unreadable { path, cause } => "Cannot read directory "@ + path@ + ": "@
                + cause@,
        }
    }

    /// The failure in words, with the path and, where there is one, the
    /// underlying cause.
    pub fn message(&self) -> (text: String)
        ensures
            text@ == self.message_text(),
    {
        match self {
            ScanError::NotFound { path } => String::from_str("Path does not exist: ").concat(
                path.as_str(),
            ),
            ScanError::NotADirectory { path } => String::from_str(
                "Path is not a directory: ",
            ).concat(path.as_str()),
            ScanError::Unreadable { path, cause } => String::from_str(
                "Cannot read directory ",
            ).concat(path.as_str()).concat(": ").concat(cause.as_str()),
        }
    }
}

/// The user's home directory, or the filesystem root where none is known.
pub fn get_home_dir(home: Option<String>) -> (dir: String)
    ensures
        dir@ == home_or_root(home),
{
    match home {
        Some(h) => h,
        None => String::from_str("/"),
    }
}

pub open spec fn home_or_root(home: Option<String>) -> Seq<char> {
    match home {
        Some(h) => h@,
        None => "/"@,
    }
}

/// The directory to scan: the one asked for, else the home directory, else
/// the filesystem root.
pub fn resolve_target(path: Option<String>, home: Option<String>) -> (dir: String)
    ensures
        path matches Some(p) ==> dir@ == p@,
        path.is_none() ==> dir@ == home_or_root(home),
{
    match path {
        Some(p) => p,
        None => get_home_dir(home),
    }
}

/// Whether a child appears in a listing: it could be inspected and is no
/// symbolic link.
pub open spec fn is_listed(c: Child) -> bool {
    c.meta matches Some(m) && m.kind != NodeKind::Symlink
}

/// The children that appear in a listing, in the order in which they came.
pub open spec fn kept(children: Seq<Child>) -> Seq<Child>
    decreases children.len(),
{
    if children.len() == 0 {
        Seq::empty()
    } else if is_listed(children.last()) {
        kept(children.drop_last()).push(children.last())
    } else {
        kept(children.drop_last())
    }
}

/// The size that an entry carries for child `c`: in eager mode what the
/// size calculator measures under the interactive limits, in deferred mode
/// 0 for a directory and the byte length for anything else.
pub open spec fn entry_size(c: Child, mode: ScanMode) -> u64 {
    match mode {
        ScanMode::Eager => measured(c.meta, c.walk@, interactive_limits()),
        ScanMode::Deferred => if is_directory(c) {
            0
        } else {
            byte_length(c)
        },
    }
}

/// The byte length that a child's own metadata gives.
pub open spec fn byte_length(c: Child) -> u64 {
    match c.meta {
        Some(m) => m.len,
        None => 0,
    }
}

pub open spec fn is_directory(c: Child) -> bool {
    c.meta matches Some(m) && m.kind == NodeKind::Directory
}

/// Whether entry `e` is the record of child `c` in `mode`. Its identity is a
/// fresh token of 36 chars, unrelated to the child.
pub open spec fn describes(e: DirEntry, c: Child, mode: ScanMode) -> bool {
    &&& e.id@.len() == 36
    &&& e.name@ == c.name@
    &&& e.path@ == c.path@
    &&& e.size == entry_size(c, mode)
    &&& e.is_dir == is_directory(c)
    &&& e.children_count == if is_directory(c) {
        c.children_count
    } else {
        None
    }
    &&& text_of(e.modified) == modified_text(c.modified)
}

/// The order in which a mode returns its entries.
pub open spec fn order_of(mode: ScanMode) -> SortOrder {
    match mode {
        ScanMode::Eager => SortOrder::SizeDescending,
        ScanMode::Deferred => SortOrder::NameAscending,
    }
}

/// `entries` records the listed children, the entry at `i` that of the
/// `p[i]`-th of them, in the order of `mode`, ties in the order in which the
/// children came.
pub open spec fn arranges(
    p: Seq<int>,
    entries: Seq<DirEntry>,
    children: Seq<Child>,
    mode: ScanMode,
) -> bool {
    let src = kept(children);
    let order = order_of(mode);
    &&& is_arrangement(p, src.len())
    &&& entries.len() == src.len()
    &&& forall|i: int| 0 <= i < entries.len() ==> describes(#[trigger] entries[i], src[p[i]], mode)
    &&& is_sorted(entries, order)
    &&& forall|i: int, j: int|
        0 <= i < j < entries.len() ==> precedes(order, #[trigger] entries[i], #[trigger] entries[j])
            || p[i] < p[j]
}

/// `entries` is the listing of `children` in `mode`.
pub open spec fn lists(entries: Seq<DirEntry>, children: Seq<Child>, mode: ScanMode) -> bool {
    exists|p: Seq<int>| arranges(p, entries, children, mode)
}

/// Calls `uuid::Uuid::new_v4` and writes the identifier out. Which one comes
/// is left open; its text is the hyphenated form, 36 chars long. The call
/// gives up only where the system has no source of random bytes.
#[verifier::external_body]
fn fresh_id() -> (id: String)
    ensures
        id@.len() == 36,
{
    uuid::Uuid::new_v4().to_string()
}

/// Whether `r` is what becomes of `child` in a listing: its record where it
/// is listed, nothing where it is a link or could not be inspected.
pub open spec fn entry_for(r: Option<DirEntry>, child: Child, mode: ScanMode) -> bool {
    match r {
        Some(e) => is_listed(child) && describes(e, child, mode),
        None => !is_listed(child),
    }
}

/// The record of one child, if it is listed. A symbolic link never gets one.
pub fn make_entry(child: &Child, mode: ScanMode) -> (r: Option<DirEntry>)
    ensures
        entry_for(r, *child, mode),
{
    let meta = match child.meta {
        Some(m) => m,
        None => { return None; },
    };
    if meta.kind == NodeKind::Symlink {
        return None;
    }
    let is_dir = meta.kind == NodeKind::Directory;
    let size = match mode {
        ScanMode::Eager => calculate_size(child.meta, &child.walk, Limits::bounded()),
        ScanMode::Deferred => if is_dir {
            0
        } else {
            meta.len
        },
    };
    let children_count = if is_dir {
        child.children_count
    } else {
        None
    };
    Some(
        DirEntry {
            id: fresh_id(),
            name: child.name.clone(),
            path: child.path.clone(),
            size,
            is_dir,
            children_count,
            modified: get_modified(child.modified),
        },
    )
}

/// The records of the listed children, in the order in which they came.
/// Symbolic links and children that could not be inspected are left out.
pub fn build_entries(children: &Vec<Child>, mode: ScanMode) -> (out: Vec<DirEntry>)
    ensures
        out@.len() == kept(children@).len(),
        forall|k: int| 0 <= k < out@.len() ==> describes(#[trigger] out@[k], kept(children@)[k], mode),
{
    let mut out: Vec<DirEntry> = Vec::new();
    let mut i: usize = 0;
    while i < children.len()
        invariant
            i <= children.len(),
            out@.len() == kept(children@.take(i as int)).len(),
            forall|k: int|
                0 <= k < out@.len() ==> describes(
                    #[trigger] out@[k],
                    kept(children@.take(i as int))[k],
                    mode,
                ),
        decreases children.len() - i,
    {
        proof {
            assert(children@.take(i + 1).drop_last() =~= children@.take(i as int));
        }
        match make_entry(&children[i], mode) {
            Some(e) => {
                out.push(e);
            },
            None => {},
        }
        i += 1;
    }
    proof {
        assert(children@.take(i as int) =~= children@);
    }
    out
}

/// What a scan of `target` returns when `listing` is what reading the
/// directory gave.
pub open spec fn scan_failure(target: Target, listing: Result<Vec<Child>, String>) -> Option<
    ScanError,
> {
    if !target.exists {
        Some(ScanError::NotFound { path: target.path })
    } else if !target.is_dir {
        Some(ScanError::NotADirectory { path: target.path })
    } else {
        match listing {
            Err(cause) => Some(ScanError::Unreadable { path: target.path, cause }),
            Ok(_) => None,
        }
    }
}

/// Whether `r` is the outcome of scanning `target` in `mode`.
pub open spec fn scan_outcome(
    r: Result<ScanResult, ScanError>,
    target: Target,
    listing: Result<Vec<Child>, String>,
    mode: ScanMode,
) -> bool {
    match scan_failure(target, listing) {
        Some(e) => r == Err::<ScanResult, ScanError>(e),
        None => {
            &&& r matches Ok(res)
            &&& listing matches Ok(children)
            &&& res.path == target.path
            &&& res.parent == target.parent
            &&& res.wf()
            &&& lists(res.entries@, children@, mode)
        },
    }
}

/// Scans `target` in `mode`.
pub fn scan(target: &Target, listing: &Result<Vec<Child>, String>, mode: ScanMode) -> (r: Result<
    ScanResult,
    ScanError,
>)
    ensures
        scan_outcome(r, *target, *listing, mode),
{
    if !target.exists {
        return Err(ScanError::NotFound { path: target.path.clone() });
    }
    if !target.is_dir {
        return Err(ScanError::NotADirectory { path: target.path.clone() });
    }
    match listing {
        Err(cause) => Err(ScanError::Unreadable { path: target.path.clone(), cause: cause.clone() }),
        Ok(children) => {
            let built = build_entries(children, mode);
            let order = match mode {
                ScanMode::Eager => SortOrder::SizeDescending,
                ScanMode::Deferred => SortOrder::NameAscending,
            };
            let ghost before = built@;
            let entries = sort_entries(built, order);
            proof {
                let p = choose|p: Seq<int>| sorts_stably(p, before, entries@, order);
                assert(arranges(p, entries@, children@, mode));
            }
            let total = total_size(&entries);
            let parent = match &target.parent {
                Some(p) => Some(p.clone()),
                None => None,
            };
            Ok(ScanResult { path: target.path.clone(), total_size: total, entries, parent })
        },
    }
}

/// The eager scan: every directory is measured at once under the
/// interactive limits, and the entries come largest first.
pub fn scan_directory(target: &Target, listing: &Result<Vec<Child>, String>) -> (r: Result<
    ScanResult,
    ScanError,
>)
    ensures
        scan_outcome(r, *target, *listing, ScanMode::Eager),
{
    scan(target, listing, ScanMode::Eager)
}

/// The deferred scan: directories carry size 0, files their byte length,
/// and the entries come by name, ignoring case.
pub fn scan_directory_fast(target: &Target, listing: &Result<Vec<Child>, String>) -> (r: Result<
    ScanResult,
    ScanError,
>)
    ensures
        scan_outcome(r, *target, *listing, ScanMode::Deferred),
{
    scan(target, listing, ScanMode::Deferred)
}

/// Every kept child is a listed child of the listing.
pub proof fn lemma_kept_members(children: Seq<Child>)
    ensures
        kept(children).len() <= children.len(),
        forall|k: int|
            0 <= k < kept(children).len() ==> is_listed(#[trigger] kept(children)[k])
                && children.contains(kept(children)[k]),
    decreases children.len(),
{
    if children.len() > 0 {
        let front = children.drop_last();
        lemma_kept_members(front);
        assert forall|k: int| 0 <= k < kept(children).len() implies is_listed(
            #[trigger] kept(children)[k],
        ) && children.contains(kept(children)[k]) by {
            if k < kept(front).len() {
                let c = kept(front)[k];
                let w = choose|w: int| 0 <= w < front.len() && front[w] == c;
                assert(children[w] == c);
            } else {
                assert(children[children.len() - 1] == children.last());
            }
        }
    }
}

/// The total of a scan result is the sum of the sizes of its entries,
/// whenever that sum can be held in a `u64`.
pub proof fn lemma_total_is_sum(res: ScanResult)
    requires
        res.wf(),
        sum_sizes(res.entries@) <= u64::MAX,
    ensures
        res.total_size == sum_sizes(res.entries@),
{
    lemma_sum_sizes_nonneg(res.entries@);
}

/// An eager listing is in non-increasing order of size, and entries of equal
/// size stand in the order in which their children were enumerated.
pub proof fn lemma_eager_order(p: Seq<int>, entries: Seq<DirEntry>, children: Seq<Child>)
    requires
        arranges(p, entries, children, ScanMode::Eager),
    ensures
        forall|i: int, j: int|
            0 <= i < j < entries.len() ==> (#[trigger] entries[i]).size >= (#[trigger] entries[j]).size,
        forall|i: int, j: int|
            0 <= i < j < entries.len() && (#[trigger] entries[i]).size == (#[trigger] entries[j]).size
                ==> p[i] < p[j],
{
    let order = SortOrder::SizeDescending;
    assert forall|i: int, j: int| 0 <= i < j < entries.len() implies {
        &&& (#[trigger] entries[i]).size >= (#[trigger] entries[j]).size
        &&& entries[i].size == entries[j].size ==> p[i] < p[j]
    } by {
        assert(!precedes(order, entries[j], entries[i]));
        assert(precedes(order, entries[i], entries[j]) || p[i] < p[j]);
    }
}

/// A deferred listing is in ascending order of the lower-cased names; every
/// directory in it has size 0 and every other entry the byte length of its
/// child.
pub proof fn lemma_deferred_listing(p: Seq<int>, entries: Seq<DirEntry>, children: Seq<Child>)
    requires
        arranges(p, entries, children, ScanMode::Deferred),
    ensures
        forall|i: int, j: int|
            0 <= i < j < entries.len() ==> !lex_lt(
                lowered((#[trigger] entries[j]).name@),
                lowered((#[trigger] entries[i]).name@),
            ),
        forall|i: int| 0 <= i < entries.len() && (#[trigger] entries[i]).is_dir ==> entries[i].size == 0,
        forall|i: int|
            0 <= i < entries.len() && !(#[trigger] entries[i]).is_dir ==> entries[i].size
                == byte_length(kept(children)[p[i]]),
{
    lemma_kept_members(children);
    assert forall|i: int, j: int| 0 <= i < j < entries.len() implies !lex_lt(
        lowered((#[trigger] entries[j]).name@),
        lowered((#[trigger] entries[i]).name@),
    ) by {
        assert(!precedes(SortOrder::NameAscending, entries[j], entries[i]));
    }
    assert forall|i: int| 0 <= i < entries.len() implies {
        &&& (#[trigger] entries[i]).is_dir ==> entries[i].size == 0
        &&& !entries[i].is_dir ==> entries[i].size == byte_length(kept(children)[p[i]])
    } by {
        let c = kept(children)[p[i]];
        assert(describes(entries[i], c, ScanMode::Deferred));
        assert(is_listed(c));
    }
}

/// Whether `e` is the record of a child of `children` that could be
/// inspected and is no symbolic link.
pub open spec fn records_listed_child(e: DirEntry, children: Seq<Child>, mode: ScanMode) -> bool {
    exists|k: int|
        0 <= k < children.len() && is_listed(#[trigger] children[k]) && describes(e, children[k], mode)
}

/// Every entry of a listing is the record of a child that was handed in,
/// could be inspected and is no symbolic link: a link never becomes an entry.
pub proof fn lemma_no_link_listed(entries: Seq<DirEntry>, children: Seq<Child>, mode: ScanMode)
    requires
        lists(entries, children, mode),
    ensures
        entries.len() <= children.len(),
        forall|i: int|
            0 <= i < entries.len() ==> records_listed_child(#[trigger] entries[i], children, mode),
{
    let p = choose|p: Seq<int>| arranges(p, entries, children, mode);
    lemma_kept_members(children);
    assert forall|i: int| 0 <= i < entries.len() implies records_listed_child(
        #[trigger] entries[i],
        children,
        mode,
    ) by {
        let c = kept(children)[p[i]];
        assert(describes(entries[i], c, mode));
        assert(is_listed(c) && children.contains(c));
        let k = choose|k: int| 0 <= k < children.len() && children[k] == c;
        assert(is_listed(children[k]) && describes(entries[i], children[k], mode));
    }
}

} // verus!
