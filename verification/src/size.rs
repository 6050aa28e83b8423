//! The size calculator: the byte total of a file or of a directory tree,
//! under a depth cap and a cap on the number of files counted.

use vstd::prelude::*;
use crate::model::{add_clamped, clamp, Meta, NodeKind, SizeResult};

verus! {

/// The traversal limits. `None` means no cap.
#[derive(Clone, Copy, Debug, PartialEq, Eq, Structural)]
pub struct Limits {
    /// How many levels below the root are looked at.
    pub max_depth: Option<usize>,
    /// How many regular files are counted before the traversal stops.
    pub max_files: Option<usize>,
}

/// One path met while walking a tree: its depth below the root (the root
/// itself is at depth 0) and its link-aware metadata, `None` where unreadable.
#[derive(Clone, Copy, Debug, PartialEq, Eq, Structural)]
pub struct WalkItem {
    pub depth: usize,
    pub meta: Option<Meta>,
}

/// Three levels below the root, ten thousand files.
pub open spec fn interactive_limits() -> Limits {
    Limits { max_depth: Some(3usize), max_files: Some(10000usize) }
}

/// Neither cap.
pub open spec fn no_limits() -> Limits {
    Limits { max_depth: None, max_files: None }
}

impl Limits {
    /// The limits used while listing interactively: three levels, ten
    /// thousand files.
    pub fn bounded() -> (l: Limits)
        ensures
            l == interactive_limits(),
    {
        Limits { max_depth: Some(3), max_files: Some(10000) }
    }

    /// No cap at all: used to measure one item on demand.
    pub fn full() -> (l: Limits)
        ensures
            l == no_limits(),
    {
        Limits { max_depth: None, max_files: None }
    }

    pub open spec fn admits_depth(&self, depth: usize) -> bool {
        match self.max_depth {
            Some(d) => depth <= d,
            None => true,
        }
    }

    pub open spec fn admits_count(&self, files: nat) -> bool {
        match self.max_files {
            Some(n) => files < n,
            None => true,
        }
    }
}

/// Whether `files` counted files respect the cap on their number.
pub open spec fn within_file_cap(files: nat, limits: Limits) -> bool {
    match limits.max_files {
        Some(n) => files <= n,
        None => true,
    }
}

/// Whether `item` is a regular file within the depth cap: only such items
/// contribute bytes. Links, directories and unreadable paths never do.
pub open spec fn counts(item: WalkItem, limits: Limits) -> bool {
    &&& limits.admits_depth(item.depth)
    &&& item.meta matches Some(m)
    &&& m.kind == NodeKind::File
}

/// The items of a walk that are regular files within the depth cap, in the
/// order of the walk.
pub open spec fn eligible(items: Seq<WalkItem>, limits: Limits) -> Seq<WalkItem>
    decreases items.len(),
{
    if items.len() == 0 {
        Seq::empty()
    } else if counts(items.last(), limits) {
        eligible(items.drop_last(), limits).push(items.last())
    } else {
        eligible(items.drop_last(), limits)
    }
}

/// The items that contribute to the total: the eligible ones, up to the cap
/// on the number of files.
pub open spec fn counted(items: Seq<WalkItem>, limits: Limits) -> Seq<WalkItem> {
    let all = eligible(items, limits);
    match limits.max_files {
        Some(n) => if all.len() <= n {
            all
        } else {
            all.take(n as int)
        },
        None => all,
    }
}

/// The sum of the byte lengths of `items`.
pub open spec fn sum_len(items: Seq<WalkItem>) -> int
    decreases items.len(),
{
    if items.len() == 0 {
        0
    } else {
        sum_len(items.drop_last()) + match items.last().meta {
            Some(m) => m.len as int,
            None => 0,
        }
    }
}

/// The byte total of a walk under `limits`.
pub open spec fn walk_total(items: Seq<WalkItem>, limits: Limits) -> int {
    sum_len(counted(items, limits))
}

/// The size of a path whose own metadata is `root` and whose tree, if it is
/// a directory, was walked as `items`.
pub open spec fn measured(root: Option<Meta>, items: Seq<WalkItem>, limits: Limits) -> u64 {
    match root {
        None => 0,
        Some(m) => match m.kind {
            NodeKind::Symlink => 0,
            NodeKind::File => m.len,
            _ => clamp(walk_total(items, limits)),
        },
    }
}

pub proof fn lemma_sum_len_nonneg(items: Seq<WalkItem>)
    ensures
        sum_len(items) >= 0,
    decreases items.len(),
{
    if items.len() > 0 {
        lemma_sum_len_nonneg(items.drop_last());
    }
}

/// What is eligible in the first `i` items of a walk opens what is eligible
/// in the whole walk.
pub proof fn lemma_eligible_prefix(items: Seq<WalkItem>, i: int, limits: Limits)
    requires
        0 <= i <= items.len(),
    ensures
        eligible(items.take(i), limits).len() <= eligible(items, limits).len(),
        eligible(items.take(i), limits) == eligible(items, limits).take(
            eligible(items.take(i), limits).len() as int,
        ),
    decreases items.len(),
{
    let whole = eligible(items, limits);
    let part = eligible(items.take(i), limits);
    if i == items.len() {
        assert(items.take(i) =~= items);
        assert(whole.take(whole.len() as int) =~= whole);
    } else {
        let front = items.drop_last();
        assert(front.take(i) =~= items.take(i));
        lemma_eligible_prefix(front, i, limits);
        let mid = eligible(front, limits);
        assert(part =~= mid.take(part.len() as int));
        assert(mid.take(part.len() as int) =~= whole.take(part.len() as int));
    }
}

/// The byte total of a walk: the lengths of the regular files within the
/// depth cap, in walk order, up to the cap on the number of files.
pub fn walk_size(items: &Vec<WalkItem>, limits: Limits) -> (total: u64)
    ensures
        total == clamp(walk_total(items@, limits)),
{
    let mut total: u64 = 0;
    let mut files: usize = 0;
    let mut i: usize = 0;
    while i < items.len() && admits_more(limits, files)
        invariant
            i <= items.len(),
            files <= i,
            files == eligible(items@.take(i as int), limits).len(),
            within_file_cap(files as nat, limits),
            total == clamp(sum_len(eligible(items@.take(i as int), limits))),
        decreases items.len() - i,
    {
        let item = items[i];
        proof {
            let next = items@.take(i + 1);
            assert(next.drop_last() =~= items@.take(i as int));
            assert(next.last() == item);
            lemma_sum_len_nonneg(eligible(items@.take(i as int), limits));
            lemma_eligible_prefix(items@, i + 1, limits);
            if counts(item, limits) {
                assert(eligible(next, limits).drop_last() =~= eligible(items@.take(i as int), limits));
            }
        }
        if is_counted(item, limits) {
            match item.meta {
                Some(m) => {
                    total = add_clamped(total, m.len);
                    files += 1;
                },
                None => {},
            }
        }
        i += 1;
    }
    proof {
        lemma_eligible_prefix(items@, i as int, limits);
        let whole = eligible(items@, limits);
        if i == items.len() {
            assert(items@.take(i as int) =~= items@);
        }
        assert(whole.take(whole.len() as int) =~= whole);
    }
    total
}

/// Whether another file may still be counted after `files` were.
pub fn admits_more(limits: Limits, files: usize) -> (b: bool)
    ensures
        b == limits.admits_count(files as nat),
{
    match limits.max_files {
        Some(n) => files < n,
        None => true,
    }
}

/// Whether `item` contributes its length: a regular file within the depth cap.
pub fn is_counted(item: WalkItem, limits: Limits) -> (b: bool)
    ensures
        b == counts(item, limits),
{
    let shallow = match limits.max_depth {
        Some(d) => item.depth <= d,
        None => true,
    };
    match item.meta {
        Some(m) => shallow && m.kind == NodeKind::File,
        None => false,
    }
}

/// The size of one path under `limits`: nothing for a path that is gone or is
/// a link, its length for a file, the total of its walk otherwise.
pub fn calculate_size(root: Option<Meta>, items: &Vec<WalkItem>, limits: Limits) -> (size: u64)
    ensures
        size == measured(root, items@, limits),
{
    match root {
        None => 0,
        Some(m) => match m.kind {
            NodeKind::Symlink => 0,
            NodeKind::File => m.len,
            _ => walk_size(items, limits),
        },
    }
}

/// The size of one item measured on demand, without any cap. A path that
/// does not exist measures 0.
pub fn calculate_item_size(
    path: String,
    exists: bool,
    root: Option<Meta>,
    items: &Vec<WalkItem>,
) -> (r: SizeResult)
    ensures
        r.path == path,
        exists ==> r.size == measured(root, items@, no_limits()),
        !exists ==> r.size == 0,
{
    if !exists {
        return SizeResult { path, size: 0 };
    }
    let size = calculate_size(root, items, Limits::full());
    SizeResult { path, size }
}

/// The caps are honoured: no more files are counted than `max_files`, and
/// every item that contributes is a regular file (never a link) of the walk,
/// no deeper than `max_depth`.
pub proof fn lemma_caps_honoured(items: Seq<WalkItem>, limits: Limits)
    ensures
        within_file_cap(counted(items, limits).len(), limits),
        forall|k: int|
            0 <= k < counted(items, limits).len() ==> counts(
                #[trigger] counted(items, limits)[k],
                limits,
            ) && items.contains(counted(items, limits)[k]),
{
    lemma_eligible_counts(items, limits);
}

/// Every eligible item is an item of the walk that counts.
pub proof fn lemma_eligible_counts(items: Seq<WalkItem>, limits: Limits)
    ensures
        eligible(items, limits).len() <= items.len(),
        forall|k: int|
            0 <= k < eligible(items, limits).len() ==> counts(
                #[trigger] eligible(items, limits)[k],
                limits,
            ) && items.contains(eligible(items, limits)[k]),
    decreases items.len(),
{
    if items.len() > 0 {
        let front = items.drop_last();
        lemma_eligible_counts(front, limits);
        assert forall|k: int| 0 <= k < eligible(items, limits).len() implies {
            &&& counts(#[trigger] eligible(items, limits)[k], limits)
            &&& items.contains(eligible(items, limits)[k])
        } by {
            if k < eligible(front, limits).len() {
                let c = eligible(front, limits)[k];
                let w = choose|w: int| 0 <= w < front.len() && front[w] == c;
                assert(items[w] == c);
            } else {
                assert(items[items.len() - 1] == items.last());
            }
        }
    }
}

/// A running measurement: the bytes counted so far and the number of files
/// they came from. It lets a walk be measured item by item, and be stopped
/// as soon as the cap on the number of files is reached.
#[derive(Clone, Copy, Debug, PartialEq, Eq, Structural)]
pub struct Tally {
    pub total: u64,
    pub files: usize,
}

impl Tally {
    /// The tally after `item` was met: a regular file within the depth cap
    /// adds its length and counts as one more file, as long as the cap on
    /// the number of files is not reached; anything else changes nothing.
    pub open spec fn after(self, item: WalkItem, limits: Limits) -> Tally {
        if limits.admits_count(self.files as nat) && counts(item, limits) {
            Tally {
                total: clamp(self.total as int + item.meta.unwrap().len as int),
                files: if self.files < usize::MAX {
                    (self.files + 1) as usize
                } else {
                    self.files
                },
            }
        } else {
            self
        }
    }

    /// The tally before anything was met.
    pub fn new() -> (t: Tally)
        ensures
            t == (Tally { total: 0, files: 0 }),
    {
        Tally { total: 0, files: 0 }
    }

    /// Whether the walk should go on: another file may still be counted.
    pub fn wants_more(&self, limits: Limits) -> (b: bool)
        ensures
            b == limits.admits_count(self.files as nat),
    {
        admits_more(limits, self.files)
    }

    /// Takes `item` into account.
    pub fn observe(self, item: WalkItem, limits: Limits) -> (t: Tally)
        ensures
            t == self.after(item, limits),
    {
        if admits_more(limits, self.files) && is_counted(item, limits) {
            match item.meta {
                Some(m) => Tally {
                    total: add_clamped(self.total, m.len),
                    files: if self.files < usize::MAX {
                        self.files + 1
                    } else {
                        self.files
                    },
                },
                None => self,
            }
        } else {
            self
        }
    }
}

/// The tally after a whole walk, taken item by item.
pub open spec fn tally_of(items: Seq<WalkItem>, limits: Limits) -> Tally
    decreases items.len(),
{
    if items.len() == 0 {
        Tally { total: 0, files: 0 }
    } else {
        tally_of(items.drop_last(), limits).after(items.last(), limits)
    }
}

/// Measuring item by item gives the byte total of the walk, and counts
/// exactly the files that contribute to it.
pub proof fn lemma_tally_is_total(items: Seq<WalkItem>, limits: Limits)
    requires
        items.len() <= usize::MAX,
    ensures
        tally_of(items, limits).total == clamp(walk_total(items, limits)),
        tally_of(items, limits).files == counted(items, limits).len(),
    decreases items.len(),
{
    if items.len() > 0 {
        let front = items.drop_last();
        let inner = eligible(front, limits);
        lemma_tally_is_total(front, limits);
        lemma_eligible_counts(front, limits);
        lemma_sum_len_nonneg(counted(front, limits));
        if counts(items.last(), limits) {
            let all = inner.push(items.last());
            if limits.admits_count(tally_of(front, limits).files as nat) {
                assert(counted(front, limits) == inner);
                assert(counted(items, limits) == all);
                assert(all.drop_last() =~= inner);
            } else {
                let n = limits.max_files.unwrap() as int;
                assert(inner.take(n) =~= all.take(n));
                assert(inner.len() == n ==> inner.take(n) =~= inner);
                assert(counted(items, limits) == counted(front, limits));
            }
        }
    }
}

/// Whether measuring a path with metadata `root` reads its walk at all: a
/// path that is gone, a link or a regular file is measured without one.
pub open spec fn walks(root: Option<Meta>) -> bool {
    root matches Some(m) && m.kind != NodeKind::Symlink && m.kind != NodeKind::File
}

/// Whether the tree below a path has to be walked to measure it.
pub fn needs_walk(root: Option<Meta>) -> (b: bool)
    ensures
        b == walks(root),
{
    match root {
        Some(m) => m.kind != NodeKind::Symlink && m.kind != NodeKind::File,
        None => false,
    }
}

/// Where no walk is needed, none is read: a link is never followed.
pub proof fn lemma_walk_unread(
    root: Option<Meta>,
    a: Seq<WalkItem>,
    b: Seq<WalkItem>,
    limits: Limits,
)
    requires
        !walks(root),
    ensures
        measured(root, a, limits) == measured(root, b, limits),
{
}

} // verus!
