//! The values that travel between the engine and its callers.

use vstd::prelude::*;

verus! {

/// What a path is, as its own metadata says, without following a link.
#[derive(Clone, Copy, Debug, PartialEq, Eq, Structural)]
pub enum NodeKind {
    File,
    Directory,
    Symlink,
    Other,
}

/// Link-aware metadata of one path: its kind and its byte length.
#[derive(Clone, Copy, Debug, PartialEq, Eq, Structural)]
pub struct Meta {
    pub kind: NodeKind,
    pub len: u64,
}

/// One immediate child of a scanned directory.
#[derive(Clone, Debug)]
pub struct DirEntry {
    pub id: String,
    pub name: String,
    pub path: String,
    pub size: u64,
    pub is_dir: bool,
    pub children_count: Option<usize>,
    pub modified: Option<String>,
}

/// The outcome of scanning one directory.
#[derive(Debug)]
pub struct ScanResult {
    pub path: String,
    pub total_size: u64,
    pub entries: Vec<DirEntry>,
    pub parent: Option<String>,
}

/// One path designated for removal.
#[derive(Debug)]
pub struct DeleteRequest {
    pub path: String,
}

/// The measured size of one path.
#[derive(Debug)]
pub struct SizeResult {
    pub path: String,
    pub size: u64,
}

/// A byte count as a `u64` can hold it: totals beyond `u64::MAX` are reported
/// as `u64::MAX`.
pub open spec fn clamp(n: int) -> u64 {
    if n <= 0 {
        0u64
    } else if n >= u64::MAX as int {
        u64::MAX
    } else {
        n as u64
    }
}

/// Adds `len` to a clamped running total.
pub fn add_clamped(total: u64, len: u64) -> (r: u64)
    ensures
        r == clamp(total as int + len as int),
{
    if len > u64::MAX - total {
        u64::MAX
    } else {
        total + len
    }
}

/// The sum of the sizes of `entries`.
pub open spec fn sum_sizes(entries: Seq<DirEntry>) -> int
    decreases entries.len(),
{
    if entries.len() == 0 {
        0
    } else {
        sum_sizes(entries.drop_last()) + entries.last().size as int
    }
}

pub proof fn lemma_sum_sizes_nonneg(entries: Seq<DirEntry>)
    ensures
        sum_sizes(entries) >= 0,
    decreases entries.len(),
{
    if entries.len() > 0 {
        lemma_sum_sizes_nonneg(entries.drop_last());
    }
}

/// The clamped sum of the sizes of `entries`.
pub fn total_size(entries: &Vec<DirEntry>) -> (total: u64)
    ensures
        total == clamp(sum_sizes(entries@)),
{
    let mut total: u64 = 0;
    let mut i: usize = 0;
    while i < entries.len()
        invariant
            i <= entries.len(),
            total == clamp(sum_sizes(entries@.take(i as int))),
        decreases entries.len() - i,
    {
        proof {
            let next = entries@.take(i + 1);
            assert(next.drop_last() =~= entries@.take(i as int));
            lemma_sum_sizes_nonneg(entries@.take(i as int));
        }
        total = add_clamped(total, entries[i].size);
        i += 1;
    }
    proof {
        assert(entries@.take(i as int) =~= entries@);
    }
    total
}

impl ScanResult {
    /// The recorded total is the (clamped) sum of the entries' sizes.
    pub open spec fn wf(&self) -> bool {
        self.total_size == clamp(sum_sizes(self.entries@))
    }
}

} // verus!
