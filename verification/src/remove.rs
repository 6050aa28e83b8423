//! The mutation service: what to do with each path of a batch, and what the
//! batch reports.

use vstd::prelude::*;
use vstd::string::StringExecFns;
use crate::model::{add_clamped, clamp, DeleteRequest, Meta};
use crate::size::{calculate_size, measured, no_limits, Limits, WalkItem};

verus! {

/// Whether a batch deletes for good or moves to the trash.
#[derive(Clone, Copy, Debug, PartialEq, Eq, Structural)]
pub enum Intent {
    Delete,
    Trash,
}

/// What is to be done with one path of a batch.
#[derive(Clone, Copy, Debug, PartialEq, Eq, Structural)]
pub enum Removal {
    /// The path is gone already: nothing to do, nothing freed.
    Skip,
    /// Remove the directory with all it holds.
    RemoveTree,
    /// Remove the single file.
    RemoveFile,
    /// Hand the path to the platform's recoverable removal.
    MoveToTrash,
}

/// What became of one path of a batch.
#[derive(Clone, Debug)]
pub enum Outcome {
    /// The path did not exist.
    Absent,
    /// The path was removed; `size` is what it measured just before.
    Removed { size: u64 },
    /// The removal failed for `cause`.
    Failed { cause: String },
}

/// The failure of a batch: the path at which it stopped, and why.
#[derive(Clone, Debug)]
pub struct DeleteError {
    pub intent: Intent,
    pub path: String,
    pub cause: String,
}

impl DeleteError {
    pub open spec fn message_text(&self) -> Seq<char> {
        match self.intent {
            Intent::Delete => "Failed to delete "@ + self.path@ + ": "@ + self.cause@,
            Intent::Trash => "Failed to trash "@ + self.path@ + ": "@ + self.cause@,
        }
    }

    /// The failure in words, with the path and the underlying cause.
    pub fn message(&self) -> (text: String)
        ensures
            text@ == self.message_text(),
    {
        let head = match self.intent {
            Intent::Delete => String::from_str("Failed to delete "),
            Intent::Trash => String::from_str("Failed to trash "),
        };
        head.concat(self.path.as_str()).concat(": ").concat(self.cause.as_str())
    }
}

pub open spec fn planned(intent: Intent, exists: bool, is_dir: bool) -> Removal {
    if !exists {
        Removal::Skip
    } else {
        match intent {
            Intent::Trash => Removal::MoveToTrash,
            Intent::Delete => if is_dir {
                Removal::RemoveTree
            } else {
                Removal::RemoveFile
            },
        }
    }
}

/// What to do with a path: a path that no longer exists is skipped; to trash
/// is to move to the trash; to delete is to remove a directory with its
/// contents and anything else as a single file.
pub fn plan_removal(intent: Intent, exists: bool, is_dir: bool) -> (r: Removal)
    ensures
        r == planned(intent, exists, is_dir),
{
    if !exists {
        Removal::Skip
    } else {
        match intent {
            Intent::Trash => Removal::MoveToTrash,
            Intent::Delete => if is_dir {
                Removal::RemoveTree
            } else {
                Removal::RemoveFile
            },
        }
    }
}

pub open spec fn is_failure(o: Outcome) -> bool {
    match o {
        Outcome::Failed { .. } => true,
        _ => false,
    }
}

/// The bytes that one outcome frees.
pub open spec fn freed_by(o: Outcome) -> int {
    match o {
        Outcome::Removed { size } => size as int,
        _ => 0,
    }
}

/// The bytes that `outcomes` free together.
pub open spec fn freed(outcomes: Seq<Outcome>) -> int
    decreases outcomes.len(),
{
    if outcomes.len() == 0 {
        0
    } else {
        freed(outcomes.drop_last()) + freed_by(outcomes.last())
    }
}

/// Whether `e` reports the failure `outcome` of removing `item`: it carries
/// the intent of the batch, the path of the item and the cause on record.
pub open spec fn reports(e: DeleteError, item: DeleteRequest, outcome: Outcome, intent: Intent) -> bool {
    &&& e.intent == intent
    &&& e.path == item.path
    &&& outcome == (Outcome::Failed { cause: e.cause })
}

/// Whether `r` is the result of one step: when `total` was freed before, an
/// absent path adds nothing, a removed one its size, and a failure ends the
/// batch with the path and the cause.
pub open spec fn step(
    r: Result<u64, DeleteError>,
    total: u64,
    item: DeleteRequest,
    outcome: Outcome,
    intent: Intent,
) -> bool {
    match outcome {
        Outcome::Absent => r == Ok::<u64, DeleteError>(total),
        Outcome::Removed { size } => r == Ok::<u64, DeleteError>(clamp(total as int + size as int)),
        Outcome::Failed { .. } => r matches Err(e) && reports(e, item, outcome, intent),
    }
}

/// One step of a batch.
pub fn delete_step(total: u64, item: &DeleteRequest, outcome: &Outcome, intent: Intent) -> (r:
    Result<u64, DeleteError>)
    ensures
        step(r, total, *item, *outcome, intent),
{
    match outcome {
        Outcome::Absent => Ok(total),
        Outcome::Removed { size } => Ok(add_clamped(total, *size)),
        Outcome::Failed { cause } => Err(
            DeleteError { intent, path: item.path.clone(), cause: cause.clone() },
        ),
    }
}

/// How many paths of a batch have an outcome on record.
pub open spec fn settled(items: Seq<DeleteRequest>, outcomes: Seq<Outcome>) -> int {
    if items.len() <= outcomes.len() {
        items.len() as int
    } else {
        outcomes.len() as int
    }
}

/// Whether the `k`-th path is the first whose removal failed.
pub open spec fn is_first_failure(items: Seq<DeleteRequest>, outcomes: Seq<Outcome>, k: int) -> bool {
    &&& 0 <= k < settled(items, outcomes)
    &&& is_failure(outcomes[k])
    &&& forall|i: int| 0 <= i < k ==> !is_failure(#[trigger] outcomes[i])
}

/// Whether no removal on record failed.
pub open spec fn none_failed(items: Seq<DeleteRequest>, outcomes: Seq<Outcome>) -> bool {
    forall|i: int| 0 <= i < settled(items, outcomes) ==> !is_failure(#[trigger] outcomes[i])
}

/// Whether `r` is the failure `outcome` of removing `item`.
pub open spec fn fails_at(
    r: Result<u64, DeleteError>,
    item: DeleteRequest,
    outcome: Outcome,
    intent: Intent,
) -> bool {
    r matches Err(e) && reports(e, item, outcome, intent)
}

/// Whether `r` is what a batch reports: the failure at the first path whose
/// removal failed, whatever came after it; where none failed, the bytes
/// freed over the whole batch.
pub open spec fn batch_outcome(
    r: Result<u64, DeleteError>,
    items: Seq<DeleteRequest>,
    outcomes: Seq<Outcome>,
    intent: Intent,
) -> bool {
    &&& forall|k: int| #[trigger]
        is_first_failure(items, outcomes, k) ==> fails_at(r, items[k], outcomes[k], intent)
    &&& none_failed(items, outcomes) ==> r == Ok::<u64, DeleteError>(
        clamp(freed(outcomes.take(settled(items, outcomes)))),
    )
}

pub proof fn lemma_freed_nonneg(outcomes: Seq<Outcome>)
    ensures
        freed(outcomes) >= 0,
    decreases outcomes.len(),
{
    if outcomes.len() > 0 {
        lemma_freed_nonneg(outcomes.drop_last());
    }
}

/// Settles a batch from the outcomes of its paths, taken in order. Only
/// paths with an outcome on record are settled.
pub fn settle_batch(items: &Vec<DeleteRequest>, outcomes: &Vec<Outcome>, intent: Intent) -> (r:
    Result<u64, DeleteError>)
    ensures
        batch_outcome(r, items@, outcomes@, intent),
{
    let n = if items.len() <= outcomes.len() {
        items.len()
    } else {
        outcomes.len()
    };
    let mut total: u64 = 0;
    let mut i: usize = 0;
    while i < n
        invariant
            i <= n,
            n == settled(items@, outcomes@),
            forall|k: int| 0 <= k < i ==> !is_failure(#[trigger] outcomes@[k]),
            total == clamp(freed(outcomes@.take(i as int))),
        decreases n - i,
    {
        proof {
            assert(outcomes@.take(i + 1).drop_last() =~= outcomes@.take(i as int));
            lemma_freed_nonneg(outcomes@.take(i as int));
        }
        match delete_step(total, &items[i], &outcomes[i], intent) {
            Ok(next) => {
                total = next;
            },
            Err(e) => {
                proof {
                    assert(is_first_failure(items@, outcomes@, i as int));
                    assert forall|k: int| #[trigger]
                        is_first_failure(items@, outcomes@, k) implies k == i by {
                        if k < i {
                            assert(!is_failure(outcomes@[k]));
                        } else if k > i {
                            assert(!is_failure(outcomes@[i as int]));
                        }
                    }
                    assert(!none_failed(items@, outcomes@));
                }
                return Err(e);
            },
        }
        i += 1;
    }
    proof {
        assert forall|k: int| !#[trigger] is_first_failure(items@, outcomes@, k) by {
            if 0 <= k < n {
                assert(!is_failure(outcomes@[k]));
            }
        }
    }
    Ok(total)
}

/// The report of a batch of permanent deletions.
pub fn delete_items(items: &Vec<DeleteRequest>, outcomes: &Vec<Outcome>) -> (r: Result<
    u64,
    DeleteError,
>)
    ensures
        batch_outcome(r, items@, outcomes@, Intent::Delete),
{
    settle_batch(items, outcomes, Intent::Delete)
}

/// The report of a batch of removals to the trash.
pub fn trash_items(items: &Vec<DeleteRequest>, outcomes: &Vec<Outcome>) -> (r: Result<
    u64,
    DeleteError,
>)
    ensures
        batch_outcome(r, items@, outcomes@, Intent::Trash),
{
    settle_batch(items, outcomes, Intent::Trash)
}

/// A batch fails fast. Where the removal of the `k`-th path is the first to
/// fail, no earlier removal failed, the report is the failure of that path,
/// and what is on record for later paths plays no part in it.
pub proof fn lemma_batch_fails_fast(
    r: Result<u64, DeleteError>,
    items: Seq<DeleteRequest>,
    outcomes: Seq<Outcome>,
    intent: Intent,
    k: int,
)
    requires
        is_first_failure(items, outcomes, k),
        batch_outcome(r, items, outcomes, intent),
    ensures
        fails_at(r, items[k], outcomes[k], intent),
        forall|i: int| 0 <= i < k ==> !is_failure(#[trigger] outcomes[i]),
        batch_outcome(r, items, outcomes.take(k + 1), intent),
{
    let cut = outcomes.take(k + 1);
    assert(is_first_failure(items, cut, k));
    assert forall|j: int| #[trigger] is_first_failure(items, cut, j) implies j == k by {
        if j < k {
            assert(!is_failure(cut[j]));
        }
    }
    assert(!none_failed(items, cut));
}

/// What removing a path frees: its size measured without any cap, taken
/// before the removal.
pub fn freed_size(root: Option<Meta>, items: &Vec<WalkItem>) -> (size: u64)
    ensures
        size == measured(root, items@, no_limits()),
{
    calculate_size(root, items, Limits::full())
}

} // verus!
