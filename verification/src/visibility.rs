//! Whether a content item survives moderation as of a point in time.

use vstd::prelude::*;
use crate::model::PostRemoval;
use crate::temporal::{falls_in_incident_window, in_incident_window, is_before};
use crate::text::lex_lt;

verus! {

/// The operation of a moderation entry that removes a thread or a post.
pub const DELETION: &'static str = "删贴";

/// Whether a moderation entry counts as a removal at `cutoff`: it lies
/// outside the incident windows, it was made before `cutoff`, and its
/// operation is the deletion.
pub open spec fn in_effect(entry: PostRemoval, cutoff: Seq<char>) -> bool {
    &&& !in_incident_window(entry.operation_time@)
    &&& lex_lt(entry.operation_time@, cutoff)
    &&& entry.operation@ == DELETION@
}

/// Whether a moderation entry is aimed at the item that belongs to thread
/// `thread_id` and, if it is a post, has the identifier `post_id`. An entry
/// that names a post is aimed at that post; an entry that names none is aimed
/// at its thread and at everything in it.
pub open spec fn aims_at(entry: PostRemoval, thread_id: Option<i64>, post_id: Option<i64>) -> bool {
    match entry.post_id {
        Some(target) => post_id == Some(target),
        None => thread_id == Some(entry.thread_id),
    }
}

/// Whether some entry of the log removes the item as of `cutoff`.
pub open spec fn retracted(
    log: Seq<PostRemoval>,
    thread_id: Option<i64>,
    post_id: Option<i64>,
    cutoff: Seq<char>,
) -> bool {
    exists|k: int| 0 <= k < log.len() && removes(log, k, thread_id, post_id, cutoff)
}

/// Whether entry `k` of the log removes the item as of `cutoff`.
pub open spec fn removes(
    log: Seq<PostRemoval>,
    k: int,
    thread_id: Option<i64>,
    post_id: Option<i64>,
    cutoff: Seq<char>,
) -> bool {
    aims_at(log[k], thread_id, post_id) && in_effect(log[k], cutoff)
}

/// Whether an item created at `created` is visible at `cutoff`: it was
/// created strictly before `cutoff` and no entry of the log removes it.
pub open spec fn visible(
    log: Seq<PostRemoval>,
    created: Seq<char>,
    thread_id: Option<i64>,
    post_id: Option<i64>,
    cutoff: Seq<char>,
) -> bool {
    lex_lt(created, cutoff) && !retracted(log, thread_id, post_id, cutoff)
}

/// Whether a moderation entry counts as a removal at `cutoff`.
pub fn is_in_effect(entry: &PostRemoval, cutoff: &str) -> (r: bool)
    ensures
        r == in_effect(*entry, cutoff@),
{
    if falls_in_incident_window(entry.operation_time.as_str()) {
        return false;
    }
    if !is_before(entry.operation_time.as_str(), cutoff) {
        return false;
    }
    let deletion = String::from_str(DELETION);
    entry.operation == deletion
}

/// Whether some entry of the log removes the item as of `cutoff`.
pub fn is_retracted(
    log: &Vec<PostRemoval>,
    thread_id: Option<i64>,
    post_id: Option<i64>,
    cutoff: &str,
) -> (r: bool)
    ensures
        r == retracted(log@, thread_id, post_id, cutoff@),
{
    let mut k: usize = 0;
    while k < log.len()
        invariant
            k <= log.len(),
            forall|j: int| 0 <= j < k ==> !removes(log@, j, thread_id, post_id, cutoff@),
        decreases log.len() - k,
    {
        let entry = &log[k];
        let aimed = match entry.post_id {
            Some(target) => match post_id {
                Some(p) => p == target,
                None => false,
            },
            None => match thread_id {
                Some(t) => t == entry.thread_id,
                None => false,
            },
        };
        if aimed && is_in_effect(entry, cutoff) {
            assert(removes(log@, k as int, thread_id, post_id, cutoff@));
            return true;
        }
        k += 1;
    }
    false
}

/// Whether an item created at `created` is visible at `cutoff`.
pub fn is_visible(
    log: &Vec<PostRemoval>,
    created: &str,
    thread_id: Option<i64>,
    post_id: Option<i64>,
    cutoff: &str,
) -> (r: bool)
    ensures
        r == visible(log@, created@, thread_id, post_id, cutoff@),
{
    is_before(created, cutoff) && !is_retracted(log, thread_id, post_id, cutoff)
}

} // verus!
