//! What holds of every page: its items were made before the cutoff, and no
//! thread or post on it is removed as of the cutoff.

use vstd::prelude::*;
use crate::comments::VisibleComments;
use crate::entries::{entry_count, entry_thread, is_post_entry};
use crate::error::ArchiveError;
use crate::join::{comment_of, gathered, post_of, record_of, thread_of};
use crate::lookup::user_position_by;
use crate::model::{Archive, PostRemoval, UserRecord};
use crate::pages::{
    comment_page, lemma_page_rows_within, post_page, thread_page, user_page, CommentPageView,
    PostPageView, ThreadPageView, UserPageView,
};
use crate::pagination::{
    page_slice, COMMENTS_PER_PAGE, POSTS_PER_PAGE, THREADS_PER_PAGE, USER_RECORDS_PER_PAGE,
};
use crate::posts::VisiblePosts;
use crate::records::UserEntries;
use crate::relation::{lemma_listing_exists, listing, Rule};
use crate::request::{recognized, user_type_named};
use crate::text::lex_lt;
use crate::threads::{is_activity, LatestActivities};
use crate::visibility::{removes, retracted};

verus! {

/// The time of an entry of a user's activity feed.
pub open spec fn record_time(record: UserRecord) -> Seq<char> {
    match record {
        UserRecord::Post { time, .. } => time@,
        UserRecord::Comment { time, .. } => time@,
    }
}

/// The thread of an entry of a user's activity feed.
pub open spec fn record_thread(record: UserRecord) -> i64 {
    match record {
        UserRecord::Post { thread_id, .. } => thread_id,
        UserRecord::Comment { thread_id, .. } => thread_id,
    }
}

/// The post of an entry of a user's activity feed: the post itself, or the
/// post that the comment belongs to.
pub open spec fn record_post(record: UserRecord) -> i64 {
    match record {
        UserRecord::Post { post_id, .. } => post_id,
        UserRecord::Comment { post_id, .. } => post_id,
    }
}

/// A removal of a thread removes every post of the thread: an item of a
/// thread that is not removed belongs to a thread that is not removed.
pub proof fn lemma_thread_removal_covers_posts(
    log: Seq<PostRemoval>,
    thread_id: i64,
    post_id: i64,
    cutoff: Seq<char>,
)
    requires
        !retracted(log, Some(thread_id), Some(post_id), cutoff),
    ensures
        !retracted(log, Some(thread_id), None, cutoff),
{
    if retracted(log, Some(thread_id), None, cutoff) {
        let k = choose|k: int| 0 <= k < log.len() && removes(log, k, Some(thread_id), None, cutoff);
        assert(removes(log, k, Some(thread_id), Some(post_id), cutoff));
    }
}

/// The values of joins that all succeeded are the values of the joins, one
/// by one.
proof fn lemma_gathered_values<T>(
    items: Seq<Result<T, ArchiveError>>,
    values: Seq<T>,
    k: int,
)
    requires
        gathered(items) == Ok::<Seq<T>, ArchiveError>(values),
        0 <= k < values.len(),
    ensures
        values.len() == items.len(),
        items[k] == Ok::<T, ArchiveError>(values[k]),
{
}

/// Every post of a page of posts was made before the cutoff, and no
/// moderation entry in effect at the cutoff removes it or its thread.
pub proof fn lemma_post_page_as_of_cutoff(
    archive: Archive,
    thread_id: i64,
    page: nat,
    cutoff: Seq<char>,
    view: PostPageView,
    k: int,
)
    requires
        page >= 1,
        post_page(archive, thread_id, page, cutoff) == Ok::<
            PostPageView,
            ArchiveError,
        >(view),
        0 <= k < view.posts.len(),
    ensures
        lex_lt(view.posts[k].time@, cutoff),
        !retracted(archive.post_removals@, Some(thread_id), Some(view.posts[k].post_id), cutoff),
        !retracted(archive.post_removals@, Some(thread_id), None, cutoff),
{
    let rule = VisiblePosts { archive, thread_id, cutoff };
    lemma_listing_exists(rule);
    let candidates = listing(rule);
    let size = POSTS_PER_PAGE as nat;
    let shown = page_slice(candidates, page, size);
    lemma_page_rows_within(candidates, page, size, rule.span());
    let items = shown.map_values(|i: usize| post_of(archive, i as int));
    lemma_gathered_values(items, view.posts, k);
    assert(candidates.contains(shown[k]));
    let q = choose|q: int| 0 <= q < candidates.len() && candidates[q] == shown[k];
    assert(rule.admits(candidates[q] as int));
    lemma_thread_removal_covers_posts(
        archive.post_removals@,
        thread_id,
        view.posts[k].post_id,
        cutoff,
    );
}

/// Every comment of a page of comments was made before the cutoff.
pub proof fn lemma_comment_page_as_of_cutoff(
    archive: Archive,
    post_id: i64,
    page: nat,
    cutoff: Seq<char>,
    view: CommentPageView,
    k: int,
)
    requires
        page >= 1,
        comment_page(archive, post_id, page, cutoff) == Ok::<
            CommentPageView,
            ArchiveError,
        >(view),
        0 <= k < view.comments.len(),
    ensures
        lex_lt(view.comments[k].time@, cutoff),
{
    let rule = VisibleComments { archive, post_id, cutoff };
    lemma_listing_exists(rule);
    let candidates = listing(rule);
    let size = COMMENTS_PER_PAGE as nat;
    let shown = page_slice(candidates, page, size);
    lemma_page_rows_within(candidates, page, size, rule.span());
    let items = shown.map_values(|j: usize| comment_of(archive, j as int));
    lemma_gathered_values(items, view.comments, k);
    assert(candidates.contains(shown[k]));
    let q = choose|q: int| 0 <= q < candidates.len() && candidates[q] == shown[k];
    assert(rule.admits(candidates[q] as int));
}

/// Every thread of a page of the thread listing is listed with an activity
/// made before the cutoff, and no moderation entry in effect at the cutoff
/// removes the thread.
pub proof fn lemma_thread_page_as_of_cutoff(
    archive: Archive,
    page: nat,
    cutoff: Seq<char>,
    pattern: Seq<char>,
    view: ThreadPageView,
    k: int,
)
    requires
        page >= 1,
        entry_count(archive) <= usize::MAX,
        thread_page(archive, page, cutoff, pattern) == Ok::<
            ThreadPageView,
            ArchiveError,
        >(view),
        0 <= k < view.threads.len(),
    ensures
        lex_lt(view.threads[k].time@, cutoff),
        !retracted(archive.post_removals@, Some(view.threads[k].thread_id), None, cutoff),
{
    let rule = LatestActivities { archive, cutoff, pattern };
    lemma_listing_exists(rule);
    let candidates = listing(rule);
    let size = THREADS_PER_PAGE as nat;
    let shown = page_slice(candidates, page, size);
    lemma_page_rows_within(candidates, page, size, rule.span());
    let items = shown.map_values(|i: usize| thread_of(archive, i as int));
    lemma_gathered_values(items, view.threads, k);
    assert(candidates.contains(shown[k]));
    let q = choose|q: int| 0 <= q < candidates.len() && candidates[q] == shown[k];
    assert(rule.admits(candidates[q] as int));
    let i = shown[k] as int;
    assert(is_activity(archive, i, cutoff, pattern));
    let thread_id = view.threads[k].thread_id;
    assert(entry_thread(archive, i) == Some(thread_id));
    if is_post_entry(archive, i) {
        lemma_thread_removal_covers_posts(
            archive.post_removals@,
            thread_id,
            archive.posts[i].post_id,
            cutoff,
        );
    }
}

/// Every entry of a page of a user's activity feed was made before the
/// cutoff, and no moderation entry in effect at the cutoff removes a post of
/// the page or the thread of such a post.
pub proof fn lemma_user_page_as_of_cutoff(
    archive: Archive,
    kind: Seq<char>,
    clue: Seq<char>,
    page: nat,
    cutoff: Seq<char>,
    view: UserPageView,
    k: int,
)
    requires
        page >= 1,
        entry_count(archive) <= usize::MAX,
        user_page(archive, kind, clue, page, cutoff) == Ok::<
            UserPageView,
            ArchiveError,
        >(view),
        0 <= k < view.records.len(),
    ensures
        lex_lt(record_time(view.records[k]), cutoff),
        view.records[k] is Post ==> !retracted(
            archive.post_removals@,
            Some(record_thread(view.records[k])),
            Some(record_post(view.records[k])),
            cutoff,
        ),
{
    let user_type = recognized(user_type_named(kind))->Ok_0;
    let u = user_position_by(archive, user_type, clue)->Some_0;
    let rule = UserEntries { archive, user_id: archive.users[u].user_id, cutoff };
    lemma_listing_exists(rule);
    let candidates = listing(rule);
    let size = USER_RECORDS_PER_PAGE as nat;
    let shown = page_slice(candidates, page, size);
    lemma_page_rows_within(candidates, page, size, rule.span());
    let items = shown.map_values(|i: usize| record_of(archive, i as int));
    lemma_gathered_values(items, view.records, k);
    assert(candidates.contains(shown[k]));
    let q = choose|q: int| 0 <= q < candidates.len() && candidates[q] == shown[k];
    assert(rule.admits(candidates[q] as int));
}

} // verus!
