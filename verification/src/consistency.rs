//! What the archive is taken to guarantee, and what follows from it: on a
//! consistent archive no request ends in a `DataInconsistency`.

use vstd::prelude::*;
use crate::comments::VisibleComments;
use crate::entries::{comment_of_entry, entry_count, entry_thread, is_post_entry};
use crate::error::ArchiveError;
use crate::join::{
    author_of, authors_of, comment_of, comments_of, post_of, posts_of, record_of, thread_of,
    threads_of,
};
use crate::lookup::{
    opening_post_position, post_position, thread_position, user_position, user_position_by,
};
use crate::model::{Archive, Comment, Post, StoredPost, StoredThread, Thread, User};
use crate::pages::{
    comment_page, comment_preview, lemma_page_rows_within, post_page, thread_page, user_page,
};
use crate::pagination::{
    page_slice, COMMENTS_PER_PAGE, POSTS_PER_PAGE, THREADS_PER_PAGE, USER_RECORDS_PER_PAGE,
};
use crate::payload::{decode_payload, parsed_json};
use crate::posts::VisiblePosts;
use crate::records::UserEntries;
use crate::relation::{lemma_listing_exists, listing, Rule};
use crate::request::{recognized, user_type_named};
use crate::threads::{is_activity, LatestActivities};

verus! {

/// Every row has its own identifier.
pub open spec fn identifiers_are_unique(archive: Archive) -> bool {
    &&& forall|i: int, j: int|
        0 <= i < j < archive.threads.len() ==> (#[trigger] archive.threads[i]).thread_id != (
        #[trigger] archive.threads[j]).thread_id
    &&& forall|i: int, j: int|
        0 <= i < j < archive.posts.len() ==> (#[trigger] archive.posts[i]).post_id != (
        #[trigger] archive.posts[j]).post_id
    &&& forall|i: int, j: int|
        0 <= i < j < archive.comments.len() ==> (#[trigger] archive.comments[i]).comment_id != (
        #[trigger] archive.comments[j]).comment_id
    &&& forall|i: int, j: int|
        0 <= i < j < archive.users.len() ==> (#[trigger] archive.users[i]).user_id != (
        #[trigger] archive.users[j]).user_id
}

/// The floors of a thread start at 1 and leave no gap, and no two posts of
/// a thread stand on the same floor.
pub open spec fn floors_are_dense(archive: Archive) -> bool {
    &&& forall|i: int| 0 <= i < archive.posts.len() ==> (#[trigger] archive.posts[i]).floor >= 1
    &&& forall|i: int|
        0 <= i < archive.posts.len() && (#[trigger] archive.posts[i]).floor > 1 ==> exists|j: int|
            stands_below(archive, j, i)
    &&& forall|i: int, j: int|
        0 <= i < j < archive.posts.len() && (#[trigger] archive.posts[i]).thread_id == (
        #[trigger] archive.posts[j]).thread_id ==> archive.posts[i].floor != archive.posts[j].floor
}

/// Post `j` stands one floor below post `i` in the same thread.
pub open spec fn stands_below(archive: Archive, j: int, i: int) -> bool {
    &&& 0 <= j < archive.posts.len()
    &&& archive.posts[j].thread_id == archive.posts[i].thread_id
    &&& archive.posts[j].floor == archive.posts[i].floor - 1
}

/// Every post belongs to a thread of the archive, every comment to a post
/// of the archive, and every author is a user of the archive.
pub open spec fn references_are_kept(archive: Archive) -> bool {
    &&& forall|i: int|
        0 <= i < archive.posts.len() ==> thread_position(
            archive,
            (#[trigger] archive.posts[i]).thread_id,
        ) is Some && user_position(archive, archive.posts[i].user_id) is Some
    &&& forall|j: int|
        0 <= j < archive.comments.len() ==> post_position(
            archive,
            (#[trigger] archive.comments[j]).post_id,
        ) is Some && user_position(archive, archive.comments[j].user_id) is Some
    &&& forall|t: int|
        0 <= t < archive.threads.len() ==> user_position(
            archive,
            (#[trigger] archive.threads[t]).user_id,
        ) is Some
}

/// Every content is a well-formed payload.
pub open spec fn payloads_are_well_formed(archive: Archive) -> bool {
    &&& forall|i: int|
        0 <= i < archive.posts.len() ==> parsed_json((#[trigger] archive.posts[i]).content@) is Some
    &&& forall|j: int|
        0 <= j < archive.comments.len() ==> parsed_json(
            (#[trigger] archive.comments[j]).content@,
        ) is Some
}

/// Decodes every content of the archive and tells whether each of them is
/// a well-formed payload.
pub fn check_payloads(archive: &Archive) -> (r: bool)
    ensures
        r == payloads_are_well_formed(*archive),
{
    let mut i: usize = 0;
    while i < archive.posts.len()
        invariant
            i <= archive.posts.len(),
            forall|k: int|
                0 <= k < i ==> parsed_json((#[trigger] archive.posts[k]).content@) is Some,
        decreases archive.posts.len() - i,
    {
        if decode_payload(archive.posts[i].content.as_str()).is_err() {
            assert(parsed_json(archive.posts[i as int].content@) is None);
            return false;
        }
        i += 1;
    }
    let mut j: usize = 0;
    while j < archive.comments.len()
        invariant
            j <= archive.comments.len(),
            forall|k: int|
                0 <= k < archive.posts.len() ==> parsed_json(
                    (#[trigger] archive.posts[k]).content@,
                ) is Some,
            forall|k: int|
                0 <= k < j ==> parsed_json((#[trigger] archive.comments[k]).content@) is Some,
        decreases archive.comments.len() - j,
    {
        if decode_payload(archive.comments[j].content.as_str()).is_err() {
            assert(parsed_json(archive.comments[j as int].content@) is None);
            return false;
        }
        j += 1;
    }
    true
}

/// What the archive is taken to guarantee.
pub open spec fn consistent(archive: Archive) -> bool {
    &&& identifiers_are_unique(archive)
    &&& floors_are_dense(archive)
    &&& references_are_kept(archive)
    &&& payloads_are_well_formed(archive)
}

/// In a consistent archive the thread of every post has an opening post.
pub proof fn lemma_thread_has_opening_post(archive: Archive, i: int)
    requires
        floors_are_dense(archive),
        0 <= i < archive.posts.len(),
    ensures
        opening_post_position(archive, archive.posts[i].thread_id) is Some,
    decreases archive.posts[i].floor,
{
    let keys = archive.posts@.map_values(|p: StoredPost| (p.thread_id, p.floor));
    let thread_id = archive.posts[i].thread_id;
    if archive.posts[i].floor == 1 {
        assert(keys[i] == (thread_id, 1i32));
        assert(keys.contains((thread_id, 1i32)));
        keys.index_of_first_ensures((thread_id, 1i32));
    } else {
        let j = choose|j: int| stands_below(archive, j, i);
        lemma_thread_has_opening_post(archive, j);
    }
}

/// The position that a lookup by identifier gives is a position of the
/// table.
pub proof fn lemma_positions_are_rows(archive: Archive, thread_id: i64, post_id: i64, user_id: i64)
    ensures
        thread_position(archive, thread_id) matches Some(t) ==> 0 <= t < archive.threads.len()
            && archive.threads[t].thread_id == thread_id,
        post_position(archive, post_id) matches Some(p) ==> 0 <= p < archive.posts.len()
            && archive.posts[p].post_id == post_id,
        opening_post_position(archive, thread_id) matches Some(p) ==> 0 <= p < archive.posts.len()
            && archive.posts[p].thread_id == thread_id,
        user_position(archive, user_id) matches Some(u) ==> 0 <= u < archive.users.len()
            && archive.users[u].user_id == user_id,
{
    archive.threads@.map_values(|t: StoredThread| t.thread_id).index_of_first_ensures(thread_id);
    archive.posts@.map_values(|p: StoredPost| p.post_id).index_of_first_ensures(post_id);
    archive.posts@.map_values(|p: StoredPost| (p.thread_id, p.floor)).index_of_first_ensures(
        (thread_id, 1i32),
    );
    archive.users@.map_values(|u: User| u.user_id).index_of_first_ensures(user_id);
}

/// In a consistent archive every post can be shown.
pub proof fn lemma_post_can_be_shown(archive: Archive, i: int)
    requires
        consistent(archive),
        0 <= i < archive.posts.len(),
    ensures
        post_of(archive, i) is Ok,
        post_of(archive, i)->Ok_0.user_id == archive.posts[i].user_id,
        post_of(archive, i)->Ok_0.post_id == archive.posts[i].post_id,
{
}

/// In a consistent archive every comment can be shown.
pub proof fn lemma_comment_can_be_shown(archive: Archive, j: int)
    requires
        consistent(archive),
        0 <= j < archive.comments.len(),
    ensures
        comment_of(archive, j) is Ok,
        comment_of(archive, j)->Ok_0.user_id == archive.comments[j].user_id,
{
}

/// In a consistent archive the thread of every entry that belongs to a
/// thread can be shown, with authors that are users of the archive.
pub proof fn lemma_thread_can_be_shown(archive: Archive, i: int)
    requires
        consistent(archive),
        0 <= i < entry_count(archive),
        entry_thread(archive, i) is Some,
    ensures
        thread_of(archive, i) is Ok,
        author_of(archive, thread_of(archive, i)->Ok_0.op_user_id) is Ok,
        author_of(archive, thread_of(archive, i)->Ok_0.user_id) is Ok,
{
    let thread_id = entry_thread(archive, i)->Some_0;
    if is_post_entry(archive, i) {
        lemma_thread_has_opening_post(archive, i);
    } else {
        let post_id = archive.comments[comment_of_entry(archive, i)].post_id;
        lemma_positions_are_rows(archive, thread_id, post_id, 0);
        let p = post_position(archive, post_id)->Some_0;
        lemma_thread_has_opening_post(archive, p);
    }
    lemma_positions_are_rows(archive, thread_id, 0, 0);
}

/// In a consistent archive every entry can be shown in a user's activity
/// feed.
pub proof fn lemma_record_can_be_shown(archive: Archive, i: int)
    requires
        consistent(archive),
        0 <= i < entry_count(archive),
    ensures
        record_of(archive, i) is Ok,
{
    if !is_post_entry(archive, i) {
        let post_id = archive.comments[comment_of_entry(archive, i)].post_id;
        lemma_positions_are_rows(archive, 0, post_id, 0);
    }
}

/// In a consistent archive the comments of every post can be shown with
/// their authors.
pub proof fn lemma_comments_can_be_shown(archive: Archive, positions: Seq<usize>)
    requires
        consistent(archive),
        forall|k: int| 0 <= k < positions.len() ==> (#[trigger] positions[k]) < archive.comments.len(),
    ensures
        comments_of(archive, positions) is Ok,
        authors_of(
            archive,
            comments_of(archive, positions)->Ok_0.map_values(|c: Comment| c.user_id),
        ) is Ok,
{
    let items = positions.map_values(|j: usize| comment_of(archive, j as int));
    assert forall|k: int| 0 <= k < items.len() implies (#[trigger] items[k]) is Ok by {
        lemma_comment_can_be_shown(archive, positions[k] as int);
    }
    let comments = comments_of(archive, positions)->Ok_0;
    let ids = comments.map_values(|c: Comment| c.user_id);
    let authors = ids.map_values(|id: i64| author_of(archive, id));
    assert forall|k: int| 0 <= k < authors.len() implies (#[trigger] authors[k]) is Ok by {
        lemma_comment_can_be_shown(archive, positions[k] as int);
        assert(comments[k] == items[k]->Ok_0);
        lemma_positions_are_rows(archive, 0, 0, ids[k]);
    }
}

/// On a consistent archive a page of comments is found or not found, and
/// never ends in a `DataInconsistency`.
pub proof fn lemma_consistent_comment_page(
    archive: Archive,
    post_id: i64,
    page: nat,
    cutoff: Seq<char>,
)
    requires
        consistent(archive),
        page >= 1,
    ensures
        comment_page(archive, post_id, page, cutoff) is Ok || comment_page(
            archive,
            post_id,
            page,
            cutoff,
        )->Err_0 == ArchiveError::NotFound,
{
    let rule = VisibleComments { archive, post_id, cutoff };
    lemma_listing_exists(rule);
    let candidates = listing(rule);
    let size = COMMENTS_PER_PAGE as nat;
    lemma_page_rows_within(candidates, page, size, rule.span());
    lemma_comments_can_be_shown(archive, page_slice(candidates, page, size));
}

/// On a consistent archive what a page of posts shows of the comments of a
/// post can always be worked out.
pub proof fn lemma_consistent_comment_preview(archive: Archive, post_id: i64, cutoff: Seq<char>)
    requires
        consistent(archive),
    ensures
        comment_preview(archive, post_id, cutoff) is Ok,
{
    let rule = VisibleComments { archive, post_id, cutoff };
    lemma_listing_exists(rule);
    let candidates = listing(rule);
    let size = COMMENTS_PER_PAGE as nat;
    lemma_page_rows_within(candidates, 1, size, rule.span());
    lemma_comments_can_be_shown(archive, page_slice(candidates, 1, size));
}

/// On a consistent archive a page of posts is found or not found, and never
/// ends in a `DataInconsistency`.
pub proof fn lemma_consistent_post_page(
    archive: Archive,
    thread_id: i64,
    page: nat,
    cutoff: Seq<char>,
)
    requires
        consistent(archive),
        page >= 1,
    ensures
        post_page(archive, thread_id, page, cutoff) is Ok || post_page(
            archive,
            thread_id,
            page,
            cutoff,
        )->Err_0 == ArchiveError::NotFound,
{
    let rule = VisiblePosts { archive, thread_id, cutoff };
    lemma_listing_exists(rule);
    let candidates = listing(rule);
    let size = POSTS_PER_PAGE as nat;
    lemma_page_rows_within(candidates, page, size, rule.span());
    let shown = page_slice(candidates, page, size);
    let items = shown.map_values(|i: usize| post_of(archive, i as int));
    assert forall|k: int| 0 <= k < items.len() implies (#[trigger] items[k]) is Ok by {
        lemma_post_can_be_shown(archive, shown[k] as int);
    }
    let posts = posts_of(archive, shown)->Ok_0;
    let previews = posts.map_values(|p: Post| comment_preview(archive, p.post_id, cutoff));
    assert forall|k: int| 0 <= k < previews.len() implies (#[trigger] previews[k]) is Ok by {
        lemma_consistent_comment_preview(archive, posts[k].post_id, cutoff);
    }
    let ids = posts.map_values(|p: Post| p.user_id);
    let authors = ids.map_values(|id: i64| author_of(archive, id));
    assert forall|k: int| 0 <= k < authors.len() implies (#[trigger] authors[k]) is Ok by {
        lemma_post_can_be_shown(archive, shown[k] as int);
        assert(posts[k] == items[k]->Ok_0);
        lemma_positions_are_rows(archive, 0, 0, ids[k]);
    }
}

/// On a consistent archive a page of the thread listing is found or not
/// found, and never ends in a `DataInconsistency`.
pub proof fn lemma_consistent_thread_page(
    archive: Archive,
    page: nat,
    cutoff: Seq<char>,
    pattern: Seq<char>,
)
    requires
        consistent(archive),
        page >= 1,
        entry_count(archive) <= usize::MAX,
    ensures
        thread_page(archive, page, cutoff, pattern) is Ok || thread_page(
            archive,
            page,
            cutoff,
            pattern,
        )->Err_0 == ArchiveError::NotFound,
{
    let rule = LatestActivities { archive, cutoff, pattern };
    lemma_listing_exists(rule);
    let candidates = listing(rule);
    let size = THREADS_PER_PAGE as nat;
    lemma_page_rows_within(candidates, page, size, rule.span());
    let shown = page_slice(candidates, page, size);
    let items = shown.map_values(|i: usize| thread_of(archive, i as int));
    assert forall|k: int| 0 <= k < shown.len() implies entry_thread(
        archive,
        (#[trigger] shown[k]) as int,
    ) is Some by {
        assert(candidates.contains(shown[k]));
        let q = choose|q: int| 0 <= q < candidates.len() && candidates[q] == shown[k];
        assert(rule.admits(candidates[q] as int));
        assert(is_activity(archive, shown[k] as int, cutoff, pattern));
    }
    assert forall|k: int| 0 <= k < items.len() implies (#[trigger] items[k]) is Ok by {
        assert(entry_thread(archive, shown[k] as int) is Some);
        lemma_thread_can_be_shown(archive, shown[k] as int);
    }
    let threads = threads_of(archive, shown)->Ok_0;
    let opening = threads.map_values(|t: Thread| t.op_user_id).map_values(
        |id: i64| author_of(archive, id),
    );
    assert forall|k: int| 0 <= k < opening.len() implies (#[trigger] opening[k]) is Ok by {
        assert(entry_thread(archive, shown[k] as int) is Some);
        lemma_thread_can_be_shown(archive, shown[k] as int);
        assert(threads[k] == items[k]->Ok_0);
    }
    let latest = threads.map_values(|t: Thread| t.user_id).map_values(
        |id: i64| author_of(archive, id),
    );
    assert forall|k: int| 0 <= k < latest.len() implies (#[trigger] latest[k]) is Ok by {
        assert(entry_thread(archive, shown[k] as int) is Some);
        lemma_thread_can_be_shown(archive, shown[k] as int);
        assert(threads[k] == items[k]->Ok_0);
    }
}

/// On a consistent archive a page of a user's activity feed is found, not
/// found or not processable, and never ends in a `DataInconsistency`.
pub proof fn lemma_consistent_user_page(
    archive: Archive,
    kind: Seq<char>,
    clue: Seq<char>,
    page: nat,
    cutoff: Seq<char>,
)
    requires
        consistent(archive),
        page >= 1,
        entry_count(archive) <= usize::MAX,
    ensures
        user_page(archive, kind, clue, page, cutoff) is Ok || user_page(
            archive,
            kind,
            clue,
            page,
            cutoff,
        )->Err_0 != ArchiveError::DataInconsistency,
{
    if recognized(user_type_named(kind)) is Ok {
        let user_type = recognized(user_type_named(kind))->Ok_0;
        if user_position_by(archive, user_type, clue) is Some {
            let u = user_position_by(archive, user_type, clue)->Some_0;
            let rule = UserEntries { archive, user_id: archive.users[u].user_id, cutoff };
            lemma_listing_exists(rule);
            let candidates = listing(rule);
            let size = USER_RECORDS_PER_PAGE as nat;
            lemma_page_rows_within(candidates, page, size, rule.span());
            let shown = page_slice(candidates, page, size);
            let items = shown.map_values(|i: usize| record_of(archive, i as int));
            assert forall|k: int| 0 <= k < items.len() implies (#[trigger] items[k]) is Ok by {
                lemma_record_can_be_shown(archive, shown[k] as int);
            }
        }
    }
}

} // verus!
