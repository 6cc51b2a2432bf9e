//! The join of the rows of a page with what the page shows of them: decoded
//! contents, the thread of a record, the users behind author identifiers.
//!
//! The archive is taken to be consistent. A row that a page needs and that
//! is missing, or a content that cannot be decoded, is a
//! `DataInconsistency`.

use vstd::prelude::*;
use crate::entries::{
    comment_of_entry, entry_author, entry_count, entry_stamp, entry_thread, is_post_entry,
    EntryTable,
};
use crate::error::ArchiveError;
use crate::lookup::{
    find_opening_post, find_post, find_thread, find_user, opening_post_position, post_position,
    thread_position, user_position,
};
use crate::model::{clone_optional, Archive, Comment, Post, Thread, User, UserRecord};
use crate::payload::{decode_payload, decoded, parsed_json};

verus! {

/// A row that must be there: the row at the position, or
/// `DataInconsistency` where there is no position.
pub open spec fn required(position: Option<int>) -> Result<int, ArchiveError> {
    match position {
        Some(i) => Ok(i),
        None => Err(ArchiveError::DataInconsistency),
    }
}

/// The values of a sequence of joins that all succeeded; where one of them
/// failed, the failure.
pub open spec fn gathered<T>(items: Seq<Result<T, ArchiveError>>) -> Result<Seq<T>, ArchiveError> {
    if forall|k: int| 0 <= k < items.len() ==> (#[trigger] items[k]) is Ok {
        Ok(items.map_values(|item: Result<T, ArchiveError>| item->Ok_0))
    } else {
        Err(ArchiveError::DataInconsistency)
    }
}

/// The post at position `i` as a page shows it.
pub open spec fn post_of(archive: Archive, i: int) -> Result<Post, ArchiveError> {
    let row = archive.posts[i];
    match decoded(parsed_json(row.content@)) {
        Ok(content) => Ok(
            Post {
                post_id: row.post_id,
                floor: row.floor,
                user_id: row.user_id,
                content,
                time: row.time,
                comment_num: row.comment_num,
                signature: row.signature,
                tail: row.tail,
            },
        ),
        Err(e) => Err(e),
    }
}

/// The comment at position `j` as a page shows it.
pub open spec fn comment_of(archive: Archive, j: int) -> Result<Comment, ArchiveError> {
    let row = archive.comments[j];
    match decoded(parsed_json(row.content@)) {
        Ok(content) => Ok(
            Comment { comment_id: row.comment_id, user_id: row.user_id, content, time: row.time },
        ),
        Err(e) => Err(e),
    }
}

/// The user behind an author identifier.
pub open spec fn author_of(archive: Archive, user_id: i64) -> Result<User, ArchiveError> {
    match required(user_position(archive, user_id)) {
        Ok(u) => Ok(archive.users[u]),
        Err(e) => Err(e),
    }
}

/// The users behind a sequence of author identifiers.
pub open spec fn authors_of(archive: Archive, user_ids: Seq<i64>) -> Result<
    Seq<User>,
    ArchiveError,
> {
    gathered(user_ids.map_values(|id: i64| author_of(archive, id)))
}

/// The thread whose most recent activity is entry `i`, as the thread
/// listing shows it.
pub open spec fn thread_of(archive: Archive, i: int) -> Result<Thread, ArchiveError> {
    match entry_thread(archive, i) {
        None => Err(ArchiveError::DataInconsistency),
        Some(thread_id) => match required(thread_position(archive, thread_id)) {
            Err(e) => Err(e),
            Ok(t) => match required(opening_post_position(archive, thread_id)) {
                Err(e) => Err(e),
                Ok(p) => match decoded(parsed_json(archive.posts[p].content@)) {
                    Err(e) => Err(e),
                    Ok(content) => Ok(
                        Thread {
                            thread_id,
                            op_user_id: archive.threads[t].user_id,
                            title: archive.threads[t].title,
                            user_id: entry_author(archive, i),
                            time: entry_stamp(archive, i),
                            reply_num: archive.threads[t].reply_num,
                            is_good: archive.threads[t].is_good,
                            op_post_content: content,
                        },
                    ),
                },
            },
        },
    }
}

/// The post at position `i` as a user's activity feed shows it.
pub open spec fn post_record_of(archive: Archive, i: int) -> Result<UserRecord, ArchiveError> {
    let row = archive.posts[i];
    match required(thread_position(archive, row.thread_id)) {
        Err(e) => Err(e),
        Ok(t) => match decoded(parsed_json(row.content@)) {
            Err(e) => Err(e),
            Ok(post_content) => Ok(
                UserRecord::Post {
                    thread_id: row.thread_id,
                    title: archive.threads[t].title,
                    post_id: row.post_id,
                    floor: row.floor,
                    post_content,
                    time: row.time,
                },
            ),
        },
    }
}

/// The comment at position `j` as a user's activity feed shows it.
pub open spec fn comment_record_of(archive: Archive, j: int) -> Result<UserRecord, ArchiveError> {
    let row = archive.comments[j];
    match required(post_position(archive, row.post_id)) {
        Err(e) => Err(e),
        Ok(p) => match required(thread_position(archive, archive.posts[p].thread_id)) {
            Err(e) => Err(e),
            Ok(t) => match decoded(parsed_json(archive.posts[p].content@)) {
                Err(e) => Err(e),
                Ok(post_content) => match decoded(parsed_json(row.content@)) {
                    Err(e) => Err(e),
                    Ok(comment_content) => Ok(
                        UserRecord::Comment {
                            thread_id: archive.posts[p].thread_id,
                            title: archive.threads[t].title,
                            post_id: row.post_id,
                            floor: archive.posts[p].floor,
                            post_content,
                            comment_id: row.comment_id,
                            comment_content,
                            time: row.time,
                        },
                    ),
                },
            },
        },
    }
}

/// Entry `i` as a user's activity feed shows it.
pub open spec fn record_of(archive: Archive, i: int) -> Result<UserRecord, ArchiveError> {
    if is_post_entry(archive, i) {
        post_record_of(archive, i)
    } else {
        comment_record_of(archive, comment_of_entry(archive, i))
    }
}

/// The posts at `positions` as a page shows them.
pub open spec fn posts_of(archive: Archive, positions: Seq<usize>) -> Result<
    Seq<Post>,
    ArchiveError,
> {
    gathered(positions.map_values(|i: usize| post_of(archive, i as int)))
}

/// The comments at `positions` as a page shows them.
pub open spec fn comments_of(archive: Archive, positions: Seq<usize>) -> Result<
    Seq<Comment>,
    ArchiveError,
> {
    gathered(positions.map_values(|j: usize| comment_of(archive, j as int)))
}

/// The threads whose most recent activities are the entries at
/// `positions`, as the thread listing shows them.
pub open spec fn threads_of(archive: Archive, positions: Seq<usize>) -> Result<
    Seq<Thread>,
    ArchiveError,
> {
    gathered(positions.map_values(|i: usize| thread_of(archive, i as int)))
}

/// The entries at `positions` as a user's activity feed shows them.
pub open spec fn records_of(archive: Archive, positions: Seq<usize>) -> Result<
    Seq<UserRecord>,
    ArchiveError,
> {
    gathered(positions.map_values(|i: usize| record_of(archive, i as int)))
}

/// The outcome of a join by the values it holds.
pub open spec fn viewed<T>(r: Result<Vec<T>, ArchiveError>) -> Result<Seq<T>, ArchiveError> {
    match r {
        Ok(items) => Ok(items@),
        Err(e) => Err(e),
    }
}

/// A failed join makes the whole sequence of joins fail.
pub proof fn lemma_gathered_fails<T>(items: Seq<Result<T, ArchiveError>>, k: int)
    requires
        0 <= k < items.len(),
        items[k] is Err,
    ensures
        gathered(items) == Err::<Seq<T>, ArchiveError>(ArchiveError::DataInconsistency),
{
}

/// Joins that succeeded one by one make the sequence of their values.
pub proof fn lemma_gathered_succeeds<T>(items: Seq<Result<T, ArchiveError>>, values: Seq<T>)
    requires
        values.len() == items.len(),
        forall|k: int| 0 <= k < items.len() ==> #[trigger] items[k] == Ok::<T, ArchiveError>(values[k]),
    ensures
        gathered(items) == Ok::<Seq<T>, ArchiveError>(values),
{
    assert(items.map_values(|item: Result<T, ArchiveError>| item->Ok_0) =~= values);
}

/// Joins the post at position `i` with its decoded content.
pub fn join_post(archive: &Archive, i: usize) -> (r: Result<Post, ArchiveError>)
    requires
        i < archive.posts.len(),
    ensures
        r == post_of(*archive, i as int),
{
    let row = &archive.posts[i];
    match decode_payload(row.content.as_str()) {
        Ok(content) => Ok(
            Post {
                post_id: row.post_id,
                floor: row.floor,
                user_id: row.user_id,
                content,
                time: row.time.clone(),
                comment_num: row.comment_num,
                signature: clone_optional(&row.signature),
                tail: clone_optional(&row.tail),
            },
        ),
        Err(e) => Err(e),
    }
}

/// Joins the comment at position `j` with its decoded content.
pub fn join_comment(archive: &Archive, j: usize) -> (r: Result<Comment, ArchiveError>)
    requires
        j < archive.comments.len(),
    ensures
        r == comment_of(*archive, j as int),
{
    let row = &archive.comments[j];
    match decode_payload(row.content.as_str()) {
        Ok(content) => Ok(
            Comment {
                comment_id: row.comment_id,
                user_id: row.user_id,
                content,
                time: row.time.clone(),
            },
        ),
        Err(e) => Err(e),
    }
}

/// Resolves an author identifier to its user.
pub fn join_author(archive: &Archive, user_id: i64) -> (r: Result<User, ArchiveError>)
    ensures
        r == author_of(*archive, user_id),
{
    match find_user(archive, user_id) {
        Some(u) => Ok(archive.users[u].clone()),
        None => Err(ArchiveError::DataInconsistency),
    }
}

/// Joins the most recent activity of a thread with the thread and with the
/// decoded content of its opening post.
pub fn join_thread(table: &EntryTable, i: usize) -> (r: Result<Thread, ArchiveError>)
    requires
        table.well_formed(),
        i < entry_count(*table.archive),
    ensures
        r == thread_of(*table.archive, i as int),
{
    let archive = table.archive;
    let thread_id = match table.thread(i) {
        Some(thread_id) => thread_id,
        None => {
            return Err(ArchiveError::DataInconsistency);
        },
    };
    let t = match find_thread(archive, thread_id) {
        Some(t) => t,
        None => {
            return Err(ArchiveError::DataInconsistency);
        },
    };
    let p = match find_opening_post(archive, thread_id) {
        Some(p) => p,
        None => {
            return Err(ArchiveError::DataInconsistency);
        },
    };
    match decode_payload(archive.posts[p].content.as_str()) {
        Ok(content) => Ok(
            Thread {
                thread_id,
                op_user_id: archive.threads[t].user_id,
                title: archive.threads[t].title.clone(),
                user_id: table.author(i),
                time: table.stamp(i).clone(),
                reply_num: archive.threads[t].reply_num,
                is_good: archive.threads[t].is_good,
                op_post_content: content,
            },
        ),
        Err(e) => Err(e),
    }
}

/// Joins an entry with what a user's activity feed shows of it.
pub fn join_record(archive: &Archive, i: usize) -> (r: Result<UserRecord, ArchiveError>)
    requires
        i < entry_count(*archive),
    ensures
        r == record_of(*archive, i as int),
{
    if i < archive.posts.len() {
        let row = &archive.posts[i];
        let t = match find_thread(archive, row.thread_id) {
            Some(t) => t,
            None => {
                return Err(ArchiveError::DataInconsistency);
            },
        };
        match decode_payload(row.content.as_str()) {
            Ok(post_content) => Ok(
                UserRecord::Post {
                    thread_id: row.thread_id,
                    title: archive.threads[t].title.clone(),
                    post_id: row.post_id,
                    floor: row.floor,
                    post_content,
                    time: row.time.clone(),
                },
            ),
            Err(e) => Err(e),
        }
    } else {
        let row = &archive.comments[i - archive.posts.len()];
        let p = match find_post(archive, row.post_id) {
            Some(p) => p,
            None => {
                return Err(ArchiveError::DataInconsistency);
            },
        };
        let t = match find_thread(archive, archive.posts[p].thread_id) {
            Some(t) => t,
            None => {
                return Err(ArchiveError::DataInconsistency);
            },
        };
        let post_content = match decode_payload(archive.posts[p].content.as_str()) {
            Ok(content) => content,
            Err(e) => {
                return Err(e);
            },
        };
        match decode_payload(row.content.as_str()) {
            Ok(comment_content) => Ok(
                UserRecord::Comment {
                    thread_id: archive.posts[p].thread_id,
                    title: archive.threads[t].title.clone(),
                    post_id: row.post_id,
                    floor: archive.posts[p].floor,
                    post_content,
                    comment_id: row.comment_id,
                    comment_content,
                    time: row.time.clone(),
                },
            ),
            Err(e) => Err(e),
        }
    }
}

/// Joins the posts at `positions`.
pub fn join_posts(archive: &Archive, positions: &[usize]) -> (r: Result<Vec<Post>, ArchiveError>)
    requires
        forall|k: int| 0 <= k < positions.len() ==> (#[trigger] positions[k]) < archive.posts.len(),
    ensures
        viewed(r) == posts_of(*archive, positions@),
{
    let ghost items = positions@.map_values(|i: usize| post_of(*archive, i as int));
    let mut joined: Vec<Post> = Vec::new();
    let mut k: usize = 0;
    while k < positions.len()
        invariant
            k <= positions.len(),
            joined.len() == k,
            items == positions@.map_values(|i: usize| post_of(*archive, i as int)),
            forall|j: int| 0 <= j < positions.len() ==> (#[trigger] positions[j]) < archive.posts.len(),
            forall|j: int| 0 <= j < k ==> #[trigger] items[j] == Ok::<Post, ArchiveError>(joined[j]),
        decreases positions.len() - k,
    {
        match join_post(archive, positions[k]) {
            Ok(post) => {
                joined.push(post);
            },
            Err(e) => {
                proof {
                    lemma_gathered_fails(items, k as int);
                }
                return Err(e);
            },
        }
        k += 1;
    }
    proof {
        lemma_gathered_succeeds(items, joined@);
    }
    Ok(joined)
}

/// Joins the comments at `positions`.
pub fn join_comments(archive: &Archive, positions: &[usize]) -> (r: Result<
    Vec<Comment>,
    ArchiveError,
>)
    requires
        forall|k: int|
            0 <= k < positions.len() ==> (#[trigger] positions[k]) < archive.comments.len(),
    ensures
        viewed(r) == comments_of(*archive, positions@),
{
    let ghost items = positions@.map_values(|j: usize| comment_of(*archive, j as int));
    let mut joined: Vec<Comment> = Vec::new();
    let mut k: usize = 0;
    while k < positions.len()
        invariant
            k <= positions.len(),
            joined.len() == k,
            items == positions@.map_values(|j: usize| comment_of(*archive, j as int)),
            forall|j: int|
                0 <= j < positions.len() ==> (#[trigger] positions[j]) < archive.comments.len(),
            forall|j: int| 0 <= j < k ==> #[trigger] items[j] == Ok::<Comment, ArchiveError>(joined[j]),
        decreases positions.len() - k,
    {
        match join_comment(archive, positions[k]) {
            Ok(comment) => {
                joined.push(comment);
            },
            Err(e) => {
                proof {
                    lemma_gathered_fails(items, k as int);
                }
                return Err(e);
            },
        }
        k += 1;
    }
    proof {
        lemma_gathered_succeeds(items, joined@);
    }
    Ok(joined)
}

/// Resolves author identifiers to their users, one user for each
/// identifier, in the order given.
pub fn join_authors(archive: &Archive, user_ids: &Vec<i64>) -> (r: Result<Vec<User>, ArchiveError>)
    ensures
        viewed(r) == authors_of(*archive, user_ids@),
{
    let ghost items = user_ids@.map_values(|id: i64| author_of(*archive, id));
    let mut joined: Vec<User> = Vec::new();
    let mut k: usize = 0;
    while k < user_ids.len()
        invariant
            k <= user_ids.len(),
            joined.len() == k,
            items == user_ids@.map_values(|id: i64| author_of(*archive, id)),
            forall|j: int| 0 <= j < k ==> #[trigger] items[j] == Ok::<User, ArchiveError>(joined[j]),
        decreases user_ids.len() - k,
    {
        match join_author(archive, user_ids[k]) {
            Ok(user) => {
                joined.push(user);
            },
            Err(e) => {
                proof {
                    lemma_gathered_fails(items, k as int);
                }
                return Err(e);
            },
        }
        k += 1;
    }
    proof {
        lemma_gathered_succeeds(items, joined@);
    }
    Ok(joined)
}

/// Joins the most recent activities at `positions` with their threads.
pub fn join_threads(table: &EntryTable, positions: &[usize]) -> (r: Result<
    Vec<Thread>,
    ArchiveError,
>)
    requires
        table.well_formed(),
        forall|k: int|
            0 <= k < positions.len() ==> (#[trigger] positions[k]) < entry_count(*table.archive),
    ensures
        viewed(r) == threads_of(*table.archive, positions@),
{
    let ghost items = positions@.map_values(|i: usize| thread_of(*table.archive, i as int));
    let mut joined: Vec<Thread> = Vec::new();
    let mut k: usize = 0;
    while k < positions.len()
        invariant
            k <= positions.len(),
            joined.len() == k,
            table.well_formed(),
            items == positions@.map_values(|i: usize| thread_of(*table.archive, i as int)),
            forall|j: int|
                0 <= j < positions.len() ==> (#[trigger] positions[j]) < entry_count(
                    *table.archive,
                ),
            forall|j: int| 0 <= j < k ==> #[trigger] items[j] == Ok::<Thread, ArchiveError>(joined[j]),
        decreases positions.len() - k,
    {
        match join_thread(table, positions[k]) {
            Ok(thread) => {
                joined.push(thread);
            },
            Err(e) => {
                proof {
                    lemma_gathered_fails(items, k as int);
                }
                return Err(e);
            },
        }
        k += 1;
    }
    proof {
        lemma_gathered_succeeds(items, joined@);
    }
    Ok(joined)
}

/// Joins the entries at `positions` with what a user's activity feed shows
/// of them.
pub fn join_records(archive: &Archive, positions: &[usize]) -> (r: Result<
    Vec<UserRecord>,
    ArchiveError,
>)
    requires
        forall|k: int| 0 <= k < positions.len() ==> (#[trigger] positions[k]) < entry_count(*archive),
    ensures
        viewed(r) == records_of(*archive, positions@),
{
    let ghost items = positions@.map_values(|i: usize| record_of(*archive, i as int));
    let mut joined: Vec<UserRecord> = Vec::new();
    let mut k: usize = 0;
    while k < positions.len()
        invariant
            k <= positions.len(),
            joined.len() == k,
            items == positions@.map_values(|i: usize| record_of(*archive, i as int)),
            forall|j: int|
                0 <= j < positions.len() ==> (#[trigger] positions[j]) < entry_count(*archive),
            forall|j: int|
                0 <= j < k ==> #[trigger] items[j] == Ok::<UserRecord, ArchiveError>(joined[j]),
        decreases positions.len() - k,
    {
        match join_record(archive, positions[k]) {
            Ok(record) => {
                joined.push(record);
            },
            Err(e) => {
                proof {
                    lemma_gathered_fails(items, k as int);
                }
                return Err(e);
            },
        }
        k += 1;
    }
    proof {
        lemma_gathered_succeeds(items, joined@);
    }
    Ok(joined)
}

} // verus!
