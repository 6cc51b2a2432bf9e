//! Posts and comments seen as one table of entries.
//!
//! The entries of an archive are its posts, in stored order, followed by its
//! comments, in stored order. An entry belongs to a thread, has an author, a
//! time and a content. A moderation entry can name a post, which removes the
//! post, or a thread, which removes the thread with all its entries; none
//! can name a comment.

use vstd::prelude::*;
use crate::index::{PostIndex, Retractions};
use crate::lookup::post_position;
use crate::model::Archive;
use crate::visibility::retracted;

verus! {

/// The thread of the post with identifier `post_id`, if the archive holds
/// the post.
pub open spec fn thread_of_post(archive: Archive, post_id: i64) -> Option<i64> {
    match post_position(archive, post_id) {
        Some(p) => Some(archive.posts[p].thread_id),
        None => None,
    }
}

/// Number of entries of the archive.
pub open spec fn entry_count(archive: Archive) -> nat {
    (archive.posts.len() + archive.comments.len()) as nat
}

/// Whether entry `i` is a post; the other entries are comments.
pub open spec fn is_post_entry(archive: Archive, i: int) -> bool {
    i < archive.posts.len()
}

/// Position of the comment that entry `i` is, among the comments.
pub open spec fn comment_of_entry(archive: Archive, i: int) -> int {
    i - archive.posts.len()
}

/// The stored time of entry `i`.
pub open spec fn entry_stamp(archive: Archive, i: int) -> String {
    if is_post_entry(archive, i) {
        archive.posts[i].time
    } else {
        archive.comments[comment_of_entry(archive, i)].time
    }
}

/// The time at which entry `i` was made.
pub open spec fn entry_time(archive: Archive, i: int) -> Seq<char> {
    entry_stamp(archive, i)@
}

/// The author of entry `i`.
pub open spec fn entry_author(archive: Archive, i: int) -> i64 {
    if is_post_entry(archive, i) {
        archive.posts[i].user_id
    } else {
        archive.comments[comment_of_entry(archive, i)].user_id
    }
}

/// The encoded content of entry `i`.
pub open spec fn entry_content(archive: Archive, i: int) -> Seq<char> {
    if is_post_entry(archive, i) {
        archive.posts[i].content@
    } else {
        archive.comments[comment_of_entry(archive, i)].content@
    }
}

/// The thread that entry `i` belongs to. A comment belongs to the thread of
/// its post, and to none where the archive does not hold the post.
pub open spec fn entry_thread(archive: Archive, i: int) -> Option<i64> {
    if is_post_entry(archive, i) {
        Some(archive.posts[i].thread_id)
    } else {
        thread_of_post(archive, archive.comments[comment_of_entry(archive, i)].post_id)
    }
}

/// The identifier by which a moderation entry can name entry `i`: that of
/// the post, and none for a comment.
pub open spec fn entry_named(archive: Archive, i: int) -> Option<i64> {
    if is_post_entry(archive, i) {
        Some(archive.posts[i].post_id)
    } else {
        None
    }
}

/// Whether entry `i` is removed as of `cutoff`: a post by an entry in effect
/// on it or on its thread, a comment by an entry in effect on its thread.
pub open spec fn entry_removed(archive: Archive, i: int, cutoff: Seq<char>) -> bool {
    retracted(
        archive.post_removals@,
        entry_thread(archive, i),
        entry_named(archive, i),
        cutoff,
    )
}

/// The entries of an archive, with the thread of each entry worked out.
pub struct EntryTable<'a> {
    pub archive: &'a Archive,
    pub threads: Vec<Option<i64>>,
}

impl<'a> EntryTable<'a> {
    /// The table holds the thread of every entry.
    pub open spec fn well_formed(&self) -> bool {
        &&& self.threads.len() == entry_count(*self.archive)
        &&& forall|i: int|
            0 <= i < self.threads.len() ==> #[trigger] self.threads[i] == entry_thread(
                *self.archive,
                i,
            )
    }

    /// Works out the thread of every entry of the archive.
    pub fn new(archive: &'a Archive) -> (table: Self)
        requires
            archive.posts.len() + archive.comments.len() <= usize::MAX,
        ensures
            table.well_formed(),
            table.archive == archive,
    {
        let mut threads: Vec<Option<i64>> = Vec::new();
        let mut i: usize = 0;
        while i < archive.posts.len()
            invariant
                i <= archive.posts.len(),
                threads.len() == i,
                forall|k: int| 0 <= k < i ==> #[trigger] threads[k] == entry_thread(*archive, k),
            decreases archive.posts.len() - i,
        {
            threads.push(Some(archive.posts[i].thread_id));
            i += 1;
        }
        let index = PostIndex::new(archive);
        let mut j: usize = 0;
        while j < archive.comments.len()
            invariant
                j <= archive.comments.len(),
                index.well_formed(),
                index.archive == archive,
                archive.posts.len() + archive.comments.len() <= usize::MAX,
                threads.len() == archive.posts.len() + j,
                forall|k: int|
                    0 <= k < threads.len() ==> #[trigger] threads[k] == entry_thread(*archive, k),
            decreases archive.comments.len() - j,
        {
            let thread = match index.position(archive.comments[j].post_id) {
                Some(p) => Some(archive.posts[p].thread_id),
                None => None,
            };
            threads.push(thread);
            j += 1;
        }
        EntryTable { archive, threads }
    }

    /// Number of entries.
    pub fn count(&self) -> (n: usize)
        requires
            self.well_formed(),
        ensures
            n == entry_count(*self.archive),
    {
        self.threads.len()
    }

    /// The time at which entry `i` was made.
    pub fn time(&self, i: usize) -> (time: &str)
        requires
            self.well_formed(),
            i < entry_count(*self.archive),
        ensures
            time@ == entry_time(*self.archive, i as int),
    {
        if i < self.archive.posts.len() {
            self.archive.posts[i].time.as_str()
        } else {
            self.archive.comments[i - self.archive.posts.len()].time.as_str()
        }
    }

    /// The stored time of entry `i`.
    pub fn stamp(&self, i: usize) -> (stamp: &String)
        requires
            self.well_formed(),
            i < entry_count(*self.archive),
        ensures
            *stamp == entry_stamp(*self.archive, i as int),
    {
        if i < self.archive.posts.len() {
            &self.archive.posts[i].time
        } else {
            &self.archive.comments[i - self.archive.posts.len()].time
        }
    }

    /// The author of entry `i`.
    pub fn author(&self, i: usize) -> (author: i64)
        requires
            self.well_formed(),
            i < entry_count(*self.archive),
        ensures
            author == entry_author(*self.archive, i as int),
    {
        if i < self.archive.posts.len() {
            self.archive.posts[i].user_id
        } else {
            self.archive.comments[i - self.archive.posts.len()].user_id
        }
    }

    /// The encoded content of entry `i`.
    pub fn content(&self, i: usize) -> (content: &str)
        requires
            self.well_formed(),
            i < entry_count(*self.archive),
        ensures
            content@ == entry_content(*self.archive, i as int),
    {
        if i < self.archive.posts.len() {
            self.archive.posts[i].content.as_str()
        } else {
            self.archive.comments[i - self.archive.posts.len()].content.as_str()
        }
    }

    /// The thread that entry `i` belongs to.
    pub fn thread(&self, i: usize) -> (thread: Option<i64>)
        requires
            self.well_formed(),
            i < entry_count(*self.archive),
        ensures
            thread == entry_thread(*self.archive, i as int),
    {
        self.threads[i]
    }

    /// Whether entry `i` is removed as of the cutoff of `removed`.
    pub fn is_removed(&self, i: usize, removed: &Retractions) -> (r: bool)
        requires
            self.well_formed(),
            removed.well_formed(),
            removed.log == &self.archive.post_removals,
            i < entry_count(*self.archive),
        ensures
            r == entry_removed(*self.archive, i as int, removed.cutoff@),
    {
        let named = if i < self.archive.posts.len() {
            Some(self.archive.posts[i].post_id)
        } else {
            None
        };
        removed.covers(self.thread(i), named)
    }
}

} // verus!
