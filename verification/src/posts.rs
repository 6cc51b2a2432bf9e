//! The posts of a thread as they stood at a point in time.

use vstd::prelude::*;
use crate::index::Retractions;
use crate::model::Archive;
use crate::relation::{list, listing, lists, Order, Plan, Rule, Sieve};
use crate::temporal::is_before;
use crate::visibility::visible;

verus! {

/// The posts of thread `thread_id` that are visible at `cutoff`, in the
/// order of their floors.
pub struct VisiblePosts {
    pub archive: Archive,
    pub thread_id: i64,
    pub cutoff: Seq<char>,
}

impl Rule for VisiblePosts {
    open spec fn span(&self) -> nat {
        self.archive.posts.len() as nat
    }

    open spec fn admits(&self, i: int) -> bool {
        let post = self.archive.posts[i];
        &&& post.thread_id == self.thread_id
        &&& visible(
            self.archive.post_removals@,
            post.time@,
            Some(post.thread_id),
            Some(post.post_id),
            self.cutoff,
        )
    }

    open spec fn outranks(&self, i: int, j: int) -> bool {
        self.archive.posts[i].floor < self.archive.posts[j].floor
    }

    proof fn lemma_ranking(&self, i: int, j: int, k: int) {
    }
}

/// Evaluates `VisiblePosts` against an archive.
pub struct PostsOfThread<'a> {
    pub archive: &'a Archive,
    pub thread_id: i64,
    pub removed: Retractions<'a>,
}

impl<'a> Plan for PostsOfThread<'a> {
    type Spec = VisiblePosts;

    open spec fn rule(&self) -> VisiblePosts {
        VisiblePosts {
            archive: *self.archive,
            thread_id: self.thread_id,
            cutoff: self.removed.cutoff@,
        }
    }

    open spec fn well_formed(&self) -> bool {
        self.removed.well_formed() && self.removed.log == &self.archive.post_removals
    }

    fn rows(&self) -> (n: usize) {
        self.archive.posts.len()
    }
}

impl<'a> Sieve for PostsOfThread<'a> {
    fn test(&self, i: usize) -> (b: bool) {
        let post = &self.archive.posts[i];
        post.thread_id == self.thread_id && is_before(post.time.as_str(), self.removed.cutoff)
            && !self.removed.covers(Some(post.thread_id), Some(post.post_id))
    }
}

impl<'a> Order for PostsOfThread<'a> {
    fn ranks_above(&self, i: usize, j: usize) -> (b: bool) {
        self.archive.posts[i].floor < self.archive.posts[j].floor
    }
}

/// The positions in the archive of the posts of thread `thread_id` that are
/// visible at `cutoff`, in the order of their floors.
pub fn get_posts(archive: &Archive, thread_id: i64, cutoff: &str) -> (found: Vec<usize>)
    ensures
        found@ == listing(VisiblePosts { archive: *archive, thread_id, cutoff: cutoff@ }),
        lists(VisiblePosts { archive: *archive, thread_id, cutoff: cutoff@ }, found@),
{
    let removed = Retractions::new(&archive.post_removals, cutoff);
    list(&PostsOfThread { archive, thread_id, removed })
}

} // verus!
