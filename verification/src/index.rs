//! What a request prepares once to answer its lookups fast: the position of
//! every post by its identifier, and the threads and posts that are removed
//! as of the cutoff.

use std::collections::{HashMap, HashSet};
use vstd::prelude::*;
use crate::lookup::{found_at, lemma_first_index, lemma_no_index, post_position};
use crate::model::{Archive, PostRemoval, StoredPost};
use crate::visibility::{is_in_effect, removes, retracted};

verus! {

broadcast use vstd::std_specs::hash::group_hash_axioms;

/// The position that a map holds for an identifier.
pub open spec fn held_at(positions: Map<i64, usize>, id: i64) -> Option<int> {
    if positions.contains_key(id) {
        Some(positions[id] as int)
    } else {
        None
    }
}

/// The posts of an archive by their identifiers.
pub struct PostIndex<'a> {
    pub archive: &'a Archive,
    pub positions: HashMap<i64, usize>,
}

impl<'a> PostIndex<'a> {
    /// The index holds, for every identifier, the position of the post that
    /// the identifier denotes in the archive.
    pub open spec fn well_formed(&self) -> bool {
        forall|post_id: i64|
            #[trigger] held_at(self.positions@, post_id) == post_position(*self.archive, post_id)
    }

    /// Indexes the posts of `archive`.
    pub fn new(archive: &'a Archive) -> (index: Self)
        ensures
            index.well_formed(),
            index.archive == archive,
    {
        let ghost keys = archive.posts@.map_values(|p: StoredPost| p.post_id);
        let mut positions: HashMap<i64, usize> = HashMap::new();
        let mut i: usize = 0;
        while i < archive.posts.len()
            invariant
                i <= archive.posts.len(),
                keys == archive.posts@.map_values(|p: StoredPost| p.post_id),
                forall|id: i64|
                    #[trigger] positions@.contains_key(id) ==> {
                        &&& positions@[id] < i
                        &&& keys[positions@[id] as int] == id
                        &&& forall|j: int| 0 <= j < positions@[id] ==> keys[j] != id
                    },
                forall|j: int| 0 <= j < i ==> positions@.contains_key(#[trigger] keys[j]),
            decreases archive.posts.len() - i,
        {
            let id = archive.posts[i].post_id;
            if !positions.contains_key(&id) {
                positions.insert(id, i);
            }
            i += 1;
        }
        proof {
            assert forall|post_id: i64|
                #[trigger] held_at(positions@, post_id) == post_position(
                    *archive,
                    post_id,
                ) by {
                if positions@.contains_key(post_id) {
                    lemma_first_index(keys, post_id, positions@[post_id] as int);
                } else {
                    lemma_no_index(keys, post_id);
                }
            }
        }
        PostIndex { archive, positions }
    }

    /// The position of the post with identifier `post_id`.
    pub fn position(&self, post_id: i64) -> (r: Option<usize>)
        requires
            self.well_formed(),
        ensures
            found_at(r) == post_position(*self.archive, post_id),
            r matches Some(i) ==> i < self.archive.posts.len() && self.archive.posts[i as int].post_id
                == post_id,
    {
        proof {
            assert(held_at(self.positions@, post_id) == post_position(*self.archive, post_id));
            self.archive.posts@.map_values(|p: StoredPost| p.post_id).index_of_first_ensures(
                post_id,
            );
        }
        match self.positions.get(&post_id) {
            Some(i) => Some(*i),
            None => None,
        }
    }
}

/// An item is removed by an entry on its thread or by an entry on itself.
pub proof fn lemma_retracted_by_thread_or_post(
    log: Seq<PostRemoval>,
    thread_id: Option<i64>,
    post_id: Option<i64>,
    cutoff: Seq<char>,
)
    ensures
        retracted(log, thread_id, post_id, cutoff) == (thread_id is Some && retracted(
            log,
            thread_id,
            None,
            cutoff,
        ) || post_id is Some && retracted(log, None, post_id, cutoff)),
{
    if retracted(log, thread_id, post_id, cutoff) {
        let k = choose|k: int| 0 <= k < log.len() && removes(log, k, thread_id, post_id, cutoff);
        if log[k].post_id is Some {
            assert(removes(log, k, None, post_id, cutoff));
        } else {
            assert(removes(log, k, thread_id, None, cutoff));
        }
    }
    if thread_id is Some && retracted(log, thread_id, None, cutoff) {
        let k = choose|k: int| 0 <= k < log.len() && removes(log, k, thread_id, None, cutoff);
        assert(removes(log, k, thread_id, post_id, cutoff));
    }
    if post_id is Some && retracted(log, None, post_id, cutoff) {
        let k = choose|k: int| 0 <= k < log.len() && removes(log, k, None, post_id, cutoff);
        assert(removes(log, k, thread_id, post_id, cutoff));
    }
}

/// The threads and the posts that the moderation log removes as of a
/// cutoff.
pub struct Retractions<'a> {
    pub log: &'a Vec<PostRemoval>,
    pub cutoff: &'a str,
    pub threads: HashSet<i64>,
    pub posts: HashSet<i64>,
}

impl<'a> Retractions<'a> {
    /// The sets hold the threads and posts that the log removes as of the
    /// cutoff.
    pub open spec fn well_formed(&self) -> bool {
        &&& forall|thread_id: i64|
            #[trigger] self.threads@.contains(thread_id) == retracted(
                self.log@,
                Some(thread_id),
                None,
                self.cutoff@,
            )
        &&& forall|post_id: i64|
            #[trigger] self.posts@.contains(post_id) == retracted(
                self.log@,
                None,
                Some(post_id),
                self.cutoff@,
            )
    }

    /// Collects the threads and posts that `log` removes as of `cutoff`.
    pub fn new(log: &'a Vec<PostRemoval>, cutoff: &'a str) -> (removed: Self)
        ensures
            removed.well_formed(),
            removed.log == log,
            removed.cutoff == cutoff,
    {
        let mut threads: HashSet<i64> = HashSet::new();
        let mut posts: HashSet<i64> = HashSet::new();
        let mut k: usize = 0;
        while k < log.len()
            invariant
                k <= log.len(),
                forall|thread_id: i64|
                    #[trigger] threads@.contains(thread_id) == exists|j: int|
                        0 <= j < k && removes(log@, j, Some(thread_id), None, cutoff@),
                forall|post_id: i64|
                    #[trigger] posts@.contains(post_id) == exists|j: int|
                        0 <= j < k && removes(log@, j, None, Some(post_id), cutoff@),
            decreases log.len() - k,
        {
            let entry = &log[k];
            let ghost old_threads = threads@;
            let ghost old_posts = posts@;
            if is_in_effect(entry, cutoff) {
                match entry.post_id {
                    Some(post_id) => {
                        posts.insert(post_id);
                    },
                    None => {
                        threads.insert(entry.thread_id);
                    },
                }
            }
            proof {
                assert forall|thread_id: i64|
                    #[trigger] threads@.contains(thread_id) == exists|j: int|
                        0 <= j < k + 1 && removes(log@, j, Some(thread_id), None, cutoff@) by {
                    if old_threads.contains(thread_id) {
                        let j = choose|j: int|
                            0 <= j < k && removes(log@, j, Some(thread_id), None, cutoff@);
                        assert(0 <= j < k + 1 && removes(log@, j, Some(thread_id), None, cutoff@));
                    }
                    if removes(log@, k as int, Some(thread_id), None, cutoff@) {
                        assert(threads@.contains(thread_id));
                    }
                    if exists|j: int|
                        0 <= j < k + 1 && removes(log@, j, Some(thread_id), None, cutoff@) {
                        let j = choose|j: int|
                            0 <= j < k + 1 && removes(log@, j, Some(thread_id), None, cutoff@);
                        if j < k {
                            assert(old_threads.contains(thread_id));
                        }
                    }
                }
                assert forall|post_id: i64|
                    #[trigger] posts@.contains(post_id) == exists|j: int|
                        0 <= j < k + 1 && removes(log@, j, None, Some(post_id), cutoff@) by {
                    if old_posts.contains(post_id) {
                        let j = choose|j: int|
                            0 <= j < k && removes(log@, j, None, Some(post_id), cutoff@);
                        assert(0 <= j < k + 1 && removes(log@, j, None, Some(post_id), cutoff@));
                    }
                    if removes(log@, k as int, None, Some(post_id), cutoff@) {
                        assert(posts@.contains(post_id));
                    }
                    if exists|j: int|
                        0 <= j < k + 1 && removes(log@, j, None, Some(post_id), cutoff@) {
                        let j = choose|j: int|
                            0 <= j < k + 1 && removes(log@, j, None, Some(post_id), cutoff@);
                        if j < k {
                            assert(old_posts.contains(post_id));
                        }
                    }
                }
            }
            k += 1;
        }
        Retractions { log, cutoff, threads, posts }
    }

    /// Whether the item of thread `thread_id` with post identifier
    /// `post_id` is removed.
    pub fn covers(&self, thread_id: Option<i64>, post_id: Option<i64>) -> (r: bool)
        requires
            self.well_formed(),
        ensures
            r == retracted(self.log@, thread_id, post_id, self.cutoff@),
    {
        proof {
            lemma_retracted_by_thread_or_post(self.log@, thread_id, post_id, self.cutoff@);
        }
        let by_thread = match thread_id {
            Some(t) => self.threads.contains(&t),
            None => false,
        };
        let by_post = match post_id {
            Some(p) => self.posts.contains(&p),
            None => false,
        };
        by_thread || by_post
    }
}

} // verus!
