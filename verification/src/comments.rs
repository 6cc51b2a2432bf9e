//! The comments of a post as they stood at a point in time.
//!
//! No moderation entry names a comment. The comments of a post are listed
//! by the time they were made, whatever became of the post.

use vstd::prelude::*;
use crate::model::Archive;
use crate::relation::{list, listing, lists, Order, Plan, Rule, Sieve};
use crate::temporal::is_before;
use crate::text::{
    lemma_lex_irreflexive, lemma_lex_negatively_transitive, lemma_lex_transitive, lex_lt,
    str_precedes,
};

verus! {

/// The comments of post `post_id` that were made before `cutoff`, oldest
/// first.
pub struct VisibleComments {
    pub archive: Archive,
    pub post_id: i64,
    pub cutoff: Seq<char>,
}

impl Rule for VisibleComments {
    open spec fn span(&self) -> nat {
        self.archive.comments.len() as nat
    }

    open spec fn admits(&self, i: int) -> bool {
        self.archive.comments[i].post_id == self.post_id && lex_lt(
            self.archive.comments[i].time@,
            self.cutoff,
        )
    }

    open spec fn outranks(&self, i: int, j: int) -> bool {
        lex_lt(self.archive.comments[i].time@, self.archive.comments[j].time@)
    }

    proof fn lemma_ranking(&self, i: int, j: int, k: int) {
        let a = self.archive.comments[i].time@;
        let b = self.archive.comments[j].time@;
        let c = self.archive.comments[k].time@;
        lemma_lex_irreflexive(a);
        if lex_lt(a, b) && lex_lt(b, c) {
            lemma_lex_transitive(a, b, c);
        }
        if !lex_lt(a, b) && !lex_lt(b, c) {
            lemma_lex_negatively_transitive(a, b, c);
        }
    }
}

/// Evaluates `VisibleComments` against an archive.
pub struct CommentsOfPost<'a> {
    pub archive: &'a Archive,
    pub post_id: i64,
    pub cutoff: &'a str,
}

impl<'a> Plan for CommentsOfPost<'a> {
    type Spec = VisibleComments;

    open spec fn rule(&self) -> VisibleComments {
        VisibleComments { archive: *self.archive, post_id: self.post_id, cutoff: self.cutoff@ }
    }

    open spec fn well_formed(&self) -> bool {
        true
    }

    fn rows(&self) -> (n: usize) {
        self.archive.comments.len()
    }
}

impl<'a> Sieve for CommentsOfPost<'a> {
    fn test(&self, i: usize) -> (b: bool) {
        let comment = &self.archive.comments[i];
        comment.post_id == self.post_id && is_before(comment.time.as_str(), self.cutoff)
    }
}

impl<'a> Order for CommentsOfPost<'a> {
    fn ranks_above(&self, i: usize, j: usize) -> (b: bool) {
        str_precedes(self.archive.comments[i].time.as_str(), self.archive.comments[j].time.as_str())
    }
}

/// The positions in the archive of the comments of post `post_id` that were
/// made before `cutoff`, oldest first.
pub fn get_comments(archive: &Archive, post_id: i64, cutoff: &str) -> (found: Vec<usize>)
    ensures
        found@ == listing(VisibleComments { archive: *archive, post_id, cutoff: cutoff@ }),
        lists(VisibleComments { archive: *archive, post_id, cutoff: cutoff@ }, found@),
{
    list(&CommentsOfPost { archive, post_id, cutoff })
}

} // verus!
