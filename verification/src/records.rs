//! The activity feed of a user as it stood at a point in time.

use vstd::prelude::*;
use crate::entries::{
    entry_author, entry_count, entry_removed, entry_time, is_post_entry, EntryTable,
};
use crate::index::Retractions;
use crate::model::Archive;
use crate::relation::{list, listing, lists, Order, Plan, Rule, Sieve};
use crate::temporal::is_before;
use crate::text::{
    lemma_lex_irreflexive, lemma_lex_negatively_transitive, lemma_lex_transitive, lex_lt,
    str_precedes,
};

verus! {

/// The feed of user `user_id` at `cutoff`, latest first: the posts of the
/// user that were made before `cutoff` and are not removed, and the comments
/// of the user that were made before `cutoff`.
pub struct UserEntries {
    pub archive: Archive,
    pub user_id: i64,
    pub cutoff: Seq<char>,
}

impl Rule for UserEntries {
    open spec fn span(&self) -> nat {
        entry_count(self.archive)
    }

    open spec fn admits(&self, i: int) -> bool {
        &&& entry_author(self.archive, i) == self.user_id
        &&& lex_lt(entry_time(self.archive, i), self.cutoff)
        &&& is_post_entry(self.archive, i) ==> !entry_removed(self.archive, i, self.cutoff)
    }

    open spec fn outranks(&self, i: int, j: int) -> bool {
        lex_lt(entry_time(self.archive, j), entry_time(self.archive, i))
    }

    proof fn lemma_ranking(&self, i: int, j: int, k: int) {
        let a = entry_time(self.archive, i);
        let b = entry_time(self.archive, j);
        let c = entry_time(self.archive, k);
        lemma_lex_irreflexive(a);
        if lex_lt(b, a) && lex_lt(c, b) {
            lemma_lex_transitive(c, b, a);
        }
        if !lex_lt(b, a) && !lex_lt(c, b) {
            lemma_lex_negatively_transitive(c, b, a);
        }
    }
}

/// Evaluates `UserEntries` against the entries of an archive.
pub struct EntriesOfUser<'a> {
    pub table: &'a EntryTable<'a>,
    pub user_id: i64,
    pub removed: Retractions<'a>,
}

impl<'a> Plan for EntriesOfUser<'a> {
    type Spec = UserEntries;

    open spec fn rule(&self) -> UserEntries {
        UserEntries {
            archive: *self.table.archive,
            user_id: self.user_id,
            cutoff: self.removed.cutoff@,
        }
    }

    open spec fn well_formed(&self) -> bool {
        &&& self.table.well_formed()
        &&& self.removed.well_formed()
        &&& self.removed.log == &self.table.archive.post_removals
    }

    fn rows(&self) -> (n: usize) {
        self.table.count()
    }
}

impl<'a> Sieve for EntriesOfUser<'a> {
    fn test(&self, i: usize) -> (b: bool) {
        self.table.author(i) == self.user_id && is_before(self.table.time(i), self.removed.cutoff)
            && (i >= self.table.archive.posts.len() || !self.table.is_removed(i, &self.removed))
    }
}

impl<'a> Order for EntriesOfUser<'a> {
    fn ranks_above(&self, i: usize, j: usize) -> (b: bool) {
        str_precedes(self.table.time(j), self.table.time(i))
    }
}

/// The positions, among the entries of the archive, of the entries of the
/// feed of user `user_id` at `cutoff`, latest first.
pub fn get_user_records<'a>(table: &'a EntryTable<'a>, user_id: i64, cutoff: &'a str) -> (found: Vec<
    usize,
>)
    requires
        table.well_formed(),
    ensures
        found@ == listing(UserEntries { archive: *table.archive, user_id, cutoff: cutoff@ }),
        lists(UserEntries { archive: *table.archive, user_id, cutoff: cutoff@ }, found@),
{
    let removed = Retractions::new(&table.archive.post_removals, cutoff);
    list(&EntriesOfUser { table, user_id, removed })
}

} // verus!
