//! The thread listing as it stood at a point in time.
//!
//! A thread is listed by its most recent activity: the latest of its entries
//! that were made before the cutoff, are not removed, and are selected by
//! the search pattern. A thread without such an entry is not listed; a
//! removed thread has none.

use vstd::prelude::*;
use crate::entries::{
    entry_content, entry_count, entry_removed, entry_thread, entry_time, EntryTable,
};
use crate::keyword::{content_holds, is_pattern, keyword_of_pattern, pattern_keyword, pattern_selects};
use crate::index::Retractions;
use crate::model::Archive;
use crate::temporal::is_before;
use crate::relation::{
    arrange, comes_first, lemma_comes_first_order, listing, lists, lemma_listing_unique, select,
    selects, Order, Plan, Rule, Sieve,
};
use crate::text::{
    lemma_lex_irreflexive, lemma_lex_negatively_transitive, lemma_lex_total, lemma_lex_transitive,
    lex_lt, str_precedes,
};

verus! {

/// Whether entry `i` counts as activity of its thread: it belongs to a
/// thread, it was made before `cutoff`, it is not removed as of `cutoff`,
/// and `pattern` selects its content.
pub open spec fn is_activity(archive: Archive, i: int, cutoff: Seq<char>, pattern: Seq<char>) -> bool {
    &&& 0 <= i < entry_count(archive)
    &&& entry_thread(archive, i) is Some
    &&& lex_lt(entry_time(archive, i), cutoff)
    &&& !entry_removed(archive, i, cutoff)
    &&& pattern_selects(pattern, entry_content(archive, i))
}

/// Whether entry `i` is the most recent activity of its thread. Of several
/// activities made at the same latest time, the first entry is the one.
pub open spec fn is_latest(archive: Archive, i: int, cutoff: Seq<char>, pattern: Seq<char>) -> bool {
    &&& is_activity(archive, i, cutoff, pattern)
    &&& forall|j: int|
        #![trigger is_activity(archive, j, cutoff, pattern)]
        is_activity(archive, j, cutoff, pattern) && entry_thread(archive, j) == entry_thread(
            archive,
            i,
        ) ==> {
            &&& !lex_lt(entry_time(archive, i), entry_time(archive, j))
            &&& entry_time(archive, j) == entry_time(archive, i) ==> i <= j
        }
}

/// A number that orders entries by thread; entries without thread come
/// before all others.
pub open spec fn thread_key(archive: Archive, i: int) -> int {
    match entry_thread(archive, i) {
        Some(thread) => thread as int,
        None => i64::MIN - 1,
    }
}

/// The activities at `cutoff` under `pattern`, thread by thread, and within
/// a thread latest first.
pub struct Activities {
    pub archive: Archive,
    pub cutoff: Seq<char>,
    pub pattern: Seq<char>,
}

impl Rule for Activities {
    open spec fn span(&self) -> nat {
        entry_count(self.archive)
    }

    open spec fn admits(&self, i: int) -> bool {
        is_activity(self.archive, i, self.cutoff, self.pattern)
    }

    open spec fn outranks(&self, i: int, j: int) -> bool {
        ||| thread_key(self.archive, i) < thread_key(self.archive, j)
        ||| thread_key(self.archive, i) == thread_key(self.archive, j) && lex_lt(
            entry_time(self.archive, j),
            entry_time(self.archive, i),
        )
    }

    proof fn lemma_ranking(&self, i: int, j: int, k: int) {
        let a = entry_time(self.archive, i);
        let b = entry_time(self.archive, j);
        let c = entry_time(self.archive, k);
        lemma_lex_irreflexive(a);
        if lex_lt(b, a) && lex_lt(c, b) {
            lemma_lex_transitive(c, b, a);
        }
        if !lex_lt(b, a) && !lex_lt(c, b) {
            lemma_lex_negatively_transitive(c, b, a);
        }
    }
}

/// The thread listing at `cutoff` under `pattern`: the most recent activity
/// of each thread, latest first, and of activities made at the same time
/// the one of the thread with the smaller identifier first.
pub struct LatestActivities {
    pub archive: Archive,
    pub cutoff: Seq<char>,
    pub pattern: Seq<char>,
}

impl Rule for LatestActivities {
    open spec fn span(&self) -> nat {
        entry_count(self.archive)
    }

    open spec fn admits(&self, i: int) -> bool {
        is_latest(self.archive, i, self.cutoff, self.pattern)
    }

    open spec fn outranks(&self, i: int, j: int) -> bool {
        ||| lex_lt(entry_time(self.archive, j), entry_time(self.archive, i))
        ||| entry_time(self.archive, i) == entry_time(self.archive, j) && thread_key(
            self.archive,
            i,
        ) < thread_key(self.archive, j)
    }

    proof fn lemma_ranking(&self, i: int, j: int, k: int) {
        let a = entry_time(self.archive, i);
        let b = entry_time(self.archive, j);
        let c = entry_time(self.archive, k);
        lemma_lex_irreflexive(a);
        lemma_lex_irreflexive(b);
        lemma_lex_total(a, b);
        lemma_lex_total(b, c);
        lemma_lex_total(a, c);
        if lex_lt(b, a) && lex_lt(c, b) {
            lemma_lex_transitive(c, b, a);
        }
        if !lex_lt(b, a) && !lex_lt(c, b) {
            lemma_lex_negatively_transitive(c, b, a);
        }
        if lex_lt(a, b) && lex_lt(b, c) {
            lemma_lex_transitive(a, b, c);
        }
        if lex_lt(b, a) && lex_lt(a, b) {
            lemma_lex_transitive(a, b, a);
        }
        if lex_lt(c, b) && lex_lt(b, c) {
            lemma_lex_transitive(b, c, b);
        }
    }
}

/// What a search over the entries of an archive has prepared: the table of
/// entries, the cutoff, and the keyword that the pattern carries.
pub struct Search<'a> {
    pub table: &'a EntryTable<'a>,
    pub cutoff: &'a str,
    pub pattern: &'a str,
    pub keyword: Option<Vec<char>>,
    pub removed: Retractions<'a>,
}

impl<'a> Search<'a> {
    /// The removals are those of the archive at the cutoff, and the keyword
    /// is the one that the pattern carries.
    pub open spec fn prepared(&self) -> bool {
        &&& self.table.well_formed()
        &&& self.removed.well_formed()
        &&& self.removed.log == &self.table.archive.post_removals
        &&& self.removed.cutoff == self.cutoff
        &&& self.keyword is Some == is_pattern(self.pattern@)
        &&& self.keyword matches Some(keyword) ==> keyword@ == pattern_keyword(self.pattern@)
    }

    /// Prepares a search: collects the removals at `cutoff` and reads the
    /// keyword of `pattern`.
    pub fn new(table: &'a EntryTable<'a>, cutoff: &'a str, pattern: &'a str) -> (search: Self)
        requires
            table.well_formed(),
        ensures
            search.prepared(),
            search.table == table,
            search.cutoff == cutoff,
            search.pattern == pattern,
    {
        Search {
            table,
            cutoff,
            pattern,
            keyword: keyword_of_pattern(pattern),
            removed: Retractions::new(&table.archive.post_removals, cutoff),
        }
    }
}

/// Evaluates `Activities`.
pub struct ByThread<'a> {
    pub search: &'a Search<'a>,
}

/// Evaluates the ranking of `LatestActivities`.
pub struct ByRecency<'a> {
    pub search: &'a Search<'a>,
}

impl<'a> Plan for ByThread<'a> {
    type Spec = Activities;

    open spec fn rule(&self) -> Activities {
        Activities {
            archive: *self.search.table.archive,
            cutoff: self.search.cutoff@,
            pattern: self.search.pattern@,
        }
    }

    open spec fn well_formed(&self) -> bool {
        self.search.prepared()
    }

    fn rows(&self) -> (n: usize) {
        self.search.table.count()
    }
}

impl<'a> Sieve for ByThread<'a> {
    fn test(&self, i: usize) -> (b: bool) {
        let table = self.search.table;
        match &self.search.keyword {
            Some(keyword) => table.thread(i).is_some() && is_before(
                table.time(i),
                self.search.cutoff,
            ) && !table.is_removed(i, &self.search.removed)
                && content_holds(table.content(i), keyword),
            None => false,
        }
    }
}

/// Whether the first of two threads, either of which may be none, has the
/// smaller key.
fn thread_before(a: Option<i64>, b: Option<i64>) -> (r: bool)
    ensures
        r == (match a {
            Some(t) => t as int,
            None => i64::MIN - 1,
        } < match b {
            Some(t) => t as int,
            None => i64::MIN - 1,
        }),
{
    match a {
        Some(x) => match b {
            Some(y) => x < y,
            None => false,
        },
        None => b.is_some(),
    }
}

impl<'a> Order for ByThread<'a> {
    fn ranks_above(&self, i: usize, j: usize) -> (b: bool) {
        let table = self.search.table;
        let a = table.thread(i);
        let b = table.thread(j);
        if thread_before(a, b) {
            true
        } else if thread_before(b, a) {
            false
        } else {
            str_precedes(table.time(j), table.time(i))
        }
    }
}

impl<'a> Plan for ByRecency<'a> {
    type Spec = LatestActivities;

    open spec fn rule(&self) -> LatestActivities {
        LatestActivities {
            archive: *self.search.table.archive,
            cutoff: self.search.cutoff@,
            pattern: self.search.pattern@,
        }
    }

    open spec fn well_formed(&self) -> bool {
        self.search.prepared()
    }

    fn rows(&self) -> (n: usize) {
        self.search.table.count()
    }
}

impl<'a> Order for ByRecency<'a> {
    fn ranks_above(&self, i: usize, j: usize) -> (b: bool) {
        let table = self.search.table;
        if str_precedes(table.time(j), table.time(i)) {
            true
        } else if str_precedes(table.time(i), table.time(j)) {
            false
        } else {
            proof {
                lemma_lex_total(
                    entry_time(*table.archive, i as int),
                    entry_time(*table.archive, j as int),
                );
                lemma_lex_irreflexive(entry_time(*table.archive, i as int));
            }
            thread_before(table.thread(i), table.thread(j))
        }
    }
}

/// Whether the activity at place `p` of `grouped` is the first of its
/// thread there.
pub open spec fn heads_run(archive: Archive, grouped: Seq<usize>, p: int) -> bool {
    p == 0 || entry_thread(archive, grouped[p - 1] as int) != entry_thread(
        archive,
        grouped[p] as int,
    )
}

/// In the activities arranged thread by thread, the most recent activity of
/// a thread is the one that stands first among the activities of its thread.
pub proof fn lemma_heads_are_latest(rule: Activities, grouped: Seq<usize>, p: int)
    requires
        lists(rule, grouped),
        rule.span() <= usize::MAX,
        0 <= p < grouped.len(),
    ensures
        is_latest(rule.archive, grouped[p] as int, rule.cutoff, rule.pattern) == heads_run(
            rule.archive,
            grouped,
            p,
        ),
{
    let archive = rule.archive;
    let x = grouped[p] as int;
    assert(rule.admits(x));
    if heads_run(archive, grouped, p) {
        assert forall|j: int|
            #![trigger is_activity(archive, j, rule.cutoff, rule.pattern)]
            is_activity(archive, j, rule.cutoff, rule.pattern) && entry_thread(archive, j)
                == entry_thread(archive, x) implies {
            &&& !lex_lt(entry_time(archive, x), entry_time(archive, j))
            &&& entry_time(archive, j) == entry_time(archive, x) ==> x <= j
        } by {
            assert(rule.admits(j));
            assert(grouped.contains(j as usize));
            let q = choose|q: int| 0 <= q < grouped.len() && grouped[q] == j as usize;
            lemma_lex_irreflexive(entry_time(archive, x));
            lemma_lex_total(entry_time(archive, x), entry_time(archive, j));
            if q > p {
                assert(comes_first(rule, grouped[p] as int, grouped[q] as int));
                if lex_lt(entry_time(archive, j), entry_time(archive, x)) && lex_lt(
                    entry_time(archive, x),
                    entry_time(archive, j),
                ) {
                    lemma_lex_transitive(
                        entry_time(archive, x),
                        entry_time(archive, j),
                        entry_time(archive, x),
                    );
                }
            } else if q < p {
                let y = grouped[p - 1] as int;
                assert(rule.admits(y));
                if q < p - 1 {
                    assert(comes_first(rule, grouped[q] as int, grouped[p - 1] as int));
                }
                assert(comes_first(rule, grouped[p - 1] as int, grouped[p] as int));
                assert(thread_key(archive, j) <= thread_key(archive, y));
                assert(thread_key(archive, y) <= thread_key(archive, x));
                assert(false);
            }
        }
    } else {
        let y = grouped[p - 1] as int;
        assert(rule.admits(y));
        assert(comes_first(rule, grouped[p - 1] as int, grouped[p] as int));
        lemma_lex_total(entry_time(archive, x), entry_time(archive, y));
        assert(is_activity(archive, y, rule.cutoff, rule.pattern));
    }
}

/// The positions, among the entries of the archive, of the most recent
/// activity of each thread at `cutoff` under `pattern`, in the order of the
/// thread listing.
pub fn get_threads<'a>(table: &'a EntryTable<'a>, cutoff: &'a str, pattern: &'a str) -> (found: Vec<
    usize,
>)
    requires
        table.well_formed(),
    ensures
        found@ == listing(
            LatestActivities { archive: *table.archive, cutoff: cutoff@, pattern: pattern@ },
        ),
        lists(
            LatestActivities { archive: *table.archive, cutoff: cutoff@, pattern: pattern@ },
            found@,
        ),
{
    let search = Search::new(table, cutoff, pattern);
    let by_thread = ByThread { search: &search };
    let activities = select(&by_thread);
    let grouped = arrange(&by_thread, &activities);
    let ghost rule = by_thread.rule();
    let ghost archive = *table.archive;
    proof {
        assert(activities@.no_duplicates());
        assert forall|k: int| 0 <= k < grouped.len() implies rule.admits(
            (#[trigger] grouped[k]) as int,
        ) by {
            assert(grouped@.contains(grouped[k]));
            let q = choose|q: int| 0 <= q < activities.len() && activities[q] == grouped[k];
            assert(rule.admits(activities[q] as int));
        }
        assert(lists(rule, grouped@));
    }
    let mut latest: Vec<usize> = Vec::new();
    let ghost mut places: Seq<int> = Seq::empty();
    let mut p: usize = 0;
    while p < grouped.len()
        invariant
            p <= grouped.len(),
            table.well_formed(),
            archive == *table.archive,
            forall|k: int| 0 <= k < grouped.len() ==> (#[trigger] grouped[k]) < entry_count(archive),
            places.len() == latest.len(),
            forall|k: int|
                0 <= k < latest.len() ==> 0 <= #[trigger] places[k] < p && latest[k]
                    == grouped[places[k]] && heads_run(archive, grouped@, places[k]),
            forall|a: int, b: int|
                0 <= a < b < places.len() ==> #[trigger] places[a] < #[trigger] places[b],
            forall|q: int|
                0 <= q < p && #[trigger] heads_run(archive, grouped@, q) ==> latest@.contains(
                    grouped[q],
                ),
        decreases grouped.len() - p,
    {
        let heads = if p == 0 {
            true
        } else {
            let before = table.thread(grouped[p - 1]);
            let here = table.thread(grouped[p]);
            match before {
                Some(a) => match here {
                    Some(b) => a != b,
                    None => true,
                },
                None => here.is_some(),
            }
        };
        if heads {
            let ghost old_latest = latest@;
            latest.push(grouped[p]);
            proof {
                places = places.push(p as int);
                assert forall|q: int|
                    0 <= q < p + 1 && #[trigger] heads_run(
                        archive,
                        grouped@,
                        q,
                    ) implies latest@.contains(grouped[q]) by {
                    if q < p {
                        assert(old_latest.contains(grouped[q]));
                        let k = choose|k: int| 0 <= k < old_latest.len() && old_latest[k] == grouped[q];
                        assert(latest[k] == grouped[q]);
                    } else {
                        assert(latest[latest.len() - 1] == grouped[q]);
                    }
                }
            }
        }
        p += 1;
    }
    let by_recency = ByRecency { search: &search };
    let ghost goal = by_recency.rule();
    proof {
        assert forall|a: int, b: int| 0 <= a < b < latest.len() implies latest[a] != latest[b] by {
            assert(places[a] < places[b]);
            assert(comes_first(rule, grouped[places[a]] as int, grouped[places[b]] as int));
            lemma_comes_first_order(
                rule,
                grouped[places[a]] as int,
                grouped[places[a]] as int,
                grouped[places[a]] as int,
            );
        }
        assert(latest@.no_duplicates());
        assert forall|k: int| 0 <= k < latest.len() implies (#[trigger] latest[k]) < goal.span() by {
            assert(latest[k] == grouped[places[k]]);
        }
    }
    let found = arrange(&by_recency, &latest);
    proof {
        assert forall|k: int| 0 <= k < found.len() implies (#[trigger] found[k]) < goal.span()
            && goal.admits(found[k] as int) by {
            assert(found@.contains(found[k]));
            assert(latest@.contains(found[k]));
            let m = choose|m: int| 0 <= m < latest.len() && latest[m] == found[k];
            lemma_heads_are_latest(rule, grouped@, places[m]);
        }
        assert forall|i: int| 0 <= i < goal.span() && #[trigger] goal.admits(i) implies found@.contains(
            i as usize,
        ) by {
            assert(rule.admits(i));
            assert(grouped@.contains(i as usize));
            let q = choose|q: int| 0 <= q < grouped.len() && grouped[q] == i as usize;
            lemma_heads_are_latest(rule, grouped@, q);
            assert(latest@.contains(grouped[q]));
        }
        assert(lists(goal, found@));
        lemma_listing_unique(goal, found@, listing(goal));
    }
    found
}

} // verus!
