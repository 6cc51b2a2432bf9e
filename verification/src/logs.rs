//! Listings of the moderation log.

use vstd::prelude::*;
use crate::model::{AdminLog, Archive, BoardAction, UserSanction};
use crate::pagination::{page_slice, window, ADMIN_LOGS_PER_PAGE};
use crate::relation::{list, listing, lists, Order, Plan, Rule, Sieve};
use crate::request::AdminLogCategory;
use crate::temporal::{falls_in_incident_window, in_incident_window, is_before};
use crate::text::lex_lt;

verus! {

/// Whether a moderation entry is about the thread or post that a page
/// displays: about the thread where the page displays a thread, else about
/// the post.
pub open spec fn concerns(
    entry_thread: i64,
    entry_post: Option<i64>,
    thread_id: Option<i64>,
    post_id: Option<i64>,
) -> bool {
    match thread_id {
        Some(thread) => entry_thread == thread,
        None => match post_id {
            Some(post) => entry_post == Some(post),
            None => false,
        },
    }
}

/// The moderation entries about a displayed thread or post that were made
/// before `cutoff` and outside the incident windows, in stored order.
pub struct RelatedEntries {
    pub archive: Archive,
    pub thread_id: Option<i64>,
    pub post_id: Option<i64>,
    pub cutoff: Seq<char>,
}

impl Rule for RelatedEntries {
    open spec fn span(&self) -> nat {
        self.archive.post_removals.len() as nat
    }

    open spec fn admits(&self, i: int) -> bool {
        let entry = self.archive.post_removals[i];
        &&& concerns(entry.thread_id, entry.post_id, self.thread_id, self.post_id)
        &&& !in_incident_window(entry.operation_time@)
        &&& lex_lt(entry.operation_time@, self.cutoff)
    }

    open spec fn outranks(&self, i: int, j: int) -> bool {
        false
    }

    proof fn lemma_ranking(&self, i: int, j: int, k: int) {
    }
}

/// Evaluates `RelatedEntries` against an archive.
pub struct EntriesAbout<'a> {
    pub archive: &'a Archive,
    pub thread_id: Option<i64>,
    pub post_id: Option<i64>,
    pub cutoff: &'a str,
}

impl<'a> Plan for EntriesAbout<'a> {
    type Spec = RelatedEntries;

    open spec fn rule(&self) -> RelatedEntries {
        RelatedEntries {
            archive: *self.archive,
            thread_id: self.thread_id,
            post_id: self.post_id,
            cutoff: self.cutoff@,
        }
    }

    open spec fn well_formed(&self) -> bool {
        true
    }

    fn rows(&self) -> (n: usize) {
        self.archive.post_removals.len()
    }
}

impl<'a> Sieve for EntriesAbout<'a> {
    fn test(&self, i: usize) -> (b: bool) {
        let entry = &self.archive.post_removals[i];
        let concerned = match self.thread_id {
            Some(thread) => entry.thread_id == thread,
            None => match self.post_id {
                Some(post) => match entry.post_id {
                    Some(target) => target == post,
                    None => false,
                },
                None => false,
            },
        };
        concerned && !falls_in_incident_window(entry.operation_time.as_str()) && is_before(
            entry.operation_time.as_str(),
            self.cutoff,
        )
    }
}

impl<'a> Order for EntriesAbout<'a> {
    fn ranks_above(&self, i: usize, j: usize) -> (b: bool) {
        false
    }
}

/// The entries on threads and posts, without those of the incident windows
/// where `hide` is set, in stored order.
pub struct ShownRemovals {
    pub archive: Archive,
    pub hide: bool,
}

impl Rule for ShownRemovals {
    open spec fn span(&self) -> nat {
        self.archive.post_removals.len() as nat
    }

    open spec fn admits(&self, i: int) -> bool {
        self.hide ==> !in_incident_window(self.archive.post_removals[i].operation_time@)
    }

    open spec fn outranks(&self, i: int, j: int) -> bool {
        false
    }

    proof fn lemma_ranking(&self, i: int, j: int, k: int) {
    }
}

/// Evaluates `ShownRemovals` against an archive.
pub struct RemovalsShown<'a> {
    pub archive: &'a Archive,
    pub hide: bool,
}

impl<'a> Plan for RemovalsShown<'a> {
    type Spec = ShownRemovals;

    open spec fn rule(&self) -> ShownRemovals {
        ShownRemovals { archive: *self.archive, hide: self.hide }
    }

    open spec fn well_formed(&self) -> bool {
        true
    }

    fn rows(&self) -> (n: usize) {
        self.archive.post_removals.len()
    }
}

impl<'a> Sieve for RemovalsShown<'a> {
    fn test(&self, i: usize) -> (b: bool) {
        !self.hide || !falls_in_incident_window(
            self.archive.post_removals[i].operation_time.as_str(),
        )
    }
}

impl<'a> Order for RemovalsShown<'a> {
    fn ranks_above(&self, i: usize, j: usize) -> (b: bool) {
        false
    }
}

/// The log entries that stand at `positions` of the entries on threads and
/// posts.
pub open spec fn removals_at(archive: Archive, positions: Seq<usize>) -> Seq<AdminLog> {
    positions.map_values(|i: usize| AdminLog::Post(archive.post_removals[i as int]))
}

/// The given sanctions as log entries.
pub open spec fn sanction_logs(rows: Seq<UserSanction>) -> Seq<AdminLog> {
    rows.map_values(|row: UserSanction| AdminLog::User(row))
}

/// The given board actions as log entries.
pub open spec fn board_logs(rows: Seq<BoardAction>) -> Seq<AdminLog> {
    rows.map_values(|row: BoardAction| AdminLog::Bawu(row))
}

/// One page of a category of the moderation log. The entries of the
/// incident windows are left out only of the category of threads and posts,
/// and only where `hide` is set.
pub open spec fn admin_log_page(
    archive: Archive,
    category: AdminLogCategory,
    page: nat,
    hide: bool,
) -> Seq<AdminLog> {
    let size = ADMIN_LOGS_PER_PAGE as nat;
    match category {
        AdminLogCategory::Post => removals_at(
            archive,
            page_slice(listing(ShownRemovals { archive, hide }), page, size),
        ),
        AdminLogCategory::User => sanction_logs(page_slice(archive.user_sanctions@, page, size)),
        AdminLogCategory::Bawu => board_logs(page_slice(archive.board_actions@, page, size)),
    }
}

/// Copies the entries on threads and posts that stand at `positions`.
pub fn copy_removals(archive: &Archive, positions: &[usize]) -> (logs: Vec<AdminLog>)
    requires
        forall|k: int| 0 <= k < positions.len() ==> (#[trigger] positions[k])
            < archive.post_removals.len(),
    ensures
        logs@ == removals_at(*archive, positions@),
{
    let mut logs: Vec<AdminLog> = Vec::new();
    let mut k: usize = 0;
    while k < positions.len()
        invariant
            k <= positions.len(),
            forall|j: int| 0 <= j < positions.len() ==> (#[trigger] positions[j])
                < archive.post_removals.len(),
            logs@ == removals_at(*archive, positions@.take(k as int)),
        decreases positions.len() - k,
    {
        logs.push(AdminLog::Post(archive.post_removals[positions[k]].clone()));
        assert(positions@.take(k + 1) =~= positions@.take(k as int).push(positions@[k as int]));
        assert(logs@ =~= removals_at(*archive, positions@.take(k + 1)));
        k += 1;
    }
    assert(positions@.take(positions.len() as int) =~= positions@);
    logs
}

/// The moderation entries about thread `thread_id`, or about post `post_id`
/// where no thread is given, that were made before `cutoff` and outside the
/// incident windows, in stored order.
pub fn get_post_related_admin_logs(
    archive: &Archive,
    thread_id: Option<i64>,
    post_id: Option<i64>,
    cutoff: &str,
) -> (logs: Vec<AdminLog>)
    ensures
        logs@ == removals_at(
            *archive,
            listing(RelatedEntries { archive: *archive, thread_id, post_id, cutoff: cutoff@ }),
        ),
        lists(
            RelatedEntries { archive: *archive, thread_id, post_id, cutoff: cutoff@ },
            listing(RelatedEntries { archive: *archive, thread_id, post_id, cutoff: cutoff@ }),
        ),
{
    let found = list(&EntriesAbout { archive, thread_id, post_id, cutoff });
    copy_removals(archive, found.as_slice())
}

/// Page `page` of a category of the moderation log, fifty entries to a
/// page. A page past the end of the log is empty.
pub fn get_admin_logs(
    archive: &Archive,
    category: AdminLogCategory,
    page: u32,
    hide_the_showdown: bool,
) -> (logs: Vec<AdminLog>)
    requires
        page >= 1,
    ensures
        logs@ == admin_log_page(*archive, category, page as nat, hide_the_showdown),
{
    match category {
        AdminLogCategory::Post => {
            let shown = list(&RemovalsShown { archive, hide: hide_the_showdown });
            let positions = window(shown.as_slice(), page, ADMIN_LOGS_PER_PAGE);
            copy_removals(archive, positions)
        },
        AdminLogCategory::User => {
            let rows = window(archive.user_sanctions.as_slice(), page, ADMIN_LOGS_PER_PAGE);
            let mut logs: Vec<AdminLog> = Vec::new();
            let mut k: usize = 0;
            while k < rows.len()
                invariant
                    k <= rows.len(),
                    logs@ == sanction_logs(rows@.take(k as int)),
                decreases rows.len() - k,
            {
                logs.push(AdminLog::User(rows[k].clone()));
                assert(rows@.take(k + 1) =~= rows@.take(k as int).push(rows@[k as int]));
                assert(logs@ =~= sanction_logs(rows@.take(k + 1)));
                k += 1;
            }
            assert(rows@.take(rows.len() as int) =~= rows@);
            logs
        },
        AdminLogCategory::Bawu => {
            let rows = window(archive.board_actions.as_slice(), page, ADMIN_LOGS_PER_PAGE);
            let mut logs: Vec<AdminLog> = Vec::new();
            let mut k: usize = 0;
            while k < rows.len()
                invariant
                    k <= rows.len(),
                    logs@ == board_logs(rows@.take(k as int)),
                decreases rows.len() - k,
            {
                logs.push(AdminLog::Bawu(rows[k].clone()));
                assert(rows@.take(k + 1) =~= rows@.take(k as int).push(rows@[k as int]));
                assert(logs@ =~= board_logs(rows@.take(k + 1)));
                k += 1;
            }
            assert(rows@.take(rows.len() as int) =~= rows@);
            logs
        },
    }
}

} // verus!
