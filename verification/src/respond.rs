//! Answering requests: from the parameters of a request to its page.

use vstd::prelude::*;
use crate::comments::get_comments;
use crate::entries::{entry_count, EntryTable};
use crate::error::ArchiveError;
use crate::join::{
    join_authors, join_comments, join_posts, join_records, join_threads,
    lemma_gathered_fails, lemma_gathered_succeeds, viewed,
};
use crate::keyword::{get_keyword_sql_param, keyword_pattern};
use crate::laws::{
    lemma_comment_page_as_of_cutoff, lemma_post_page_as_of_cutoff,
    lemma_thread_page_as_of_cutoff, lemma_user_page_as_of_cutoff, record_post, record_thread,
    record_time,
};
use crate::logs::{get_admin_logs, get_post_related_admin_logs};
use crate::lookup::{find_post, get_thread_metadata, get_user_metadata};
use crate::model::{AdminLog, Archive, Comment, Post, Thread, User};
use crate::pages::{
    admin_log_response, comment_page, comment_preview, lemma_page_rows_within, outcome,
    post_page, requested_page, thread_page, user_page, CommentPage, CommentPreview, PostPage,
    ThreadPage, UserPage,
};
use crate::pagination::{
    paginate, window, COMMENTS_PER_PAGE, POSTS_PER_PAGE, THREADS_PER_PAGE,
    USER_RECORDS_PER_PAGE,
};
use crate::posts::get_posts;
use crate::records::get_user_records;
use crate::request::{AdminLogCategory, UserType};
use crate::temporal::{get_datetime_sql_param, resolved_cutoff};
use crate::text::lex_lt;
use crate::threads::get_threads;
use crate::visibility::retracted;

verus! {

/// Slices a candidate set and hands back the requested page with the
/// number of pages; a page past the last one is `NotFound`.
pub fn request_page<'a>(candidates: &'a [usize], page: u32, page_size: usize) -> (r: Result<
    (&'a [usize], usize),
    ArchiveError,
>)
    requires
        page >= 1,
        page_size >= 1,
    ensures
        match r {
            Ok((shown, pages)) => requested_page(candidates@, page as nat, page_size as nat) == Ok::<
                (Seq<usize>, nat),
                ArchiveError,
            >((shown@, pages as nat)),
            Err(e) => requested_page(candidates@, page as nat, page_size as nat) == Err::<
                (Seq<usize>, nat),
                ArchiveError,
            >(e),
        },
{
    match paginate(candidates, page, page_size) {
        Ok(found) => Ok(found),
        Err(_) => Err(ArchiveError::NotFound),
    }
}

/// The authors of the given comments.
fn authors_of_comments(comments: &Vec<Comment>) -> (ids: Vec<i64>)
    ensures
        ids@ == comments@.map_values(|c: Comment| c.user_id),
{
    let mut ids: Vec<i64> = Vec::new();
    let mut k: usize = 0;
    while k < comments.len()
        invariant
            k <= comments.len(),
            ids@ == comments@.take(k as int).map_values(|c: Comment| c.user_id),
        decreases comments.len() - k,
    {
        ids.push(comments[k].user_id);
        assert(comments@.take(k + 1) =~= comments@.take(k as int).push(comments@[k as int]));
        assert(ids@ =~= comments@.take(k + 1).map_values(|c: Comment| c.user_id));
        k += 1;
    }
    assert(comments@.take(comments.len() as int) =~= comments@);
    ids
}

/// The authors of the given posts.
fn authors_of_posts(posts: &Vec<Post>) -> (ids: Vec<i64>)
    ensures
        ids@ == posts@.map_values(|p: Post| p.user_id),
{
    let mut ids: Vec<i64> = Vec::new();
    let mut k: usize = 0;
    while k < posts.len()
        invariant
            k <= posts.len(),
            ids@ == posts@.take(k as int).map_values(|p: Post| p.user_id),
        decreases posts.len() - k,
    {
        ids.push(posts[k].user_id);
        assert(posts@.take(k + 1) =~= posts@.take(k as int).push(posts@[k as int]));
        assert(ids@ =~= posts@.take(k + 1).map_values(|p: Post| p.user_id));
        k += 1;
    }
    assert(posts@.take(posts.len() as int) =~= posts@);
    ids
}

/// The authors of the opening posts and of the most recent activities of
/// the given threads.
fn authors_of_threads(threads: &Vec<Thread>) -> (ids: (Vec<i64>, Vec<i64>))
    ensures
        ids.0@ == threads@.map_values(|t: Thread| t.op_user_id),
        ids.1@ == threads@.map_values(|t: Thread| t.user_id),
{
    let mut opening: Vec<i64> = Vec::new();
    let mut latest: Vec<i64> = Vec::new();
    let mut k: usize = 0;
    while k < threads.len()
        invariant
            k <= threads.len(),
            opening@ == threads@.take(k as int).map_values(|t: Thread| t.op_user_id),
            latest@ == threads@.take(k as int).map_values(|t: Thread| t.user_id),
        decreases threads.len() - k,
    {
        opening.push(threads[k].op_user_id);
        latest.push(threads[k].user_id);
        assert(threads@.take(k + 1) =~= threads@.take(k as int).push(threads@[k as int]));
        assert(opening@ =~= threads@.take(k + 1).map_values(|t: Thread| t.op_user_id));
        assert(latest@ =~= threads@.take(k + 1).map_values(|t: Thread| t.user_id));
        k += 1;
    }
    assert(threads@.take(threads.len() as int) =~= threads@);
    (opening, latest)
}

/// Answers a request for a page of the comments of a post.
///
/// A post of which the archive holds nothing, neither the post nor a comment
/// made before the cutoff, and a page past the last one are `NotFound`; a
/// post without comments before the cutoff has an empty page and no pages.
pub fn respond_comment(
    archive: &Archive,
    post_id: i64,
    page: u32,
    time_machine_datetime: Option<String>,
) -> (r: Result<CommentPage, ArchiveError>)
    requires
        page >= 1,
    ensures
        outcome(r) == comment_page(
            *archive,
            post_id,
            page as nat,
            resolved_cutoff(time_machine_datetime),
        ),
        r matches Ok(answer) ==> forall|k: int|
            #![trigger answer.comments[k]]
            0 <= k < answer.comments.len() ==> lex_lt(
                answer.comments[k].time@,
                resolved_cutoff(time_machine_datetime),
            ),
{
    let datetime = get_datetime_sql_param(time_machine_datetime);
    let cutoff = datetime.as_str();
    let full_comments = get_comments(archive, post_id, cutoff);
    if full_comments.len() == 0 && find_post(archive, post_id).is_none() {
        return Err(ArchiveError::NotFound);
    }
    let (shown, max_page) = match request_page(full_comments.as_slice(), page, COMMENTS_PER_PAGE) {
        Ok(found) => found,
        Err(e) => {
            return Err(e);
        },
    };
    proof {
        lemma_page_rows_within(
            full_comments@,
            page as nat,
            COMMENTS_PER_PAGE as nat,
            archive.comments.len() as nat,
        );
    }
    let comments = match join_comments(archive, shown) {
        Ok(comments) => comments,
        Err(e) => {
            return Err(e);
        },
    };
    let users = match join_authors(archive, &authors_of_comments(&comments)) {
        Ok(users) => users,
        Err(e) => {
            return Err(e);
        },
    };
    let admin_logs = get_post_related_admin_logs(archive, None, Some(post_id), cutoff);
    let answer = CommentPage { comments, users, admin_logs, max_page };
    proof {
        assert forall|k: int| 0 <= k < answer.comments.len() implies lex_lt(
            (#[trigger] answer.comments[k]).time@,
            cutoff@,
        ) by {
            lemma_comment_page_as_of_cutoff(*archive, post_id, page as nat, cutoff@, answer@, k);
        }
    }
    Ok(answer)
}

/// Answers a request for a page of the activity feed of a user.
///
/// A lookup kind that is not known is `UnprocessableInput`; a clue that
/// denotes no user and a page past the last one are `NotFound`.
pub fn respond_user(
    archive: &Archive,
    user_type: &str,
    user_clue: &str,
    page: u32,
    time_machine_datetime: Option<String>,
) -> (r: Result<UserPage, ArchiveError>)
    requires
        page >= 1,
        archive.posts.len() + archive.comments.len() <= usize::MAX,
    ensures
        outcome(r) == user_page(
            *archive,
            user_type@,
            user_clue@,
            page as nat,
            resolved_cutoff(time_machine_datetime),
        ),
        r matches Ok(answer) ==> forall|k: int|
            #![trigger answer.records[k]]
            0 <= k < answer.records.len() ==> lex_lt(
                record_time(answer.records[k]),
                resolved_cutoff(time_machine_datetime),
            ) && (answer.records[k] is Comment || !retracted(
                archive.post_removals@,
                Some(record_thread(answer.records[k])),
                Some(record_post(answer.records[k])),
                resolved_cutoff(time_machine_datetime),
            )),
{
    let datetime = get_datetime_sql_param(time_machine_datetime);
    let cutoff = datetime.as_str();
    let ghost kind_name = user_type@;
    let user_type = match UserType::parse(user_type) {
        Ok(user_type) => user_type,
        Err(e) => {
            return Err(e);
        },
    };
    let user = match get_user_metadata(archive, user_type, user_clue) {
        Some(user) => user,
        None => {
            return Err(ArchiveError::NotFound);
        },
    };
    let table = EntryTable::new(archive);
    let full_records = get_user_records(&table, user.user_id, cutoff);
    let (shown, max_page) = match request_page(
        full_records.as_slice(),
        page,
        USER_RECORDS_PER_PAGE,
    ) {
        Ok(found) => found,
        Err(e) => {
            return Err(e);
        },
    };
    proof {
        lemma_page_rows_within(
            full_records@,
            page as nat,
            USER_RECORDS_PER_PAGE as nat,
            entry_count(*archive),
        );
    }
    let records = match join_records(archive, shown) {
        Ok(records) => records,
        Err(e) => {
            return Err(e);
        },
    };
    let answer = UserPage { user, records, max_page };
    proof {
        assert forall|k: int| 0 <= k < answer.records.len() implies {
            &&& lex_lt(record_time(#[trigger] answer.records[k]), cutoff@)
            &&& answer.records[k] is Post ==> !retracted(
                archive.post_removals@,
                Some(record_thread(answer.records[k])),
                Some(record_post(answer.records[k])),
                cutoff@,
            )
        } by {
            lemma_user_page_as_of_cutoff(
                *archive,
                kind_name,
                user_clue@,
                page as nat,
                cutoff@,
                answer@,
                k,
            );
        }
    }
    Ok(answer)
}

/// Answers a request for a page of the thread listing.
///
/// A page past the last one is `NotFound`; a listing without threads has an
/// empty page and no pages.
pub fn respond_thread(
    archive: &Archive,
    page: u32,
    time_machine_datetime: Option<String>,
    search_keyword: Option<String>,
) -> (r: Result<ThreadPage, ArchiveError>)
    requires
        page >= 1,
        archive.posts.len() + archive.comments.len() <= usize::MAX,
    ensures
        outcome(r) == thread_page(
            *archive,
            page as nat,
            resolved_cutoff(time_machine_datetime),
            keyword_pattern(search_keyword),
        ),
        r matches Ok(answer) ==> forall|k: int|
            #![trigger answer.threads[k]]
            0 <= k < answer.threads.len() ==> lex_lt(
                answer.threads[k].time@,
                resolved_cutoff(time_machine_datetime),
            ) && !retracted(
                archive.post_removals@,
                Some(answer.threads[k].thread_id),
                None,
                resolved_cutoff(time_machine_datetime),
            ),
{
    let datetime = get_datetime_sql_param(time_machine_datetime);
    let keyword = get_keyword_sql_param(search_keyword);
    let table = EntryTable::new(archive);
    let full_threads = get_threads(&table, datetime.as_str(), keyword.as_str());
    let (shown, max_page) = match request_page(full_threads.as_slice(), page, THREADS_PER_PAGE) {
        Ok(found) => found,
        Err(e) => {
            return Err(e);
        },
    };
    proof {
        lemma_page_rows_within(
            full_threads@,
            page as nat,
            THREADS_PER_PAGE as nat,
            entry_count(*archive),
        );
    }
    let threads = match join_threads(&table, shown) {
        Ok(threads) => threads,
        Err(e) => {
            return Err(e);
        },
    };
    let (opening, latest) = authors_of_threads(&threads);
    let op_users = match join_authors(archive, &opening) {
        Ok(users) => users,
        Err(e) => {
            return Err(e);
        },
    };
    let last_reply_users = match join_authors(archive, &latest) {
        Ok(users) => users,
        Err(e) => {
            return Err(e);
        },
    };
    let answer = ThreadPage { threads, op_users, last_reply_users, max_page };
    proof {
        assert forall|k: int| 0 <= k < answer.threads.len() implies {
            &&& lex_lt((#[trigger] answer.threads[k]).time@, datetime@)
            &&& !retracted(
                archive.post_removals@,
                Some(answer.threads[k].thread_id),
                None,
                datetime@,
            )
        } by {
            lemma_thread_page_as_of_cutoff(
                *archive,
                page as nat,
                datetime@,
                keyword@,
                answer@,
                k,
            );
        }
    }
    Ok(answer)
}

/// Answers a request for a page of the moderation log.
///
/// A category that is not known is `UnprocessableInput`. A page past the
/// end of the log is empty.
pub fn respond_admin_log(archive: &Archive, category: &str, page: u32, hide_the_showdown: bool) -> (r:
    Result<Vec<AdminLog>, ArchiveError>)
    requires
        page >= 1,
    ensures
        viewed(r) == admin_log_response(*archive, category@, page as nat, hide_the_showdown),
{
    match AdminLogCategory::parse(category) {
        Ok(known) => Ok(get_admin_logs(archive, known, page, hide_the_showdown)),
        Err(e) => Err(e),
    }
}

/// What a page of posts shows of the comments of one post.
pub struct Preview {
    pub comments: Vec<Comment>,
    pub users: Vec<User>,
    pub pages: usize,
}

impl View for Preview {
    type V = CommentPreview;

    open spec fn view(&self) -> CommentPreview {
        CommentPreview {
            comments: self.comments@,
            users: self.users@,
            pages: self.pages as nat,
        }
    }
}

/// Works out what a page of posts shows of the comments of post `post_id`:
/// the first page of its comments at `cutoff`, their authors, and the
/// number of pages of comments.
pub fn preview_comments(archive: &Archive, post_id: i64, cutoff: &str) -> (r: Result<
    Preview,
    ArchiveError,
>)
    ensures
        outcome(r) == comment_preview(*archive, post_id, cutoff@),
{
    let full_comments = get_comments(archive, post_id, cutoff);
    let pages: usize = if full_comments.len() == 0 {
        0
    } else {
        (full_comments.len() - 1) / COMMENTS_PER_PAGE + 1
    };
    let first = window(full_comments.as_slice(), 1, COMMENTS_PER_PAGE);
    proof {
        lemma_page_rows_within(
            full_comments@,
            1,
            COMMENTS_PER_PAGE as nat,
            archive.comments.len() as nat,
        );
    }
    let comments = match join_comments(archive, first) {
        Ok(comments) => comments,
        Err(e) => {
            return Err(e);
        },
    };
    let users = match join_authors(archive, &authors_of_comments(&comments)) {
        Ok(users) => users,
        Err(e) => {
            return Err(e);
        },
    };
    Ok(Preview { comments, users, pages })
}

/// Answers a request for a page of the posts of a thread.
///
/// An unknown thread and a page past the last one are `NotFound`; a thread
/// without visible posts has an empty page and no pages.
#[verifier::loop_isolation(false)]
pub fn respond_post(
    archive: &Archive,
    thread_id: i64,
    page: u32,
    time_machine_datetime: Option<String>,
) -> (r: Result<PostPage, ArchiveError>)
    requires
        page >= 1,
    ensures
        outcome(r) == post_page(
            *archive,
            thread_id,
            page as nat,
            resolved_cutoff(time_machine_datetime),
        ),
        r matches Ok(answer) ==> forall|k: int|
            #![trigger answer.posts[k]]
            0 <= k < answer.posts.len() ==> lex_lt(
                answer.posts[k].time@,
                resolved_cutoff(time_machine_datetime),
            ) && !retracted(
                archive.post_removals@,
                Some(thread_id),
                Some(answer.posts[k].post_id),
                resolved_cutoff(time_machine_datetime),
            ),
{
    let datetime = get_datetime_sql_param(time_machine_datetime);
    let cutoff = datetime.as_str();
    let thread = match get_thread_metadata(archive, thread_id) {
        Some(thread) => thread,
        None => {
            return Err(ArchiveError::NotFound);
        },
    };
    let full_posts = get_posts(archive, thread_id, cutoff);
    let (shown, max_page) = match request_page(full_posts.as_slice(), page, POSTS_PER_PAGE) {
        Ok(found) => found,
        Err(e) => {
            return Err(e);
        },
    };
    proof {
        lemma_page_rows_within(
            full_posts@,
            page as nat,
            POSTS_PER_PAGE as nat,
            archive.posts.len() as nat,
        );
    }
    let posts = match join_posts(archive, shown) {
        Ok(posts) => posts,
        Err(e) => {
            return Err(e);
        },
    };
    let ghost items = posts@.map_values(|p: Post| comment_preview(*archive, p.post_id, cutoff@));
    let ghost mut previews: Seq<CommentPreview> = Seq::empty();
    let mut comments: Vec<Vec<Comment>> = Vec::new();
    let mut comment_users: Vec<Vec<User>> = Vec::new();
    let mut comment_max_pages: Vec<usize> = Vec::new();
    let mut k: usize = 0;
    while k < posts.len()
        invariant
            k <= posts.len(),
            items == posts@.map_values(|p: Post| comment_preview(*archive, p.post_id, cutoff@)),
            previews.len() == k,
            comments.len() == k,
            comment_users.len() == k,
            comment_max_pages.len() == k,
            forall|j: int|
                0 <= j < k ==> #[trigger] items[j] == Ok::<CommentPreview, ArchiveError>(
                    previews[j],
                ),
            forall|j: int|
                0 <= j < k ==> (#[trigger] previews[j]).comments == comments[j]@ && previews[j].users
                    == comment_users[j]@ && previews[j].pages == comment_max_pages[j],
        decreases posts.len() - k,
    {
        match preview_comments(archive, posts[k].post_id, cutoff) {
            Ok(preview) => {
                proof {
                    previews = previews.push(preview@);
                }
                comments.push(preview.comments);
                comment_users.push(preview.users);
                comment_max_pages.push(preview.pages);
            },
            Err(e) => {
                proof {
                    lemma_gathered_fails(items, k as int);
                }
                return Err(e);
            },
        }
        k += 1;
    }
    proof {
        lemma_gathered_succeeds(items, previews);
    }
    let users = match join_authors(archive, &authors_of_posts(&posts)) {
        Ok(users) => users,
        Err(e) => {
            return Err(e);
        },
    };
    let admin_logs = get_post_related_admin_logs(archive, Some(thread_id), None, cutoff);
    let answer = PostPage {
        title: thread.title,
        user_id: thread.user_id,
        reply_num: thread.reply_num,
        is_good: thread.is_good,
        comments,
        comment_users,
        comment_max_pages,
        users,
        posts,
        admin_logs,
        max_page,
    };
    proof {
        assert(answer@.comments =~= previews.map_values(|v: CommentPreview| v.comments));
        assert(answer@.comment_users =~= previews.map_values(|v: CommentPreview| v.users));
        assert(answer@.comment_max_pages =~= previews.map_values(|v: CommentPreview| v.pages));
        assert forall|k: int| 0 <= k < answer.posts.len() implies {
            &&& lex_lt((#[trigger] answer.posts[k]).time@, cutoff@)
            &&& !retracted(
                archive.post_removals@,
                Some(thread_id),
                Some(answer.posts[k].post_id),
                cutoff@,
            )
        } by {
            lemma_post_page_as_of_cutoff(*archive, thread_id, page as nat, cutoff@, answer@, k);
        }
    }
    Ok(answer)
}

} // verus!
