//! The pages that answer requests, and what every page holds.
//!
//! Every request is resolved in the same steps: the cutoff is resolved, the
//! full ordered candidate set of the resource is listed, the set is sliced
//! into pages, and the rows of the requested page are joined with what the
//! page shows of them.

use vstd::prelude::*;
use crate::comments::VisibleComments;
use crate::error::ArchiveError;
use crate::join::{authors_of, comments_of, gathered, posts_of, records_of, threads_of};
use crate::logs::{admin_log_page, removals_at, RelatedEntries};
use crate::lookup::{post_position, thread_position, user_position_by};
use crate::model::{AdminLog, Archive, Comment, Post, Thread, User, UserRecord};
use crate::pagination::{
    lemma_page_bounds, page_of, page_slice, page_start, total_pages, COMMENTS_PER_PAGE,
    POSTS_PER_PAGE, THREADS_PER_PAGE, USER_RECORDS_PER_PAGE,
};
use crate::posts::VisiblePosts;
use crate::records::UserEntries;
use crate::relation::{listing, within};
use crate::request::{category_named, recognized, user_type_named};
use crate::threads::LatestActivities;

verus! {

/// A page of the thread listing.
#[derive(Debug, PartialEq)]
pub struct ThreadPage {
    pub threads: Vec<Thread>,
    /// The author of the opening post of each thread of the page.
    pub op_users: Vec<User>,
    /// The author of the most recent activity of each thread of the page.
    pub last_reply_users: Vec<User>,
    pub max_page: usize,
}

/// A page of the thread listing, by the values it holds.
pub struct ThreadPageView {
    pub threads: Seq<Thread>,
    pub op_users: Seq<User>,
    pub last_reply_users: Seq<User>,
    pub max_page: nat,
}

impl View for ThreadPage {
    type V = ThreadPageView;

    open spec fn view(&self) -> ThreadPageView {
        ThreadPageView {
            threads: self.threads@,
            op_users: self.op_users@,
            last_reply_users: self.last_reply_users@,
            max_page: self.max_page as nat,
        }
    }
}

/// A page of the posts of a thread.
#[derive(Debug, PartialEq)]
pub struct PostPage {
    pub title: String,
    pub user_id: i64,
    pub reply_num: i32,
    pub is_good: bool,
    /// The first page of the comments of each post of the page.
    pub comments: Vec<Vec<Comment>>,
    /// The author of each of those comments.
    pub comment_users: Vec<Vec<User>>,
    /// The number of pages of comments of each post of the page.
    pub comment_max_pages: Vec<usize>,
    /// The author of each post of the page.
    pub users: Vec<User>,
    pub posts: Vec<Post>,
    /// The moderation entries about the thread.
    pub admin_logs: Vec<AdminLog>,
    pub max_page: usize,
}

/// A page of the posts of a thread, by the values it holds.
pub struct PostPageView {
    pub title: String,
    pub user_id: i64,
    pub reply_num: i32,
    pub is_good: bool,
    pub comments: Seq<Seq<Comment>>,
    pub comment_users: Seq<Seq<User>>,
    pub comment_max_pages: Seq<nat>,
    pub users: Seq<User>,
    pub posts: Seq<Post>,
    pub admin_logs: Seq<AdminLog>,
    pub max_page: nat,
}

impl View for PostPage {
    type V = PostPageView;

    open spec fn view(&self) -> PostPageView {
        PostPageView {
            title: self.title,
            user_id: self.user_id,
            reply_num: self.reply_num,
            is_good: self.is_good,
            comments: self.comments@.map_values(|of_post: Vec<Comment>| of_post@),
            comment_users: self.comment_users@.map_values(|of_post: Vec<User>| of_post@),
            comment_max_pages: self.comment_max_pages@.map_values(|pages: usize| pages as nat),
            users: self.users@,
            posts: self.posts@,
            admin_logs: self.admin_logs@,
            max_page: self.max_page as nat,
        }
    }
}

/// A page of the comments of a post.
#[derive(Debug, PartialEq)]
pub struct CommentPage {
    pub comments: Vec<Comment>,
    /// The author of each comment of the page.
    pub users: Vec<User>,
    /// The moderation entries about the post.
    pub admin_logs: Vec<AdminLog>,
    pub max_page: usize,
}

/// A page of the comments of a post, by the values it holds.
pub struct CommentPageView {
    pub comments: Seq<Comment>,
    pub users: Seq<User>,
    pub admin_logs: Seq<AdminLog>,
    pub max_page: nat,
}

impl View for CommentPage {
    type V = CommentPageView;

    open spec fn view(&self) -> CommentPageView {
        CommentPageView {
            comments: self.comments@,
            users: self.users@,
            admin_logs: self.admin_logs@,
            max_page: self.max_page as nat,
        }
    }
}

/// A page of the activity feed of a user.
#[derive(Debug, PartialEq)]
pub struct UserPage {
    pub user: User,
    pub records: Vec<UserRecord>,
    pub max_page: usize,
}

/// A page of the activity feed of a user, by the values it holds.
pub struct UserPageView {
    pub user: User,
    pub records: Seq<UserRecord>,
    pub max_page: nat,
}

impl View for UserPage {
    type V = UserPageView;

    open spec fn view(&self) -> UserPageView {
        UserPageView { user: self.user, records: self.records@, max_page: self.max_page as nat }
    }
}

/// The outcome of a request by the page it holds.
pub open spec fn outcome<P: View>(r: Result<P, ArchiveError>) -> Result<P::V, ArchiveError> {
    match r {
        Ok(page) => Ok(page@),
        Err(e) => Err(e),
    }
}

/// The page of a candidate set that a request asks for; a page past the
/// last one is `NotFound`.
pub open spec fn requested_page(candidates: Seq<usize>, page: nat, page_size: nat) -> Result<
    (Seq<usize>, nat),
    ArchiveError,
> {
    match page_of(candidates, page, page_size) {
        Ok(found) => Ok(found),
        Err(_) => Err(ArchiveError::NotFound),
    }
}

/// Page `page` of the thread listing at `cutoff` under `pattern`.
pub open spec fn thread_page(
    archive: Archive,
    page: nat,
    cutoff: Seq<char>,
    pattern: Seq<char>,
) -> Result<ThreadPageView, ArchiveError> {
    let candidates = listing(LatestActivities { archive, cutoff, pattern });
    match requested_page(candidates, page, THREADS_PER_PAGE as nat) {
        Err(e) => Err(e),
        Ok((shown, pages)) => match threads_of(archive, shown) {
            Err(e) => Err(e),
            Ok(threads) => match authors_of(
                archive,
                threads.map_values(|t: Thread| t.op_user_id),
            ) {
                Err(e) => Err(e),
                Ok(op_users) => match authors_of(
                    archive,
                    threads.map_values(|t: Thread| t.user_id),
                ) {
                    Err(e) => Err(e),
                    Ok(last_reply_users) => Ok(
                        ThreadPageView { threads, op_users, last_reply_users, max_page: pages },
                    ),
                },
            },
        },
    }
}

/// What a page of posts shows of the comments of one post: the first page
/// of its comments, their authors, and the number of pages of comments.
pub struct CommentPreview {
    pub comments: Seq<Comment>,
    pub users: Seq<User>,
    pub pages: nat,
}

/// What a page of posts shows of the comments of post `post_id`.
pub open spec fn comment_preview(archive: Archive, post_id: i64, cutoff: Seq<char>) -> Result<
    CommentPreview,
    ArchiveError,
> {
    let candidates = listing(VisibleComments { archive, post_id, cutoff });
    let size = COMMENTS_PER_PAGE as nat;
    match comments_of(archive, page_slice(candidates, 1, size)) {
        Err(e) => Err(e),
        Ok(comments) => match authors_of(archive, comments.map_values(|c: Comment| c.user_id)) {
            Err(e) => Err(e),
            Ok(users) => Ok(
                CommentPreview { comments, users, pages: total_pages(candidates.len(), size) },
            ),
        },
    }
}

/// Page `page` of the posts of thread `thread_id` at `cutoff`.
pub open spec fn post_page(archive: Archive, thread_id: i64, page: nat, cutoff: Seq<char>) -> Result<
    PostPageView,
    ArchiveError,
> {
    match thread_position(archive, thread_id) {
        None => Err(ArchiveError::NotFound),
        Some(t) => {
            let candidates = listing(VisiblePosts { archive, thread_id, cutoff });
            match requested_page(candidates, page, POSTS_PER_PAGE as nat) {
                Err(e) => Err(e),
                Ok((shown, pages)) => match posts_of(archive, shown) {
                    Err(e) => Err(e),
                    Ok(posts) => match gathered(
                        posts.map_values(|p: Post| comment_preview(archive, p.post_id, cutoff)),
                    ) {
                        Err(e) => Err(e),
                        Ok(previews) => match authors_of(
                            archive,
                            posts.map_values(|p: Post| p.user_id),
                        ) {
                            Err(e) => Err(e),
                            Ok(users) => Ok(
                                PostPageView {
                                    title: archive.threads[t].title,
                                    user_id: archive.threads[t].user_id,
                                    reply_num: archive.threads[t].reply_num,
                                    is_good: archive.threads[t].is_good,
                                    comments: previews.map_values(|v: CommentPreview| v.comments),
                                    comment_users: previews.map_values(|v: CommentPreview| v.users),
                                    comment_max_pages: previews.map_values(
                                        |v: CommentPreview| v.pages,
                                    ),
                                    users,
                                    posts,
                                    admin_logs: removals_at(
                                        archive,
                                        listing(
                                            RelatedEntries {
                                                archive,
                                                thread_id: Some(thread_id),
                                                post_id: None,
                                                cutoff,
                                            },
                                        ),
                                    ),
                                    max_page: pages,
                                },
                            ),
                        },
                    },
                },
            }
        },
    }
}

/// Whether the archive knows nothing of post `post_id` at `cutoff`: it holds
/// neither the post nor a comment of it made before `cutoff`.
pub open spec fn post_is_unknown(archive: Archive, post_id: i64, cutoff: Seq<char>) -> bool {
    post_position(archive, post_id) is None && listing(
        VisibleComments { archive, post_id, cutoff },
    ).len() == 0
}

/// Page `page` of the comments of post `post_id` at `cutoff`.
pub open spec fn comment_page(archive: Archive, post_id: i64, page: nat, cutoff: Seq<char>) -> Result<
    CommentPageView,
    ArchiveError,
> {
    let candidates = listing(VisibleComments { archive, post_id, cutoff });
    if post_is_unknown(archive, post_id, cutoff) {
        Err(ArchiveError::NotFound)
    } else {
        match requested_page(candidates, page, COMMENTS_PER_PAGE as nat) {
            Err(e) => Err(e),
            Ok((shown, pages)) => match comments_of(archive, shown) {
                Err(e) => Err(e),
                Ok(comments) => match authors_of(
                    archive,
                    comments.map_values(|c: Comment| c.user_id),
                ) {
                    Err(e) => Err(e),
                    Ok(users) => Ok(
                        CommentPageView {
                            comments,
                            users,
                            admin_logs: removals_at(
                                archive,
                                listing(
                                    RelatedEntries {
                                        archive,
                                        thread_id: None,
                                        post_id: Some(post_id),
                                        cutoff,
                                    },
                                ),
                            ),
                            max_page: pages,
                        },
                    ),
                },
            },
        }
    }
}

/// Page `page` of the activity feed, at `cutoff`, of the user that `clue`
/// denotes when users are looked up by the kind named `kind`.
pub open spec fn user_page(
    archive: Archive,
    kind: Seq<char>,
    clue: Seq<char>,
    page: nat,
    cutoff: Seq<char>,
) -> Result<UserPageView, ArchiveError> {
    match recognized(user_type_named(kind)) {
        Err(e) => Err(e),
        Ok(user_type) => match user_position_by(archive, user_type, clue) {
            None => Err(ArchiveError::NotFound),
            Some(u) => {
                let user = archive.users[u];
                let candidates = listing(
                    UserEntries { archive, user_id: user.user_id, cutoff },
                );
                match requested_page(candidates, page, USER_RECORDS_PER_PAGE as nat) {
                    Err(e) => Err(e),
                    Ok((shown, pages)) => match records_of(archive, shown) {
                        Err(e) => Err(e),
                        Ok(records) => Ok(UserPageView { user, records, max_page: pages }),
                    },
                }
            },
        },
    }
}

/// Page `page` of the category of the moderation log named `category`.
pub open spec fn admin_log_response(
    archive: Archive,
    category: Seq<char>,
    page: nat,
    hide: bool,
) -> Result<Seq<AdminLog>, ArchiveError> {
    match recognized(category_named(category)) {
        Err(e) => Err(e),
        Ok(known) => Ok(admin_log_page(archive, known, page, hide)),
    }
}

/// The rows of a page are rows of the candidate set.
pub proof fn lemma_page_rows_within(candidates: Seq<usize>, page: nat, page_size: nat, n: nat)
    requires
        within(candidates, n),
        page >= 1,
        page_size >= 1,
    ensures
        within(page_slice(candidates, page, page_size), n),
        forall|k: int|
            0 <= k < page_slice(candidates, page, page_size).len() ==> candidates.contains(
                #[trigger] page_slice(candidates, page, page_size)[k],
            ),
{
    lemma_page_bounds(candidates.len(), page, page_size);
    let shown = page_slice(candidates, page, page_size);
    let start = page_start(candidates.len(), page, page_size);
    assert forall|k: int| 0 <= k < shown.len() implies (#[trigger] shown[k]) < n
        && candidates.contains(shown[k]) by {
        assert(shown[k] == candidates[start + k]);
    }
}

} // verus!
