//! The rows of the archive and the records handed back to callers.

use vstd::prelude::*;

verus! {

/// Copies an optional text.
pub fn clone_optional(text: &Option<String>) -> (r: Option<String>)
    ensures
        r == *text,
{
    match text {
        Some(t) => Some(t.clone()),
        None => None,
    }
}

/// A user of the forum.
#[derive(Debug, PartialEq)]
pub struct User {
    pub user_id: i64,
    /// Absent for accounts that were made anonymous.
    pub username: Option<String>,
    pub nickname: String,
    pub avatar: String,
}

impl Clone for User {
    fn clone(&self) -> (r: Self)
        ensures
            r == *self,
    {
        User {
            user_id: self.user_id,
            username: clone_optional(&self.username),
            nickname: self.nickname.clone(),
            avatar: self.avatar.clone(),
        }
    }
}

/// A thread as the archive stores it.
#[derive(Debug, PartialEq)]
pub struct StoredThread {
    pub thread_id: i64,
    pub title: String,
    /// Author of the opening post.
    pub user_id: i64,
    pub reply_num: i32,
    /// The "featured" flag.
    pub is_good: bool,
}

/// A post as the archive stores it, with its content still encoded.
#[derive(Debug, PartialEq)]
pub struct StoredPost {
    pub post_id: i64,
    pub thread_id: i64,
    /// Position within the thread, starting at 1.
    pub floor: i32,
    pub user_id: i64,
    pub content: String,
    pub time: String,
    pub comment_num: i32,
    pub signature: Option<String>,
    pub tail: Option<String>,
}

/// A comment as the archive stores it, with its content still encoded.
#[derive(Debug, PartialEq)]
pub struct StoredComment {
    pub comment_id: i64,
    pub post_id: i64,
    pub user_id: i64,
    pub content: String,
    pub time: String,
}

/// A moderation action on a thread or on one of its posts.
#[derive(Debug, PartialEq)]
pub struct PostRemoval {
    pub thread_id: i64,
    /// The post concerned; absent when the action is on the whole thread.
    pub post_id: Option<i64>,
    pub title: String,
    pub content_preview: String,
    pub media: Option<String>,
    pub username: String,
    pub post_time: String,
    pub operation: String,
    pub operator: String,
    pub operation_time: String,
}

impl Clone for PostRemoval {
    fn clone(&self) -> (r: Self)
        ensures
            r == *self,
    {
        PostRemoval {
            thread_id: self.thread_id,
            post_id: self.post_id,
            title: self.title.clone(),
            content_preview: self.content_preview.clone(),
            media: clone_optional(&self.media),
            username: self.username.clone(),
            post_time: self.post_time.clone(),
            operation: self.operation.clone(),
            operator: self.operator.clone(),
            operation_time: self.operation_time.clone(),
        }
    }
}

/// A sanction against a user.
#[derive(Debug, PartialEq)]
pub struct UserSanction {
    pub avatar: String,
    pub username: String,
    pub operation: String,
    pub duration: String,
    pub operator: String,
    pub operation_time: String,
}

impl Clone for UserSanction {
    fn clone(&self) -> (r: Self)
        ensures
            r == *self,
    {
        UserSanction {
            avatar: self.avatar.clone(),
            username: self.username.clone(),
            operation: self.operation.clone(),
            duration: self.duration.clone(),
            operator: self.operator.clone(),
            operation_time: self.operation_time.clone(),
        }
    }
}

/// An action on the board's team of moderators.
#[derive(Debug, PartialEq)]
pub struct BoardAction {
    pub avatar: String,
    pub username: String,
    pub operation: String,
    pub operator: Option<String>,
    pub operation_time: String,
}

impl Clone for BoardAction {
    fn clone(&self) -> (r: Self)
        ensures
            r == *self,
    {
        BoardAction {
            avatar: self.avatar.clone(),
            username: self.username.clone(),
            operation: self.operation.clone(),
            operator: clone_optional(&self.operator),
            operation_time: self.operation_time.clone(),
        }
    }
}

/// An entry of the moderation log.
#[derive(Debug, PartialEq)]
pub enum AdminLog {
    Post(PostRemoval),
    User(UserSanction),
    Bawu(BoardAction),
}

/// The archive: every table of the store, rows in stored order.
#[derive(Debug)]
pub struct Archive {
    pub threads: Vec<StoredThread>,
    pub posts: Vec<StoredPost>,
    pub comments: Vec<StoredComment>,
    pub users: Vec<User>,
    pub post_removals: Vec<PostRemoval>,
    pub user_sanctions: Vec<UserSanction>,
    pub board_actions: Vec<BoardAction>,
}

/// What a thread's page shows of the thread itself.
#[derive(Debug, PartialEq)]
pub struct ThreadMetadata {
    pub title: String,
    pub user_id: i64,
    pub reply_num: i32,
    pub is_good: bool,
}

/// A thread in the thread listing.
#[derive(Debug, PartialEq)]
pub struct Thread {
    pub thread_id: i64,
    /// Author of the opening post.
    pub op_user_id: i64,
    pub title: String,
    /// Author of the most recent activity.
    pub user_id: i64,
    /// Time of the most recent activity.
    pub time: String,
    pub reply_num: i32,
    pub is_good: bool,
    pub op_post_content: serde_json::Value,
}

/// A post on a page of its thread.
#[derive(Debug, PartialEq)]
pub struct Post {
    pub post_id: i64,
    pub floor: i32,
    pub user_id: i64,
    pub content: serde_json::Value,
    pub time: String,
    pub comment_num: i32,
    pub signature: Option<String>,
    pub tail: Option<String>,
}

/// A comment on a page of its post.
#[derive(Debug, PartialEq)]
pub struct Comment {
    pub comment_id: i64,
    pub user_id: i64,
    pub content: serde_json::Value,
    pub time: String,
}

/// One entry of a user's activity feed.
#[derive(Debug, PartialEq)]
pub enum UserRecord {
    Post {
        thread_id: i64,
        title: String,
        post_id: i64,
        floor: i32,
        post_content: serde_json::Value,
        time: String,
    },
    Comment {
        thread_id: i64,
        title: String,
        post_id: i64,
        floor: i32,
        post_content: serde_json::Value,
        comment_id: i64,
        comment_content: serde_json::Value,
        time: String,
    },
}

} // verus!
