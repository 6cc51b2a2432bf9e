use forum_archive::comments::get_comments;
use forum_archive::consistency::check_payloads;
use forum_archive::entries::EntryTable;
use forum_archive::error::ArchiveError;
use forum_archive::logs::{get_admin_logs, get_post_related_admin_logs};
use forum_archive::lookup::{
    find_opening_post, find_post, find_thread, find_user, find_user_by, get_thread_metadata,
    get_user_metadata,
};
use forum_archive::model::{
    AdminLog, Archive, BoardAction, PostRemoval, StoredComment, StoredPost, StoredThread,
    ThreadMetadata, User, UserRecord, UserSanction,
};
use forum_archive::respond::{
    preview_comments, respond_admin_log, respond_comment, respond_post, respond_thread,
    respond_user,
};
use forum_archive::payload::decode_payload;
use forum_archive::posts::get_posts;
use forum_archive::records::get_user_records;
use forum_archive::request::{AdminLogCategory, UserType};
use forum_archive::threads::get_threads;
use forum_archive::visibility::{is_in_effect, is_retracted, is_visible, DELETION};

const END: &str = "9999-12-31 23:59:59";

fn empty_archive() -> Archive {
    Archive {
        threads: Vec::new(),
        posts: Vec::new(),
        comments: Vec::new(),
        users: Vec::new(),
        post_removals: Vec::new(),
        user_sanctions: Vec::new(),
        board_actions: Vec::new(),
    }
}

fn user(user_id: i64, nickname: &str) -> User {
    User {
        user_id,
        username: Some(format!("name{}", user_id)),
        nickname: nickname.to_string(),
        avatar: format!("avatar{}", user_id),
    }
}

fn thread(thread_id: i64, title: &str, user_id: i64) -> StoredThread {
    StoredThread { thread_id, title: title.to_string(), user_id, reply_num: 3, is_good: false }
}

fn post(post_id: i64, thread_id: i64, floor: i32, user_id: i64, time: &str) -> StoredPost {
    StoredPost {
        post_id,
        thread_id,
        floor,
        user_id,
        content: format!("[{{\"type\":\"text\",\"content\":\"post {}\"}}]", post_id),
        time: time.to_string(),
        comment_num: 0,
        signature: None,
        tail: Some("tail".to_string()),
    }
}

fn comment(comment_id: i64, post_id: i64, user_id: i64, time: &str) -> StoredComment {
    StoredComment {
        comment_id,
        post_id,
        user_id,
        content: format!("[{{\"type\":\"text\",\"content\":\"comment {}\"}}]", comment_id),
        time: time.to_string(),
    }
}

fn removal(thread_id: i64, post_id: Option<i64>, operation: &str, time: &str) -> PostRemoval {
    PostRemoval {
        thread_id,
        post_id,
        title: "title".to_string(),
        content_preview: "preview".to_string(),
        media: None,
        username: "someone".to_string(),
        post_time: "2020-01-01 00:00:00".to_string(),
        operation: operation.to_string(),
        operator: "moderator".to_string(),
        operation_time: time.to_string(),
    }
}

fn text_payload(text: &str) -> serde_json::Value {
    let mut segment = serde_json::Map::new();
    segment.insert("type".to_string(), serde_json::Value::String("text".to_string()));
    segment.insert("content".to_string(), serde_json::Value::String(text.to_string()));
    serde_json::Value::Array(vec![serde_json::Value::Object(segment)])
}

/// A thread with 125 posts on floors 1 to 125, all by user 1.
fn long_thread() -> Archive {
    let mut archive = empty_archive();
    archive.users.push(user(1, "one"));
    archive.threads.push(thread(10, "long", 1));
    for floor in 1..=125 {
        let time = format!("2020-01-01 00:{:02}:{:02}", floor / 60, floor % 60);
        archive.posts.push(post(1000 + floor as i64, 10, floor, 1, &time));
    }
    archive
}

/// Two threads with posts and comments by three users.
fn small_forum() -> Archive {
    let mut archive = empty_archive();
    archive.users.push(user(1, "alice"));
    archive.users.push(user(2, "bob"));
    archive.users.push(User {
        user_id: 3,
        username: None,
        nickname: "carol".to_string(),
        avatar: "avatar3".to_string(),
    });
    archive.threads.push(thread(10, "first thread", 1));
    archive.threads.push(thread(20, "second thread", 2));
    archive.posts.push(post(101, 10, 1, 1, "2021-01-01 10:00:00"));
    archive.posts.push(post(102, 10, 2, 2, "2021-01-02 10:00:00"));
    archive.posts.push(post(201, 20, 1, 2, "2021-01-03 10:00:00"));
    archive.posts.push(post(103, 10, 3, 3, "2021-01-04 10:00:00"));
    archive.comments.push(comment(9001, 101, 2, "2021-01-05 10:00:00"));
    archive.comments.push(comment(9002, 201, 3, "2021-01-06 10:00:00"));
    archive.comments.push(comment(9003, 101, 1, "2021-01-01 12:00:00"));
    archive
}

#[test]
fn a_thread_of_125_posts_has_five_pages() {
    let archive = long_thread();
    let page = respond_post(&archive, 10, 5, None).unwrap();
    assert_eq!(page.max_page, 5);
    let floors: Vec<i32> = page.posts.iter().map(|p| p.floor).collect();
    assert_eq!(floors, vec![121, 122, 123, 124, 125]);
    let page = respond_post(&archive, 10, 4, None).unwrap();
    assert_eq!(page.max_page, 5);
    let floors: Vec<i32> = page.posts.iter().map(|p| p.floor).collect();
    assert_eq!(floors, (91..=120).collect::<Vec<i32>>());
    assert_eq!(page.users.len(), 30);
    assert_eq!(page.comments.len(), 30);
    assert_eq!(page.comment_users.len(), 30);
    assert_eq!(page.comment_max_pages, vec![0; 30]);
}

#[test]
fn the_page_after_the_last_page_of_posts_is_not_found() {
    let archive = long_thread();
    assert_eq!(respond_post(&archive, 10, 6, None), Err(ArchiveError::NotFound));
    assert!(respond_post(&archive, 10, 1, None).is_ok());
}

#[test]
fn all_pages_of_posts_give_the_thread_floor_by_floor() {
    let archive = long_thread();
    let mut floors: Vec<i32> = Vec::new();
    for page in 1..=5 {
        let answer = respond_post(&archive, 10, page, None).unwrap();
        floors.extend(answer.posts.iter().map(|p| p.floor));
    }
    assert_eq!(floors, (1..=125).collect::<Vec<i32>>());
}

#[test]
fn an_unknown_thread_is_not_found() {
    let archive = long_thread();
    assert_eq!(respond_post(&archive, 11, 1, None), Err(ArchiveError::NotFound));
}

#[test]
fn a_thread_without_visible_posts_has_an_empty_page() {
    let archive = long_thread();
    let page = respond_post(&archive, 10, 1, Some("2019-01-01 00:00:00".to_string())).unwrap();
    assert!(page.posts.is_empty());
    assert_eq!(page.max_page, 0);
    assert_eq!(page.title, "long");
    let page = respond_post(&archive, 10, 4, Some("2019-01-01 00:00:00".to_string())).unwrap();
    assert!(page.posts.is_empty());
    assert_eq!(page.max_page, 0);
}

#[test]
fn posts_made_at_or_after_the_cutoff_are_left_out() {
    let archive = small_forum();
    let page = respond_post(&archive, 10, 1, Some("2021-01-02 10:00:00".to_string())).unwrap();
    let ids: Vec<i64> = page.posts.iter().map(|p| p.post_id).collect();
    assert_eq!(ids, vec![101]);
    let page = respond_post(&archive, 10, 1, Some("2021-01-02 10:00:01".to_string())).unwrap();
    let ids: Vec<i64> = page.posts.iter().map(|p| p.post_id).collect();
    assert_eq!(ids, vec![101, 102]);
    for post in &page.posts {
        assert!(post.time.as_str() < "2021-01-02 10:00:01");
    }
}

#[test]
fn posts_are_listed_by_floor_and_keep_stored_order_on_equal_floors() {
    let mut archive = small_forum();
    archive.posts.push(post(104, 10, 2, 1, "2021-01-07 10:00:00"));
    archive.posts.push(post(105, 10, 0, 1, "2021-01-08 10:00:00"));
    assert_eq!(get_posts(&archive, 10, END), vec![5, 0, 1, 4, 3]);
}

#[test]
fn a_deleted_post_is_hidden_once_the_deletion_is_in_effect() {
    let mut archive = small_forum();
    // post 102 was made at T1 and deleted at T2
    archive.post_removals.push(removal(10, Some(102), DELETION, "2021-02-01 00:00:00"));
    let after = respond_post(&archive, 10, 1, Some("2021-02-01 00:00:01".to_string())).unwrap();
    let ids: Vec<i64> = after.posts.iter().map(|p| p.post_id).collect();
    assert_eq!(ids, vec![101, 103]);
    let between = respond_post(&archive, 10, 1, Some("2021-01-15 00:00:00".to_string())).unwrap();
    let ids: Vec<i64> = between.posts.iter().map(|p| p.post_id).collect();
    assert_eq!(ids, vec![101, 102, 103]);
    let at = respond_post(&archive, 10, 1, Some("2021-02-01 00:00:00".to_string())).unwrap();
    let ids: Vec<i64> = at.posts.iter().map(|p| p.post_id).collect();
    assert_eq!(ids, vec![101, 102, 103]);
    let now = respond_post(&archive, 10, 1, None).unwrap();
    let ids: Vec<i64> = now.posts.iter().map(|p| p.post_id).collect();
    assert_eq!(ids, vec![101, 103]);
}

#[test]
fn a_deletion_inside_an_incident_window_is_ignored() {
    for time in ["2022-02-16 01:23:45", "2022-02-26 23:00:00", "2022-02-26 23:59:59"] {
        let mut archive = small_forum();
        archive.post_removals.push(removal(10, Some(102), DELETION, time));
        archive.post_removals.push(removal(20, None, DELETION, time));
        for cutoff in [None, Some("2022-03-01 00:00:00".to_string()), Some("2022-02-16 01:30:00".to_string())] {
            let page = respond_post(&archive, 10, 1, cutoff.clone()).unwrap();
            let ids: Vec<i64> = page.posts.iter().map(|p| p.post_id).collect();
            assert_eq!(ids, vec![101, 102, 103]);
            let page = respond_post(&archive, 20, 1, cutoff).unwrap();
            assert_eq!(page.posts.len(), 1);
        }
    }
}

#[test]
fn a_deletion_just_outside_an_incident_window_counts() {
    let mut archive = small_forum();
    archive.post_removals.push(removal(10, Some(102), DELETION, "2022-02-16 02:00:00"));
    let page = respond_post(&archive, 10, 1, None).unwrap();
    let ids: Vec<i64> = page.posts.iter().map(|p| p.post_id).collect();
    assert_eq!(ids, vec![101, 103]);
}

#[test]
fn only_the_deletion_operation_removes() {
    let mut archive = small_forum();
    archive.post_removals.push(removal(10, Some(102), "恢复删贴", "2021-02-01 00:00:00"));
    archive.post_removals.push(removal(10, Some(101), "屏蔽", "2021-02-01 00:00:00"));
    let page = respond_post(&archive, 10, 1, None).unwrap();
    assert_eq!(page.posts.len(), 3);
    assert_eq!(DELETION, "删贴");
}

#[test]
fn a_deleted_thread_leaves_the_listing_with_its_posts() {
    let mut archive = small_forum();
    archive.post_removals.push(removal(10, None, DELETION, "2021-03-01 00:00:00"));
    let page = respond_post(&archive, 10, 1, None).unwrap();
    assert!(page.posts.is_empty());
    assert_eq!(page.max_page, 0);
    let listing = respond_thread(&archive, 1, None, None).unwrap();
    let ids: Vec<i64> = listing.threads.iter().map(|t| t.thread_id).collect();
    assert_eq!(ids, vec![20]);
    let before = respond_thread(&archive, 1, Some("2021-03-01 00:00:00".to_string()), None).unwrap();
    let ids: Vec<i64> = before.threads.iter().map(|t| t.thread_id).collect();
    assert_eq!(ids, vec![20, 10]);
}

#[test]
fn comments_are_listed_whatever_became_of_their_post() {
    let mut archive = small_forum();
    archive.post_removals.push(removal(10, None, DELETION, "2021-03-01 00:00:00"));
    archive.post_removals.push(removal(20, Some(201), DELETION, "2021-03-01 00:00:00"));
    let page = respond_comment(&archive, 101, 1, None).unwrap();
    let ids: Vec<i64> = page.comments.iter().map(|c| c.comment_id).collect();
    assert_eq!(ids, vec![9003, 9001]);
    assert_eq!(page.max_page, 1);
    let page = respond_comment(&archive, 201, 1, None).unwrap();
    let ids: Vec<i64> = page.comments.iter().map(|c| c.comment_id).collect();
    assert_eq!(ids, vec![9002]);
    assert_eq!(get_comments(&archive, 101, END), vec![2, 0]);
}

/// Thread 1 with one post of January, a comment on it of February, and a
/// deletion of the post of June.
fn forum_with_a_deleted_post() -> Archive {
    let mut archive = empty_archive();
    archive.users.push(user(1, "alice"));
    archive.users.push(user(2, "bob"));
    archive.threads.push(thread(1, "only thread", 1));
    archive.posts.push(post(10, 1, 1, 1, "2021-01-10 10:00:00"));
    archive.comments.push(comment(100, 10, 2, "2021-02-10 10:00:00"));
    archive.post_removals.push(removal(1, Some(10), DELETION, "2021-06-10 10:00:00"));
    archive
}

#[test]
fn a_comment_on_a_deleted_post_is_listed_with_the_comments_of_the_post() {
    let archive = forum_with_a_deleted_post();
    let cutoff = Some("2021-12-01 00:00:00".to_string());
    assert_eq!(get_comments(&archive, 10, "2021-12-01 00:00:00"), vec![0]);
    let page = respond_comment(&archive, 10, 1, cutoff.clone()).unwrap();
    let ids: Vec<i64> = page.comments.iter().map(|c| c.comment_id).collect();
    assert_eq!(ids, vec![100]);
    assert_eq!(page.max_page, 1);
    assert_eq!(page.users.len(), 1);
    assert_eq!(page.users[0].user_id, 2);
    assert_eq!(respond_comment(&archive, 10, 2, cutoff), Err(ArchiveError::NotFound));
    assert!(respond_post(&archive, 1, 1, None).unwrap().posts.is_empty());
}

#[test]
fn a_comment_on_a_deleted_post_keeps_its_thread_in_the_listing() {
    let archive = forum_with_a_deleted_post();
    let cutoff = Some("2021-12-01 00:00:00".to_string());
    let table = EntryTable::new(&archive);
    // entry 0 is the post, entry 1 the comment
    assert_eq!(get_threads(&table, "2021-12-01 00:00:00", "%%"), vec![1]);
    let page = respond_thread(&archive, 1, cutoff.clone(), None).unwrap();
    assert_eq!(page.max_page, 1);
    assert_eq!(page.threads.len(), 1);
    assert_eq!(page.threads[0].thread_id, 1);
    assert_eq!(page.threads[0].time, "2021-02-10 10:00:00");
    assert_eq!(page.threads[0].user_id, 2);
    assert_eq!(respond_thread(&archive, 2, cutoff, None), Err(ArchiveError::NotFound));
}

#[test]
fn a_comment_on_a_deleted_post_stays_in_the_feed_of_its_author() {
    let archive = forum_with_a_deleted_post();
    let cutoff = Some("2021-12-01 00:00:00".to_string());
    let table = EntryTable::new(&archive);
    assert_eq!(get_user_records(&table, 2, "2021-12-01 00:00:00"), vec![1]);
    assert_eq!(get_user_records(&table, 1, "2021-12-01 00:00:00"), Vec::<usize>::new());
    let page = respond_user(&archive, "id", "2", 1, cutoff.clone()).unwrap();
    assert_eq!(page.max_page, 1);
    assert_eq!(page.records.len(), 1);
    match &page.records[0] {
        UserRecord::Comment { comment_id, post_id, thread_id, .. } => {
            assert_eq!((*comment_id, *post_id, *thread_id), (100, 10, 1));
        }
        other => panic!("not a comment: {:?}", other),
    }
    assert_eq!(respond_user(&archive, "id", "2", 2, cutoff.clone()), Err(ArchiveError::NotFound));
    let page = respond_user(&archive, "id", "1", 1, cutoff).unwrap();
    assert!(page.records.is_empty());
    assert_eq!(page.max_page, 0);
}

#[test]
fn a_thread_is_listed_at_its_latest_activity_though_the_post_under_it_is_deleted() {
    let mut archive = empty_archive();
    archive.users.push(user(1, "alice"));
    archive.users.push(user(2, "bob"));
    archive.threads.push(thread(1, "only thread", 1));
    archive.posts.push(post(11, 1, 1, 1, "2021-01-10 10:00:00"));
    archive.posts.push(post(10, 1, 2, 1, "2021-04-10 10:00:00"));
    archive.comments.push(comment(100, 11, 2, "2021-05-10 10:00:00"));
    archive.post_removals.push(removal(1, Some(11), DELETION, "2021-06-10 10:00:00"));
    let page = respond_thread(&archive, 1, Some("2021-12-01 00:00:00".to_string()), None).unwrap();
    assert_eq!(page.threads.len(), 1);
    assert_eq!(page.threads[0].time, "2021-05-10 10:00:00");
    assert_eq!(page.threads[0].user_id, 2);
    let page = respond_thread(&archive, 1, Some("2021-05-01 00:00:00".to_string()), None).unwrap();
    assert_eq!(page.threads[0].time, "2021-04-10 10:00:00");
}

#[test]
fn a_comment_of_a_deleted_thread_counts_for_no_thread_but_stays_in_the_feed() {
    let mut archive = forum_with_a_deleted_post();
    archive.post_removals.push(removal(1, None, DELETION, "2021-07-10 10:00:00"));
    let page = respond_thread(&archive, 1, None, None).unwrap();
    assert!(page.threads.is_empty());
    assert_eq!(page.max_page, 0);
    let page = respond_thread(&archive, 1, Some("2021-07-10 10:00:00".to_string()), None).unwrap();
    assert_eq!(page.threads.len(), 1);
    let page = respond_user(&archive, "id", "2", 1, None).unwrap();
    assert_eq!(page.records.len(), 1);
}

#[test]
fn an_entry_on_a_post_does_not_remove_the_other_posts() {
    let archive = {
        let mut archive = small_forum();
        archive.post_removals.push(removal(10, Some(102), DELETION, "2021-02-01 00:00:00"));
        archive
    };
    let log = &archive.post_removals;
    assert!(is_retracted(log, Some(10), Some(102), END));
    assert!(!is_retracted(log, Some(10), Some(101), END));
    assert!(!is_retracted(log, Some(10), None, END));
    assert!(is_retracted(log, None, Some(102), END));
    assert!(!is_retracted(log, Some(10), Some(102), "2021-02-01 00:00:00"));
    assert!(is_in_effect(&log[0], "2021-02-01 00:00:01"));
    assert!(!is_in_effect(&log[0], "2021-02-01 00:00:00"));
    assert!(is_visible(log, "2021-01-02 10:00:00", Some(10), Some(101), END));
    assert!(!is_visible(log, "2021-01-02 10:00:00", Some(10), Some(102), END));
    assert!(!is_visible(log, "2021-01-02 10:00:00", Some(10), Some(101), "2021-01-02 10:00:00"));
}

#[test]
fn comments_are_listed_oldest_first() {
    let archive = small_forum();
    assert_eq!(get_comments(&archive, 101, END), vec![2, 0]);
    assert_eq!(get_comments(&archive, 201, END), vec![1]);
    assert_eq!(get_comments(&archive, 102, END), Vec::<usize>::new());
    assert_eq!(get_comments(&archive, 101, "2021-01-05 10:00:00"), vec![2]);
}

#[test]
fn a_page_of_comments_shows_comments_authors_and_entries() {
    let mut archive = small_forum();
    archive.post_removals.push(removal(10, Some(101), "屏蔽", "2021-02-01 00:00:00"));
    archive.post_removals.push(removal(10, Some(102), "屏蔽", "2021-02-01 00:00:00"));
    archive.post_removals.push(removal(10, Some(101), "屏蔽", "2022-02-16 01:00:00"));
    let page = respond_comment(&archive, 101, 1, None).unwrap();
    let ids: Vec<i64> = page.comments.iter().map(|c| c.comment_id).collect();
    assert_eq!(ids, vec![9003, 9001]);
    let authors: Vec<i64> = page.users.iter().map(|u| u.user_id).collect();
    assert_eq!(authors, vec![1, 2]);
    assert_eq!(page.max_page, 1);
    assert_eq!(page.comments[0].content, text_payload("comment 9003"));
    assert_eq!(page.comments[0].time, "2021-01-01 12:00:00");
    assert_eq!(page.admin_logs, vec![AdminLog::Post(archive.post_removals[0].clone())]);
}

#[test]
fn comments_of_an_unknown_post_are_not_found() {
    let archive = small_forum();
    assert_eq!(respond_comment(&archive, 999, 1, None), Err(ArchiveError::NotFound));
}

#[test]
fn comments_are_listed_though_the_archive_lacks_their_post() {
    let mut archive = small_forum();
    archive.comments.push(comment(9009, 555, 1, "2021-09-09 09:09:09"));
    let page = respond_comment(&archive, 555, 1, None).unwrap();
    let ids: Vec<i64> = page.comments.iter().map(|c| c.comment_id).collect();
    assert_eq!(ids, vec![9009]);
    assert_eq!(page.max_page, 1);
    assert_eq!(respond_comment(&archive, 555, 2, None), Err(ArchiveError::NotFound));
    assert_eq!(
        respond_comment(&archive, 555, 1, Some("2021-09-09 09:09:09".to_string())),
        Err(ArchiveError::NotFound)
    );
}

#[test]
fn a_post_without_comments_has_an_empty_page_of_comments() {
    let archive = small_forum();
    let page = respond_comment(&archive, 102, 1, None).unwrap();
    assert!(page.comments.is_empty());
    assert!(page.users.is_empty());
    assert_eq!(page.max_page, 0);
    assert_eq!(respond_comment(&archive, 101, 2, None), Err(ArchiveError::NotFound));
}

#[test]
fn comments_come_ten_to_a_page() {
    let mut archive = small_forum();
    for n in 0..23 {
        archive.comments.push(comment(9100 + n, 102, 1, &format!("2021-02-01 10:00:{:02}", n)));
    }
    let page = respond_comment(&archive, 102, 3, None).unwrap();
    assert_eq!(page.max_page, 3);
    let ids: Vec<i64> = page.comments.iter().map(|c| c.comment_id).collect();
    assert_eq!(ids, vec![9120, 9121, 9122]);
    let preview = preview_comments(&archive, 102, END).unwrap();
    assert_eq!(preview.pages, 3);
    assert_eq!(preview.comments.len(), 10);
    assert_eq!(preview.comments[9].comment_id, 9109);
    assert_eq!(preview.users.len(), 10);
    let posts = respond_post(&archive, 10, 1, None).unwrap();
    assert_eq!(posts.comment_max_pages, vec![1, 3, 0]);
    assert_eq!(posts.comments[1].len(), 10);
    assert_eq!(posts.comments[0].len(), 2);
    assert_eq!(posts.comment_users[0][0].user_id, 1);
    assert_eq!(posts.comment_users[0][1].user_id, 2);
}

#[test]
fn a_page_of_posts_shows_the_thread_and_the_authors() {
    let mut archive = small_forum();
    archive.post_removals.push(removal(10, Some(102), "屏蔽", "2021-02-01 00:00:00"));
    archive.post_removals.push(removal(20, None, "屏蔽", "2021-02-01 00:00:00"));
    let page = respond_post(&archive, 10, 1, None).unwrap();
    assert_eq!(page.title, "first thread");
    assert_eq!(page.user_id, 1);
    assert_eq!(page.reply_num, 3);
    assert!(!page.is_good);
    assert_eq!(page.max_page, 1);
    let authors: Vec<&str> = page.users.iter().map(|u| u.nickname.as_str()).collect();
    assert_eq!(authors, vec!["alice", "bob", "carol"]);
    assert_eq!(page.posts[0].content, text_payload("post 101"));
    assert_eq!(page.posts[0].tail, Some("tail".to_string()));
    assert_eq!(page.posts[0].signature, None);
    assert_eq!(page.posts[2].time, "2021-01-04 10:00:00");
    assert_eq!(page.admin_logs, vec![AdminLog::Post(archive.post_removals[0].clone())]);
}

#[test]
fn the_thread_listing_shows_the_latest_activity_of_each_thread() {
    let archive = small_forum();
    let page = respond_thread(&archive, 1, None, None).unwrap();
    assert_eq!(page.max_page, 1);
    let ids: Vec<i64> = page.threads.iter().map(|t| t.thread_id).collect();
    assert_eq!(ids, vec![20, 10]);
    // thread 20: latest is the comment of user 3 on post 201
    assert_eq!(page.threads[0].time, "2021-01-06 10:00:00");
    assert_eq!(page.threads[0].user_id, 3);
    assert_eq!(page.threads[0].op_user_id, 2);
    assert_eq!(page.threads[0].title, "second thread");
    assert_eq!(page.threads[0].op_post_content, text_payload("post 201"));
    // thread 10: latest is the comment of user 2 on post 101
    assert_eq!(page.threads[1].time, "2021-01-05 10:00:00");
    assert_eq!(page.threads[1].user_id, 2);
    assert_eq!(page.threads[1].op_user_id, 1);
    assert_eq!(page.threads[1].op_post_content, text_payload("post 101"));
    let op: Vec<i64> = page.op_users.iter().map(|u| u.user_id).collect();
    let last: Vec<i64> = page.last_reply_users.iter().map(|u| u.user_id).collect();
    assert_eq!(op, vec![2, 1]);
    assert_eq!(last, vec![3, 2]);
}

#[test]
fn the_thread_listing_goes_back_in_time() {
    let archive = small_forum();
    let page = respond_thread(&archive, 1, Some("2021-01-04 00:00:00".to_string()), None).unwrap();
    let ids: Vec<i64> = page.threads.iter().map(|t| t.thread_id).collect();
    assert_eq!(ids, vec![20, 10]);
    assert_eq!(page.threads[0].time, "2021-01-03 10:00:00");
    assert_eq!(page.threads[1].time, "2021-01-02 10:00:00");
    let page = respond_thread(&archive, 1, Some("2021-01-03 00:00:00".to_string()), None).unwrap();
    let ids: Vec<i64> = page.threads.iter().map(|t| t.thread_id).collect();
    assert_eq!(ids, vec![10]);
    let page = respond_thread(&archive, 1, Some("2021-01-01 00:00:00".to_string()), None).unwrap();
    assert!(page.threads.is_empty());
    assert_eq!(page.max_page, 0);
    for thread in &respond_thread(&archive, 1, Some("2021-01-05 10:00:00".to_string()), None).unwrap().threads {
        assert!(thread.time.as_str() < "2021-01-05 10:00:00");
    }
}

#[test]
fn threads_active_at_the_same_time_are_listed_by_identifier() {
    let mut archive = empty_archive();
    archive.users.push(user(1, "alice"));
    for id in [30, 10, 20] {
        archive.threads.push(thread(id, "t", 1));
        archive.posts.push(post(id * 10, id, 1, 1, "2021-05-05 05:05:05"));
    }
    archive.threads.push(thread(5, "t", 1));
    archive.posts.push(post(50, 5, 1, 1, "2021-05-05 05:05:04"));
    let table = EntryTable::new(&archive);
    assert_eq!(get_threads(&table, END, "%%"), vec![1, 2, 0, 3]);
    let page = respond_thread(&archive, 1, None, None).unwrap();
    let ids: Vec<i64> = page.threads.iter().map(|t| t.thread_id).collect();
    assert_eq!(ids, vec![10, 20, 30, 5]);
}

#[test]
fn of_two_latest_activities_of_a_thread_the_first_entry_is_shown() {
    let mut archive = small_forum();
    archive.posts.push(post(104, 10, 4, 3, "2021-01-05 10:00:00"));
    let table = EntryTable::new(&archive);
    // entry 4 is post 104, entry 5 is comment 9001; both at the latest time of thread 10
    assert_eq!(get_threads(&table, END, "%%"), vec![6, 4]);
    let page = respond_thread(&archive, 1, None, None).unwrap();
    assert_eq!(page.threads[1].user_id, 3);
}

#[test]
fn the_keyword_selects_the_activities_that_hold_it() {
    let archive = small_forum();
    let page = respond_thread(&archive, 1, None, Some("comment 9002".to_string())).unwrap();
    let ids: Vec<i64> = page.threads.iter().map(|t| t.thread_id).collect();
    assert_eq!(ids, vec![20]);
    let page = respond_thread(&archive, 1, None, Some("post 10".to_string())).unwrap();
    let ids: Vec<i64> = page.threads.iter().map(|t| t.thread_id).collect();
    assert_eq!(ids, vec![10]);
    assert_eq!(page.threads[0].time, "2021-01-04 10:00:00");
    assert_eq!(page.threads[0].user_id, 3);
    let page = respond_thread(&archive, 1, None, Some("nowhere".to_string())).unwrap();
    assert!(page.threads.is_empty());
    assert_eq!(page.max_page, 0);
    let table = EntryTable::new(&archive);
    assert_eq!(get_threads(&table, END, "no pattern"), Vec::<usize>::new());
}

#[test]
fn threads_come_fifty_to_a_page() {
    let mut archive = empty_archive();
    archive.users.push(user(1, "alice"));
    for id in 1..=120 {
        archive.threads.push(thread(id, "t", 1));
        archive.posts.push(post(id, id, 1, 1, &format!("2021-05-05 05:{:02}:{:02}", id / 60, id % 60)));
    }
    let page = respond_thread(&archive, 3, None, None).unwrap();
    assert_eq!(page.max_page, 3);
    let ids: Vec<i64> = page.threads.iter().map(|t| t.thread_id).collect();
    assert_eq!(ids, (1..=20).rev().collect::<Vec<i64>>());
    let page = respond_thread(&archive, 1, None, None).unwrap();
    assert_eq!(page.threads.len(), 50);
    assert_eq!(page.threads[0].thread_id, 120);
    assert_eq!(respond_thread(&archive, 4, None, None), Err(ArchiveError::NotFound));
}

#[test]
fn a_comment_without_its_post_counts_for_no_thread() {
    let mut archive = small_forum();
    archive.comments.push(comment(9009, 555, 1, "2021-09-09 09:09:09"));
    let page = respond_thread(&archive, 1, None, None).unwrap();
    assert_eq!(page.threads[0].time, "2021-01-06 10:00:00");
    assert_eq!(page.threads.len(), 2);
}

#[test]
fn a_missing_author_is_a_data_inconsistency() {
    let mut archive = small_forum();
    archive.users.remove(2);
    assert_eq!(respond_post(&archive, 10, 1, None), Err(ArchiveError::DataInconsistency));
    assert_eq!(respond_thread(&archive, 1, None, None), Err(ArchiveError::DataInconsistency));
    assert_eq!(respond_comment(&archive, 201, 1, None), Err(ArchiveError::DataInconsistency));
    // before user 3 wrote anything the pages do not need the user
    assert!(respond_post(&archive, 10, 1, Some("2021-01-04 10:00:00".to_string())).is_ok());
}

#[test]
fn a_malformed_payload_is_a_data_inconsistency() {
    let mut archive = small_forum();
    archive.posts[1].content = "[{\"type\":".to_string();
    assert_eq!(respond_post(&archive, 10, 1, None), Err(ArchiveError::DataInconsistency));
    assert!(respond_post(&archive, 20, 1, None).is_ok());
    archive.comments[1].content = "not json".to_string();
    assert_eq!(respond_comment(&archive, 201, 1, None), Err(ArchiveError::DataInconsistency));
    assert_eq!(decode_payload("{"), Err(ArchiveError::DataInconsistency));
    assert_eq!(decode_payload(""), Err(ArchiveError::DataInconsistency));
}

#[test]
fn a_payload_is_decoded_into_its_document() {
    assert_eq!(decode_payload("null"), Ok(serde_json::Value::Null));
    assert_eq!(decode_payload(" [1, \"a\"] "), Ok(serde_json::Value::Array(vec![
        serde_json::Value::from(1),
        serde_json::Value::String("a".to_string()),
    ])));
    assert_eq!(
        decode_payload("[{\"type\":\"text\",\"content\":\"hello\"}]"),
        Ok(text_payload("hello"))
    );
    assert_eq!(decode_payload("\"[1]\""), Ok(serde_json::Value::String("[1]".to_string())));
}

#[test]
fn a_thread_without_opening_post_is_a_data_inconsistency() {
    let mut archive = small_forum();
    archive.posts[2].floor = 2;
    assert_eq!(respond_thread(&archive, 1, None, None), Err(ArchiveError::DataInconsistency));
    let mut archive = small_forum();
    archive.threads.remove(1);
    assert_eq!(respond_thread(&archive, 1, None, None), Err(ArchiveError::DataInconsistency));
}

#[test]
fn a_user_is_found_by_each_kind_of_clue() {
    let archive = small_forum();
    assert_eq!(find_user_by(&archive, UserType::UserId, "2"), Some(1));
    assert_eq!(find_user_by(&archive, UserType::UserId, "02"), Some(1));
    assert_eq!(find_user_by(&archive, UserType::UserId, "bob"), None);
    assert_eq!(find_user_by(&archive, UserType::UserId, "4"), None);
    assert_eq!(find_user_by(&archive, UserType::UserId, ""), None);
    assert_eq!(find_user_by(&archive, UserType::Username, "name1"), Some(0));
    assert_eq!(find_user_by(&archive, UserType::Username, "name3"), None);
    assert_eq!(find_user_by(&archive, UserType::Username, ""), None);
    assert_eq!(find_user_by(&archive, UserType::Nickname, "carol"), Some(2));
    assert_eq!(find_user_by(&archive, UserType::Nickname, "Carol"), None);
    assert_eq!(find_user_by(&archive, UserType::Avatar, "avatar2"), Some(1));
    assert_eq!(find_user_by(&archive, UserType::Avatar, "bob"), None);
    assert_eq!(get_user_metadata(&archive, UserType::Nickname, "bob"), Some(user(2, "bob")));
    assert_eq!(get_user_metadata(&archive, UserType::Nickname, "dave"), None);
}

#[test]
fn a_user_with_an_identifier_below_zero_is_found_by_it() {
    let mut archive = small_forum();
    archive.users.push(user(-5, "eve"));
    assert_eq!(find_user_by(&archive, UserType::UserId, "-5"), Some(3));
    assert_eq!(find_user_by(&archive, UserType::UserId, "-05"), Some(3));
    assert_eq!(find_user_by(&archive, UserType::UserId, "5"), None);
    assert_eq!(find_user_by(&archive, UserType::UserId, "-1"), None);
    assert_eq!(find_user_by(&archive, UserType::UserId, "-"), None);
    let page = respond_user(&archive, "id", "-5", 1, None).unwrap();
    assert_eq!(page.user.nickname, "eve");
    assert!(page.records.is_empty());
}

#[test]
fn the_payloads_of_an_archive_can_be_checked() {
    let mut archive = small_forum();
    assert!(check_payloads(&archive));
    assert!(check_payloads(&empty_archive()));
    archive.comments[2].content = "{\"open\":".to_string();
    assert!(!check_payloads(&archive));
    let mut archive = small_forum();
    archive.posts[0].content = String::new();
    assert!(!check_payloads(&archive));
}

#[test]
fn a_nickname_that_matches_no_user_is_not_found() {
    let archive = small_forum();
    assert_eq!(respond_user(&archive, "nickname", "nobody", 1, None), Err(ArchiveError::NotFound));
    assert_eq!(respond_user(&archive, "nickname", "", 1, None), Err(ArchiveError::NotFound));
    assert_eq!(respond_user(&archive, "id", "77", 1, None), Err(ArchiveError::NotFound));
}

#[test]
fn an_unknown_lookup_kind_is_unprocessable() {
    let archive = small_forum();
    for kind in ["", "email", "ID", "user_id", "nick"] {
        assert_eq!(
            respond_user(&archive, kind, "alice", 1, None),
            Err(ArchiveError::UnprocessableInput)
        );
    }
    assert_eq!(UserType::parse("id"), Ok(UserType::UserId));
    assert_eq!(UserType::parse("username"), Ok(UserType::Username));
    assert_eq!(UserType::parse("nickname"), Ok(UserType::Nickname));
    assert_eq!(UserType::parse("avatar"), Ok(UserType::Avatar));
}

#[test]
fn the_feed_of_a_user_lists_posts_and_comments_latest_first() {
    let archive = small_forum();
    let page = respond_user(&archive, "nickname", "alice", 1, None).unwrap();
    assert_eq!(page.user, user(1, "alice"));
    assert_eq!(page.max_page, 1);
    assert_eq!(page.records, vec![
        UserRecord::Comment {
            thread_id: 10,
            title: "first thread".to_string(),
            post_id: 101,
            floor: 1,
            post_content: text_payload("post 101"),
            comment_id: 9003,
            comment_content: text_payload("comment 9003"),
            time: "2021-01-01 12:00:00".to_string(),
        },
        UserRecord::Post {
            thread_id: 10,
            title: "first thread".to_string(),
            post_id: 101,
            floor: 1,
            post_content: text_payload("post 101"),
            time: "2021-01-01 10:00:00".to_string(),
        },
    ]);
    let page = respond_user(&archive, "id", "3", 1, None).unwrap();
    assert_eq!(page.user.username, None);
    assert_eq!(page.records.len(), 2);
    let page = respond_user(&archive, "id", "3", 1, Some("2021-01-06 10:00:00".to_string())).unwrap();
    assert_eq!(page.records.len(), 1);
    let page = respond_user(&archive, "avatar", "avatar2", 1, Some("2021-01-01 00:00:00".to_string())).unwrap();
    assert!(page.records.is_empty());
    assert_eq!(page.max_page, 0);
    assert_eq!(respond_user(&archive, "username", "name2", 2, None), Err(ArchiveError::NotFound));
}

#[test]
fn the_feed_leaves_out_the_posts_that_were_removed() {
    let mut archive = small_forum();
    archive.post_removals.push(removal(10, Some(101), DELETION, "2021-06-01 00:00:00"));
    let table = EntryTable::new(&archive);
    // entries of user 1: post 101 (entry 0) and comment 9003 on post 101 (entry 6)
    assert_eq!(get_user_records(&table, 1, "2021-06-01 00:00:00"), vec![6, 0]);
    assert_eq!(get_user_records(&table, 1, END), vec![6]);
    // user 2: post 102 (1), post 201 (2), comment 9001 on post 101 (4)
    assert_eq!(get_user_records(&table, 2, END), vec![4, 2, 1]);
    assert_eq!(get_user_records(&table, 2, "2021-06-01 00:00:00"), vec![4, 2, 1]);
}

#[test]
fn records_come_thirty_to_a_page() {
    let archive = long_thread();
    let page = respond_user(&archive, "id", "1", 5, None).unwrap();
    assert_eq!(page.max_page, 5);
    assert_eq!(page.records.len(), 5);
    match &page.records[4] {
        UserRecord::Post { floor, .. } => assert_eq!(*floor, 1),
        other => panic!("not a post: {:?}", other),
    }
    assert_eq!(respond_user(&archive, "id", "1", 6, None), Err(ArchiveError::NotFound));
}

#[test]
fn a_record_without_its_thread_is_a_data_inconsistency() {
    let mut archive = small_forum();
    archive.threads.remove(0);
    assert_eq!(respond_user(&archive, "id", "1", 1, None), Err(ArchiveError::DataInconsistency));
}

#[test]
fn rows_are_found_by_their_identifiers() {
    let archive = small_forum();
    assert_eq!(find_thread(&archive, 20), Some(1));
    assert_eq!(find_thread(&archive, 30), None);
    assert_eq!(find_post(&archive, 103), Some(3));
    assert_eq!(find_post(&archive, 104), None);
    assert_eq!(find_opening_post(&archive, 20), Some(2));
    assert_eq!(find_opening_post(&archive, 30), None);
    assert_eq!(find_user(&archive, 3), Some(2));
    assert_eq!(find_user(&archive, 0), None);
    assert_eq!(
        get_thread_metadata(&archive, 10),
        Some(ThreadMetadata { title: "first thread".to_string(), user_id: 1, reply_num: 3, is_good: false })
    );
    assert_eq!(get_thread_metadata(&archive, 11), None);
}

#[test]
fn the_first_of_several_rows_with_one_identifier_is_found() {
    let mut archive = small_forum();
    archive.users.push(user(2, "second bob"));
    archive.posts.push(post(101, 20, 1, 1, "2021-01-09 10:00:00"));
    assert_eq!(find_user(&archive, 2), Some(1));
    assert_eq!(find_post(&archive, 101), Some(0));
    assert_eq!(find_opening_post(&archive, 20), Some(2));
}

fn sanction(n: usize) -> UserSanction {
    UserSanction {
        avatar: format!("avatar{}", n),
        username: format!("name{}", n),
        operation: "封禁".to_string(),
        duration: "1天".to_string(),
        operator: "moderator".to_string(),
        operation_time: "2022-02-16 01:10:00".to_string(),
    }
}

fn board_action(n: usize) -> BoardAction {
    BoardAction {
        avatar: format!("avatar{}", n),
        username: format!("name{}", n),
        operation: "任命".to_string(),
        operator: None,
        operation_time: "2022-02-26 23:10:00".to_string(),
    }
}

#[test]
fn the_moderation_log_comes_fifty_to_a_page() {
    let mut archive = empty_archive();
    for n in 0..120 {
        archive.user_sanctions.push(sanction(n));
    }
    for n in 0..3 {
        archive.board_actions.push(board_action(n));
    }
    let logs = get_admin_logs(&archive, AdminLogCategory::User, 3, false);
    assert_eq!(logs.len(), 20);
    assert_eq!(logs[0], AdminLog::User(sanction(100)));
    assert_eq!(logs[19], AdminLog::User(sanction(119)));
    assert_eq!(get_admin_logs(&archive, AdminLogCategory::User, 1, true).len(), 50);
    assert!(get_admin_logs(&archive, AdminLogCategory::User, 4, false).is_empty());
    let logs = get_admin_logs(&archive, AdminLogCategory::Bawu, 1, true);
    assert_eq!(logs, vec![
        AdminLog::Bawu(board_action(0)),
        AdminLog::Bawu(board_action(1)),
        AdminLog::Bawu(board_action(2)),
    ]);
    assert!(get_admin_logs(&archive, AdminLogCategory::Post, 1, false).is_empty());
}

#[test]
fn the_log_of_removals_can_hide_the_incident_windows() {
    let mut archive = empty_archive();
    archive.post_removals.push(removal(1, None, DELETION, "2022-02-16 00:59:59"));
    archive.post_removals.push(removal(2, None, DELETION, "2022-02-16 01:00:00"));
    archive.post_removals.push(removal(3, Some(4), "恢复删贴", "2022-02-26 23:30:00"));
    archive.post_removals.push(removal(5, None, DELETION, "2022-02-27 00:00:00"));
    let all = get_admin_logs(&archive, AdminLogCategory::Post, 1, false);
    assert_eq!(all.len(), 4);
    let shown = get_admin_logs(&archive, AdminLogCategory::Post, 1, true);
    assert_eq!(shown, vec![
        AdminLog::Post(archive.post_removals[0].clone()),
        AdminLog::Post(archive.post_removals[3].clone()),
    ]);
    assert!(get_admin_logs(&archive, AdminLogCategory::Post, 2, true).is_empty());
}

#[test]
fn an_unknown_log_category_is_unprocessable() {
    let archive = empty_archive();
    for category in ["", "posts", "Post", "admin"] {
        assert_eq!(
            respond_admin_log(&archive, category, 1, false),
            Err(ArchiveError::UnprocessableInput)
        );
    }
    assert_eq!(respond_admin_log(&archive, "post", 1, true), Ok(Vec::new()));
    assert_eq!(respond_admin_log(&archive, "user", 7, false), Ok(Vec::new()));
    assert_eq!(respond_admin_log(&archive, "bawu", 1, false), Ok(Vec::new()));
    assert_eq!(AdminLogCategory::parse("post"), Ok(AdminLogCategory::Post));
    assert_eq!(AdminLogCategory::parse("user"), Ok(AdminLogCategory::User));
    assert_eq!(AdminLogCategory::parse("bawu"), Ok(AdminLogCategory::Bawu));
}

#[test]
fn the_entries_about_a_thread_or_a_post_are_those_before_the_cutoff() {
    let mut archive = small_forum();
    archive.post_removals.push(removal(10, Some(101), "屏蔽", "2021-02-01 00:00:00"));
    archive.post_removals.push(removal(10, None, "加精", "2021-03-01 00:00:00"));
    archive.post_removals.push(removal(20, Some(201), DELETION, "2021-03-01 00:00:00"));
    archive.post_removals.push(removal(10, Some(102), DELETION, "2022-02-26 23:01:00"));
    let of_thread = get_post_related_admin_logs(&archive, Some(10), None, END);
    assert_eq!(of_thread, vec![
        AdminLog::Post(archive.post_removals[0].clone()),
        AdminLog::Post(archive.post_removals[1].clone()),
    ]);
    let earlier = get_post_related_admin_logs(&archive, Some(10), Some(201), "2021-03-01 00:00:00");
    assert_eq!(earlier, vec![AdminLog::Post(archive.post_removals[0].clone())]);
    let of_post = get_post_related_admin_logs(&archive, None, Some(201), END);
    assert_eq!(of_post, vec![AdminLog::Post(archive.post_removals[2].clone())]);
    assert!(get_post_related_admin_logs(&archive, None, None, END).is_empty());
    assert!(get_post_related_admin_logs(&archive, None, Some(102), END).is_empty());
}

#[test]
fn the_same_request_gives_the_same_page() {
    let archive = small_forum();
    assert_eq!(respond_thread(&archive, 1, None, None), respond_thread(&archive, 1, None, None));
    assert_eq!(
        respond_post(&archive, 10, 1, Some("2021-01-03 00:00:00".to_string())),
        respond_post(&archive, 10, 1, Some("2021-01-03 00:00:00".to_string()))
    );
    assert_eq!(respond_user(&archive, "id", "1", 1, None), respond_user(&archive, "id", "1", 1, None));
}

#[test]
fn failures_are_recoverable_or_not() {
    assert!(ArchiveError::NotFound.is_recoverable());
    assert!(ArchiveError::UnprocessableInput.is_recoverable());
    assert!(!ArchiveError::StoreFailure.is_recoverable());
    assert!(!ArchiveError::DataInconsistency.is_recoverable());
}

#[test]
fn a_consistent_archive_answers_every_request() {
    let mut archive = small_forum();
    archive.post_removals.push(removal(10, Some(102), DELETION, "2021-02-01 00:00:00"));
    for cutoff in [None, Some("2021-01-03 12:00:00".to_string()), Some("2000-01-01 00:00:00".to_string())] {
        for page in 1..=3 {
            for result in [
                respond_thread(&archive, page, cutoff.clone(), None).err(),
                respond_post(&archive, 10, page, cutoff.clone()).err(),
                respond_post(&archive, 20, page, cutoff.clone()).err(),
                respond_comment(&archive, 101, page, cutoff.clone()).err(),
                respond_user(&archive, "id", "2", page, cutoff.clone()).err(),
            ] {
                assert!(result.is_none() || result == Some(ArchiveError::NotFound));
            }
        }
    }
}
