//! Lookups of single rows by their identifying fields.
//!
//! Where several rows carry the same identifier the first one in stored
//! order is the row that the identifier denotes.

use vstd::prelude::*;
use crate::model::{Archive, StoredPost, StoredThread, ThreadMetadata, User};
use crate::request::UserType;
use crate::text::{decimal_i64, parse_decimal, signed_value, str_equal};

verus! {

/// A position found by a search, as the search's specification names it.
pub open spec fn found_at(position: Option<usize>) -> Option<int> {
    match position {
        Some(i) => Some(i as int),
        None => None,
    }
}

/// The first position at which `key` stands is the position that
/// `index_of_first` gives.
pub proof fn lemma_first_index<K>(keys: Seq<K>, key: K, i: int)
    requires
        0 <= i < keys.len(),
        keys[i] == key,
        forall|j: int| 0 <= j < i ==> keys[j] != key,
    ensures
        keys.index_of_first(key) == Some(i),
{
    keys.index_of_first_ensures(key);
    assert(keys.contains(key));
}

/// A key that stands nowhere has no first position.
pub proof fn lemma_no_index<K>(keys: Seq<K>, key: K)
    requires
        forall|j: int| 0 <= j < keys.len() ==> keys[j] != key,
    ensures
        keys.index_of_first(key) is None,
{
    keys.index_of_first_ensures(key);
}

/// Position of the thread with identifier `thread_id`.
pub open spec fn thread_position(archive: Archive, thread_id: i64) -> Option<int> {
    archive.threads@.map_values(|t: StoredThread| t.thread_id).index_of_first(thread_id)
}

/// Position of the post with identifier `post_id`.
pub open spec fn post_position(archive: Archive, post_id: i64) -> Option<int> {
    archive.posts@.map_values(|p: StoredPost| p.post_id).index_of_first(post_id)
}

/// Position of the opening post of thread `thread_id`: its post on floor 1.
pub open spec fn opening_post_position(archive: Archive, thread_id: i64) -> Option<int> {
    archive.posts@.map_values(|p: StoredPost| (p.thread_id, p.floor)).index_of_first(
        (thread_id, 1i32),
    )
}

/// Position of the user with identifier `user_id`.
pub open spec fn user_position(archive: Archive, user_id: i64) -> Option<int> {
    archive.users@.map_values(|u: User| u.user_id).index_of_first(user_id)
}

/// Whether `clue` denotes `user` when users are looked up by `kind`. An
/// identifier is written in decimal digits, after a `-` where it is below
/// zero; a user without username is found by no username.
pub open spec fn user_matches(user: User, kind: UserType, clue: Seq<char>) -> bool {
    match kind {
        UserType::UserId => signed_value(clue) == Some(user.user_id as int),
        UserType::Username => user.username matches Some(name) && name@ == clue,
        UserType::Nickname => user.nickname@ == clue,
        UserType::Avatar => user.avatar@ == clue,
    }
}

/// Position of the user that `clue` denotes when users are looked up by
/// `kind`.
pub open spec fn user_position_by(archive: Archive, kind: UserType, clue: Seq<char>) -> Option<
    int,
> {
    archive.users@.map_values(|u: User| user_matches(u, kind, clue)).index_of_first(true)
}

/// The user at a position, if there is a position.
pub open spec fn user_at(archive: Archive, position: Option<int>) -> Option<User> {
    match position {
        Some(i) => Some(archive.users[i]),
        None => None,
    }
}

/// What a thread's page shows of the thread at a position.
pub open spec fn metadata_at(archive: Archive, position: Option<int>) -> Option<ThreadMetadata> {
    match position {
        Some(i) => Some(
            ThreadMetadata {
                title: archive.threads[i].title,
                user_id: archive.threads[i].user_id,
                reply_num: archive.threads[i].reply_num,
                is_good: archive.threads[i].is_good,
            },
        ),
        None => None,
    }
}

/// Finds the thread with identifier `thread_id`.
pub fn find_thread(archive: &Archive, thread_id: i64) -> (r: Option<usize>)
    ensures
        found_at(r) == thread_position(*archive, thread_id),
        r matches Some(i) ==> i < archive.threads.len() && archive.threads[i as int].thread_id
            == thread_id,
{
    let ghost keys = archive.threads@.map_values(|t: StoredThread| t.thread_id);
    let mut i: usize = 0;
    while i < archive.threads.len()
        invariant
            i <= archive.threads.len(),
            keys == archive.threads@.map_values(|t: StoredThread| t.thread_id),
            forall|j: int| 0 <= j < i ==> keys[j] != thread_id,
        decreases archive.threads.len() - i,
    {
        if archive.threads[i].thread_id == thread_id {
            proof {
                lemma_first_index(keys, thread_id, i as int);
            }
            return Some(i);
        }
        i += 1;
    }
    proof {
        lemma_no_index(keys, thread_id);
    }
    None
}

/// Finds the post with identifier `post_id`.
pub fn find_post(archive: &Archive, post_id: i64) -> (r: Option<usize>)
    ensures
        found_at(r) == post_position(*archive, post_id),
        r matches Some(i) ==> i < archive.posts.len() && archive.posts[i as int].post_id == post_id,
{
    let ghost keys = archive.posts@.map_values(|p: StoredPost| p.post_id);
    let mut i: usize = 0;
    while i < archive.posts.len()
        invariant
            i <= archive.posts.len(),
            keys == archive.posts@.map_values(|p: StoredPost| p.post_id),
            forall|j: int| 0 <= j < i ==> keys[j] != post_id,
        decreases archive.posts.len() - i,
    {
        if archive.posts[i].post_id == post_id {
            proof {
                lemma_first_index(keys, post_id, i as int);
            }
            return Some(i);
        }
        i += 1;
    }
    proof {
        lemma_no_index(keys, post_id);
    }
    None
}

/// Finds the opening post of thread `thread_id`.
pub fn find_opening_post(archive: &Archive, thread_id: i64) -> (r: Option<usize>)
    ensures
        found_at(r) == opening_post_position(*archive, thread_id),
        r matches Some(i) ==> i < archive.posts.len() && archive.posts[i as int].thread_id
            == thread_id && archive.posts[i as int].floor == 1,
{
    let ghost keys = archive.posts@.map_values(|p: StoredPost| (p.thread_id, p.floor));
    let mut i: usize = 0;
    while i < archive.posts.len()
        invariant
            i <= archive.posts.len(),
            keys == archive.posts@.map_values(|p: StoredPost| (p.thread_id, p.floor)),
            forall|j: int| 0 <= j < i ==> keys[j] != (thread_id, 1i32),
        decreases archive.posts.len() - i,
    {
        if archive.posts[i].thread_id == thread_id && archive.posts[i].floor == 1 {
            proof {
                lemma_first_index(keys, (thread_id, 1i32), i as int);
            }
            return Some(i);
        }
        i += 1;
    }
    proof {
        lemma_no_index(keys, (thread_id, 1i32));
    }
    None
}

/// Finds the user with identifier `user_id`.
pub fn find_user(archive: &Archive, user_id: i64) -> (r: Option<usize>)
    ensures
        found_at(r) == user_position(*archive, user_id),
        r matches Some(i) ==> i < archive.users.len() && archive.users[i as int].user_id == user_id,
{
    let ghost keys = archive.users@.map_values(|u: User| u.user_id);
    let mut i: usize = 0;
    while i < archive.users.len()
        invariant
            i <= archive.users.len(),
            keys == archive.users@.map_values(|u: User| u.user_id),
            forall|j: int| 0 <= j < i ==> keys[j] != user_id,
        decreases archive.users.len() - i,
    {
        if archive.users[i].user_id == user_id {
            proof {
                lemma_first_index(keys, user_id, i as int);
            }
            return Some(i);
        }
        i += 1;
    }
    proof {
        lemma_no_index(keys, user_id);
    }
    None
}

/// Whether `clue` denotes `user` when users are looked up by `kind`, given
/// the number that the clue writes.
fn clue_denotes(user: &User, kind: UserType, clue: &str, number: Option<i64>) -> (r: bool)
    requires
        number == decimal_i64(clue@),
    ensures
        r == user_matches(*user, kind, clue@),
{
    match kind {
        UserType::UserId => match number {
            Some(id) => user.user_id == id,
            None => false,
        },
        UserType::Username => match &user.username {
            Some(name) => str_equal(name.as_str(), clue),
            None => false,
        },
        UserType::Nickname => str_equal(user.nickname.as_str(), clue),
        UserType::Avatar => str_equal(user.avatar.as_str(), clue),
    }
}

/// Finds the user that `clue` denotes when users are looked up by `kind`.
pub fn find_user_by(archive: &Archive, kind: UserType, clue: &str) -> (r: Option<usize>)
    ensures
        found_at(r) == user_position_by(*archive, kind, clue@),
        r matches Some(i) ==> i < archive.users.len(),
{
    let number = parse_decimal(clue);
    let ghost keys = archive.users@.map_values(|u: User| user_matches(u, kind, clue@));
    let mut i: usize = 0;
    while i < archive.users.len()
        invariant
            i <= archive.users.len(),
            keys == archive.users@.map_values(|u: User| user_matches(u, kind, clue@)),
            number == decimal_i64(clue@),
            forall|j: int| 0 <= j < i ==> keys[j] != true,
        decreases archive.users.len() - i,
    {
        if clue_denotes(&archive.users[i], kind, clue, number) {
            proof {
                lemma_first_index(keys, true, i as int);
            }
            return Some(i);
        }
        i += 1;
    }
    proof {
        lemma_no_index(keys, true);
    }
    None
}

/// The user that `user_clue` denotes when users are looked up by
/// `user_type`, or `None` where it denotes no user.
pub fn get_user_metadata(archive: &Archive, user_type: UserType, user_clue: &str) -> (r: Option<
    User,
>)
    ensures
        r == user_at(*archive, user_position_by(*archive, user_type, user_clue@)),
{
    match find_user_by(archive, user_type, user_clue) {
        Some(i) => Some(archive.users[i].clone()),
        None => None,
    }
}

/// What a thread's page shows of thread `thread_id`, or `None` where the
/// archive holds no such thread.
pub fn get_thread_metadata(archive: &Archive, thread_id: i64) -> (r: Option<ThreadMetadata>)
    ensures
        r == metadata_at(*archive, thread_position(*archive, thread_id)),
{
    match find_thread(archive, thread_id) {
        Some(i) => {
            let thread = &archive.threads[i];
            Some(
                ThreadMetadata {
                    title: thread.title.clone(),
                    user_id: thread.user_id,
                    reply_num: thread.reply_num,
                    is_good: thread.is_good,
                },
            )
        },
        None => None,
    }
}

} // verus!
