//! Point-in-time resolution and pagination of an archived forum.
//!
//! The archive holds the threads, posts, comments, users and moderation log
//! of a forum. Every listing can be asked for the state of the forum at a
//! past instant: content made at or after the instant is left out, and so
//! is content that a moderation entry in effect at the instant removes.
//!
//! A request is resolved in a fixed order. `temporal` resolves its cutoff,
//! `visibility` decides what survives moderation, the modules of the
//! resources (`threads`, `posts`, `comments`, `records`, `logs`) list the
//! full ordered candidate set with the help of `relation`, `pagination`
//! slices the set, and `join` attaches users and decoded contents to the rows
//! of the requested page. `pages` says what the page of a request holds, and
//! `respond` answers requests.

pub mod error;
pub mod text;
pub mod temporal;
pub mod keyword;
pub mod pagination;
pub mod relation;
pub mod payload;
pub mod model;
pub mod request;
pub mod visibility;
pub mod lookup;
pub mod index;
pub mod posts;
pub mod comments;
pub mod logs;
pub mod entries;
pub mod records;
pub mod threads;
pub mod join;
pub mod pages;
pub mod laws;
pub mod consistency;
pub mod respond;
