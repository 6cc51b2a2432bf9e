//! The closed sets of values that a request names in its path.

use vstd::prelude::*;
use crate::error::ArchiveError;
use crate::text::str_equal;

verus! {

/// The name of the lookup by identifier.
pub const LOOKUP_BY_ID: &'static str = "id";

/// The name of the lookup by username.
pub const LOOKUP_BY_USERNAME: &'static str = "username";

/// The name of the lookup by nickname.
pub const LOOKUP_BY_NICKNAME: &'static str = "nickname";

/// The name of the lookup by avatar.
pub const LOOKUP_BY_AVATAR: &'static str = "avatar";

/// The name of the log of actions on threads and posts.
pub const CATEGORY_POST: &'static str = "post";

/// The name of the log of sanctions against users.
pub const CATEGORY_USER: &'static str = "user";

/// The name of the log of actions on the board's moderators.
pub const CATEGORY_BAWU: &'static str = "bawu";

/// By which of its fields a user is looked up.
#[derive(Debug, Clone, Copy, PartialEq, Eq, Structural)]
pub enum UserType {
    UserId,
    Username,
    Nickname,
    Avatar,
}

/// A category of the moderation log.
#[derive(Debug, Clone, Copy, PartialEq, Eq, Structural)]
pub enum AdminLogCategory {
    User,
    Post,
    Bawu,
}

/// The lookup kind that `name` denotes.
pub open spec fn user_type_named(name: Seq<char>) -> Option<UserType> {
    if name == LOOKUP_BY_ID@ {
        Some(UserType::UserId)
    } else if name == LOOKUP_BY_USERNAME@ {
        Some(UserType::Username)
    } else if name == LOOKUP_BY_NICKNAME@ {
        Some(UserType::Nickname)
    } else if name == LOOKUP_BY_AVATAR@ {
        Some(UserType::Avatar)
    } else {
        None
    }
}

/// The log category that `name` denotes.
pub open spec fn category_named(name: Seq<char>) -> Option<AdminLogCategory> {
    if name == CATEGORY_POST@ {
        Some(AdminLogCategory::Post)
    } else if name == CATEGORY_USER@ {
        Some(AdminLogCategory::User)
    } else if name == CATEGORY_BAWU@ {
        Some(AdminLogCategory::Bawu)
    } else {
        None
    }
}

/// What a name that may denote a value resolves to: the value, or
/// `UnprocessableInput`.
pub open spec fn recognized<T>(value: Option<T>) -> Result<T, ArchiveError> {
    match value {
        Some(v) => Ok(v),
        None => Err(ArchiveError::UnprocessableInput),
    }
}

impl UserType {
    /// Reads a lookup kind. A name that is none of the four kinds is
    /// `UnprocessableInput`.
    pub fn parse(name: &str) -> (r: Result<UserType, ArchiveError>)
        ensures
            r == recognized(user_type_named(name@)),
    {
        if str_equal(name, LOOKUP_BY_ID) {
            Ok(UserType::UserId)
        } else if str_equal(name, LOOKUP_BY_USERNAME) {
            Ok(UserType::Username)
        } else if str_equal(name, LOOKUP_BY_NICKNAME) {
            Ok(UserType::Nickname)
        } else if str_equal(name, LOOKUP_BY_AVATAR) {
            Ok(UserType::Avatar)
        } else {
            Err(ArchiveError::UnprocessableInput)
        }
    }
}

impl AdminLogCategory {
    /// Reads a log category. A name that is none of the three categories is
    /// `UnprocessableInput`.
    pub fn parse(name: &str) -> (r: Result<AdminLogCategory, ArchiveError>)
        ensures
            r == recognized(category_named(name@)),
    {
        if str_equal(name, CATEGORY_POST) {
            Ok(AdminLogCategory::Post)
        } else if str_equal(name, CATEGORY_USER) {
            Ok(AdminLogCategory::User)
        } else if str_equal(name, CATEGORY_BAWU) {
            Ok(AdminLogCategory::Bawu)
        } else {
            Err(ArchiveError::UnprocessableInput)
        }
    }
}

} // verus!
