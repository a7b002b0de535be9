//! Types the request handlers hand to the core: the authenticated
//! caller, handler inputs, the policy errors, and the permission rules on
//! user-generated content.

use vstd::prelude::*;

use crate::post::{Comment, Post};

verus! {

/// The authenticated caller of an operation. A temporary user has no
/// numeric id and acts through the fingerprint alone.
pub struct CurrentUser {
    pub id: Option<i32>,
    pub namehash: String,
    pub is_admin: bool,
    pub is_candidate: bool,
    pub custom_title: Option<String>,
    pub title_secret: Option<String>,
    pub auto_block_rank: u8,
}

/// Why an operation was refused by policy rather than by the store.
#[derive(Clone, Copy, Debug, PartialEq, Eq, Structural)]
pub enum PolicyError {
    IsReported,
    IsDeleted,
    NotAllowed,
    TitleUsed,
    TitleProtected,
    InvalidTitle,
    YouAreTmp,
    NoReason,
    UnknownPushEndpoint,
}

pub fn catch_401_error() -> (r: &'static str)
    ensures
        r@ == "未登录或token过期"@,
{
    "未登录或token过期"
}

pub fn catch_403_error() -> (r: &'static str)
    ensures
        r@ == "可能被封禁了，等下次重置吧"@,
{
    "可能被封禁了，等下次重置吧"
}

pub fn catch_404_error() -> (r: &'static str)
    ensures
        r@ == "请更新前端版本"@,
{
    "请更新前端版本"
}

/// Which access a permission check asks for: reading, operating on a
/// reported item, writing as the author, deleting.
pub struct PermissionCheck {
    pub read: bool,
    pub report_guard: bool,
    pub write: bool,
    pub delete: bool,
}

/// The permission rule shared by posts and comments: administrators may
/// do anything; reading fails on deleted content; operating fails on
/// reported content; writing is the author's alone; deleting also needs
/// the item's own deletability.
pub open spec fn spec_check_permission(
    is_admin: bool,
    viewer_hash: Seq<char>,
    author_hash: Seq<char>,
    is_deleted: bool,
    is_reported: bool,
    deletable: bool,
    m: PermissionCheck,
) -> Result<(), PolicyError> {
    if is_admin {
        Result::Ok(())
    } else if m.read && is_deleted {
        Result::Err(PolicyError::IsDeleted)
    } else if m.report_guard && is_reported {
        Result::Err(PolicyError::IsReported)
    } else if m.write && viewer_hash != author_hash {
        Result::Err(PolicyError::NotAllowed)
    } else if m.delete && !deletable {
        Result::Err(PolicyError::NotAllowed)
    } else {
        Result::Ok(())
    }
}

fn check_permission_parts(
    is_admin: bool,
    viewer_hash: &String,
    author_hash: &String,
    is_deleted: bool,
    is_reported: bool,
    deletable: bool,
    m: PermissionCheck,
) -> (r: Result<(), PolicyError>)
    ensures
        r == spec_check_permission(
            is_admin,
            viewer_hash@,
            author_hash@,
            is_deleted,
            is_reported,
            deletable,
            m,
        ),
{
    if is_admin {
        Result::Ok(())
    } else if m.read && is_deleted {
        Result::Err(PolicyError::IsDeleted)
    } else if m.report_guard && is_reported {
        Result::Err(PolicyError::IsReported)
    } else if m.write && !(*viewer_hash == *author_hash) {
        Result::Err(PolicyError::NotAllowed)
    } else if m.delete && !deletable {
        Result::Err(PolicyError::NotAllowed)
    } else {
        Result::Ok(())
    }
}

impl Post {
    /// A post may be deleted through the normal flow unless it lives in
    /// the special report room.
    pub open spec fn spec_deletable(self) -> bool {
        self.room_id != 42
    }

    pub fn check_permission(&self, user: &CurrentUser, m: PermissionCheck) -> (r: Result<
        (),
        PolicyError,
    >)
        ensures
            r == spec_check_permission(
                user.is_admin,
                user.namehash@,
                self.author_hash@,
                self.is_deleted,
                self.is_reported,
                self.spec_deletable(),
                m,
            ),
    {
        check_permission_parts(
            user.is_admin,
            &user.namehash,
            &self.author_hash,
            self.is_deleted,
            self.is_reported,
            self.room_id != 42,
            m,
        )
    }
}

impl Comment {
    pub fn check_permission(&self, user: &CurrentUser, m: PermissionCheck) -> (r: Result<
        (),
        PolicyError,
    >)
        ensures
            r == spec_check_permission(
                user.is_admin,
                user.namehash@,
                self.author_hash@,
                self.is_deleted,
                false,
                true,
                m,
            ),
    {
        check_permission_parts(
            user.is_admin,
            &user.namehash,
            &self.author_hash,
            self.is_deleted,
            false,
            true,
            m,
        )
    }
}

/// Toggle a user's attention to a post.
pub struct AttentionInput {
    pub pid: i32,
    pub switch: i32,
}

/// Submit a comment under a post.
pub struct CommentInput {
    pub text: String,
    pub use_title: Option<i8>,
}

/// Soft-delete a post or a comment.
pub struct DeleteInput {
    pub id_type: String,
    pub id: i32,
    pub note: String,
}

/// Report a post for moderation.
pub struct ReportInput {
    pub pid: i32,
    pub reason: String,
    pub should_hide: Option<u8>,
}

/// Hide everything a post's or comment's author wrote, for this viewer.
pub struct BlockInput {
    pub content_type: String,
    pub id: i32,
}

/// Claim a custom display title.
pub struct TitleInput {
    pub title: String,
}

/// Set the viewer's auto-hide threshold rank.
pub struct AutoBlockInput {
    pub rank: u8,
}

/// Publish a post.
pub struct PostInput {
    pub text: String,
    pub cw: String,
    pub allow_search: Option<i8>,
    pub use_title: Option<i8>,
    pub poll_options: Vec<String>,
    pub room_id: Option<i32>,
}

/// Change a post's content-warning label.
pub struct CwInput {
    pub pid: i32,
    pub cw: String,
}

/// Up- or down-vote reaction on a post.
pub struct ReactionInput {
    pub status: i32,
}

/// Cast a poll vote.
pub struct VoteInput {
    pub pid: i32,
    pub vote: String,
}

/// Subscribe to or drop browser push notifications; the push delivery
/// itself is an external collaborator's job.
pub struct NotificatinInput {
    pub enable: bool,
    pub endpoint: String,
    pub auth: String,
    pub p256dh: String,
}

/// The referring page of a login request.
pub struct RefHeader(pub String);

/// The allowed frontend origins for cross-origin responses.
pub struct Cors {
    pub whitelist: Vec<String>,
}

} // verus!
