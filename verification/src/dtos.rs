//! The read-side records the renderer consumes and the write-side commands
//! a submission produces. All of them are plain data; persistence itself is
//! an outside collaborator.
use vstd::prelude::*;

verus! {

/// A board of the site.
#[derive(Debug, Clone)]
pub struct Board {
    /// The storage identifier.
    pub id: i32,
    /// The board's display title.
    pub name: String,
    /// The key under which clients address the board.
    pub board_key: String,
    /// The name shown for posters who give none.
    pub default_name: String,
}

/// A thread as the read path sees it.
#[derive(Debug, Clone)]
pub struct Thread {
    /// The storage identifier.
    pub id: String,
    /// The numeric key clients address the thread by.
    pub thread_key: i64,
    /// The board the thread belongs to.
    pub board_id: i32,
    /// The sanitized title.
    pub title: String,
    /// How many responses the thread holds.
    pub response_count: i32,
    /// The opener's address.
    pub ip_address: String,
    /// The opener's identity token.
    pub user_id: String,
    /// When the thread was opened, as text.
    pub created_at: String,
    /// The last update instant, in epoch seconds.
    pub update_unix_timestamp: i64,
    /// The opener's author id.
    pub author_id: String,
}

/// A response as the read path sees it.
#[derive(Debug, Clone)]
pub struct Res {
    /// The storage identifier.
    pub id: String,
    /// The thread the response belongs to.
    pub thread_id: String,
    /// The sanitized display name, trip applied.
    pub name: String,
    /// The sanitized mail field.
    pub mail: String,
    /// The sanitized body.
    pub body: String,
    /// The poster's author id.
    pub author_id: String,
    /// The submission stamp the post carries.
    pub date_text: String,
    /// The poster's address.
    pub ip_address: String,
    /// The poster's identity token.
    pub user_id: String,
    /// When the row was written, as text.
    pub created_at: String,
}

/// A registered poster.
#[derive(Debug, Clone)]
pub struct User {
    /// The storage identifier.
    pub id: String,
    /// The address the user registered from.
    pub ip_address: String,
    /// When the user registered, as text.
    pub created_at: String,
    /// Nonzero when the user is barred from posting.
    pub disabled: i32,
    /// The token that authenticates the user.
    pub user_hash: String,
}

/// The command that opens a thread, fully sanitized, built once per
/// submission and consumed once by persistence.
#[derive(Debug, Clone)]
pub struct CreatingThread {
    /// The board to open the thread on.
    pub board_id: i32,
    /// The sanitized title.
    pub title: String,
    /// The sanitized display name, trip applied.
    pub name: String,
    /// The sanitized mail.
    pub mail: String,
    /// The sanitized body.
    pub body: String,
    /// The submission stamp.
    pub date: String,
    /// The opener's author id.
    pub author_id: String,
    /// The opener's address.
    pub ip_addr: String,
    /// The opener's identity token.
    pub user_hash: String,
}

/// The command that posts a reply, fully sanitized, built once per
/// submission and consumed once by persistence.
#[derive(Debug, Clone)]
pub struct CreatingResponse {
    /// The board the target thread stands on.
    pub board_id: i32,
    /// The numeric key of the target thread.
    pub thread_key: i64,
    /// The sanitized display name, trip applied.
    pub name: String,
    /// The sanitized mail.
    pub mail: String,
    /// The sanitized body.
    pub body: String,
    /// The submission stamp.
    pub date: String,
    /// The poster's author id.
    pub author_id: String,
    /// The poster's address.
    pub ip_addr: String,
    /// The poster's identity token.
    pub user_hash: String,
}

} // verus!
