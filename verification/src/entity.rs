//! Plain records exchanged with the persistence layer.
//!
//! The database itself is an external collaborator; these are the
//! values its rows are turned into before any logic sees them.

use vstd::prelude::*;

verus! {

/// A registered site user.
pub struct User {
    pub name: String,
    pub is_admin: u32,
}

/// The identifying header of a blog post.
pub struct PostIdent {
    /// Post ID.
    pub id: u32,
    /// Post title.
    pub title: String,
    /// Timestamp when it was created
    /// (ms since Unix epoch - but only accurate to the second).
    pub created: i64,
}

/// A full blog post.
pub struct Post {
    /// Post ident info.
    pub ident: PostIdent,
    /// Markdown content.
    pub content: String,
    /// Timestamp when it was last updated
    /// (ms since Unix epoch - but only accurate to the second).
    pub updated: i64,
}

} // verus!
