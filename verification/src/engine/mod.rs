//! Running a conversation.
pub mod explore;
pub mod session;
pub mod stream;
