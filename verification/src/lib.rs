//! Fetches a bounded number of a user's saved posts from a paginated listing, within
//! the quota that the server reports, and plans the media files to store for each post.
//!
//! The library decides and computes; it neither sleeps, nor sends, nor writes. Its
//! caller reads the clock, performs each request and each write that the library
//! asks for, and hands back what came of it.

pub mod digest;
pub mod downloader;
pub mod models;
pub mod pagination;
pub mod rate_limiter;
pub mod reddit_client;
pub mod text;
