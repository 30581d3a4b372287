//! A persistent memoization layer for expensive fetches, with per-resource
//! pacing, and the site-specific record building that sits on top of it.
pub mod context;
pub mod digest;
pub mod memo;
pub mod parse;
pub mod site;
pub mod text;
pub mod throttle;
