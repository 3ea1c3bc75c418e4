//! Rate limiting over a shared counter store: the rules that pick the limit
//! for a request, the counter that admits or rejects it, and the bookkeeping
//! that keeps each instance's dynamic rules in step with the store.

pub mod api;
pub mod command;
pub mod conf;
pub mod limiter;
pub mod redlimit;
pub mod redlist;
pub mod redrules;
pub mod sync;
pub mod table;
pub mod text;
