//! Online-time accounting: presence tracking, day splitting, log aggregation
//! and the small pieces of presentation logic around them.

pub mod aggregate;
pub mod bot;
pub mod format;
pub mod graphing;
pub mod model;
pub mod snapshot;
pub mod split;
pub mod stats;
pub mod store;
pub mod time;
