//! Filtering of COFF static-library archives: read an archive, classify each
//! member, split the members by a policy and write the kept (and optionally
//! the excluded) members back out as archives.

pub mod member;
pub mod partition;
pub mod classify;
pub mod codec;
pub mod encode;
pub mod indexing;
pub mod pipeline;
