//! A client library for a reading service's notebook API: it decodes the
//! service's JSON responses, resolves chapter outline levels, groups
//! highlights by chapter and renders them as a heading-structured text.

pub mod error;
pub mod text;
pub mod json;
pub mod outline;
pub mod annotations;
pub mod render;
pub mod group;
pub mod export;
pub mod shelf;
pub mod session;
