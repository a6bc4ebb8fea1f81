//! A plan/apply pipeline for organizing a media library into a
//! date-structured export tree. The plan phase classifies walked files,
//! resolves capture dates, groups byte-identical duplicates, and emits an
//! ordered manifest of planned items; the apply phase's decisions replay
//! that manifest with duplicate and already-exists short-circuiting.
pub mod apply;
pub mod classify;
pub mod dvd;
pub mod hash;
pub mod paths;
pub mod plan;
pub mod text;
pub mod time;
pub mod video_meta;
