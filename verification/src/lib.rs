//! Coordination core of a collaborative sentence-mixing editor.
//!
//! A group of connected clients jointly edits shared projects: ordered lists
//! of text segments, each backed by a chosen phoneme-level interpretation of
//! its sentence. This crate holds the state and the rules: the session
//! registry, the project store, the per-video download state machine, the
//! memoizing analysis cache, and the pure helpers (artifact naming, segment
//! hashing, clip scheduling). Every operation validates its inputs, applies
//! the mutation, and reports exactly which message must go to which sessions;
//! the transport and the external tools live outside this crate.

pub mod cache;
pub mod data;
pub mod downloader;
pub mod error;
pub mod messages;
pub mod outside;
pub mod renderer;
pub mod sm_actor;
pub mod text;
