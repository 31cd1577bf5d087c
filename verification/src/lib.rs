//! Core of an internal file-sharing service: resumable chunked uploads,
//! collision-free storage naming, metadata records with listing and
//! statistics, and the two-step commit that keeps the stored files and the
//! metadata table consistent with each other.

pub mod api;
pub mod clock;
pub mod config;
pub mod engine;
pub mod error;
pub mod intervals;
pub mod ids;
pub mod storage;
pub mod store;
pub mod tracker;
pub mod video;
pub mod web;
