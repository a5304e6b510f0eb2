//! Verified core of an offline speech-recording desktop application.
pub mod capture;
pub mod civil;
pub mod paths;
pub mod protocol;
pub mod sessions;
pub mod stream;
pub mod text;
pub mod timestamp;
