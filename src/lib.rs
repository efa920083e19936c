//! A buffer of fetched article bodies that a background worker fills while a
//! consumer polls it without blocking.
pub mod article;
pub mod ids;
pub mod request;
