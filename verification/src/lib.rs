//! Core logic of the YSH social streaming platform: locale formatting and
//! translation, encrypted page storage, cache entry encoding, configuration
//! defaults, account rules, wallet economy rules and actor state machines.

pub mod text;
pub mod i18n;
pub mod encryption;
pub mod cache;
pub mod config;
pub mod actors;
pub mod health;
pub mod model;
pub mod ai;
pub mod auth;
pub mod economy;
pub mod api;
pub mod procfs;
