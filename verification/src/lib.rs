//! Verified core of a cloud-drive resource search service.
pub mod text;
pub mod constants;
pub mod model;
pub mod service;
pub mod handlers;
pub mod pages;
pub mod templates;
pub mod seo;
pub mod clock;
pub mod pattern;
pub mod html;
pub mod resource_cache;
pub mod config;
pub mod auth;
pub mod assets;
pub mod plugin;
