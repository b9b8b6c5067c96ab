pub mod auth;
pub mod client;
pub mod commands;
pub mod dto;
pub mod error;
pub mod fields;
pub mod insights;
pub mod json;
pub mod laws;
pub mod mapper;
pub mod model;
pub mod order;
pub mod pattern;
pub mod progress;
pub mod search;
pub mod spillover;
pub mod sprint_naming;
pub mod store;
pub mod text;
pub mod time;
pub mod timeline;
