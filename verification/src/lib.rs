pub mod auth;
pub mod cli;
pub mod codec;
pub mod config;
pub mod error;
pub mod json;
pub mod manager;
pub mod order;
pub mod protocol;
pub mod registry;
pub mod response;
pub mod runtime;
pub mod stderr;
pub mod text;
pub mod validate;
