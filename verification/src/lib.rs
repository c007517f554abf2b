//! Verified core of a headless wiki server.
pub mod chat;
pub mod context;
pub mod extract;
pub mod files;
pub mod graph;
pub mod images;
pub mod json;
pub mod listing;
pub mod mode;
pub mod order;
pub mod paths;
pub mod projects;
pub mod resolve;
pub mod response;
pub mod route;
pub mod scope;
pub mod scope_check;
pub mod search;
pub mod startup;
pub mod text;
pub mod upload;
pub mod url;
pub mod vectors;
