pub mod api;
pub mod config;
pub mod db;
pub mod exec;
pub mod fields;
pub mod management;
pub mod memory;
pub mod paging;
pub mod query;
pub mod seqs;
pub mod settings;
pub mod text;
pub mod tools;
pub mod web_admin;
