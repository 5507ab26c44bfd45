//! A small web crawler's decision logic.

pub mod text;
pub mod messages;
pub mod robots;
pub mod string_set;
pub mod domain;
pub mod frontier;
pub mod crawler;
