//! Safety rules, plan builders and parsers for a disk-cleanup tool.

pub mod advisor;
pub mod commands;
pub mod dedup;
pub mod elevate;
pub mod guard;
pub mod inventory;
pub mod json;
pub mod sort;
pub mod system_ops;
pub mod text;
pub mod tree;
