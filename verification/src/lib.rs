//! Kith: a local-first family-tree manager's domain core.

pub mod error;
pub mod num;
pub mod text;
pub mod ids;
pub mod enums;
pub mod date;
pub mod records;
pub mod gedcom;
pub mod lb;
pub mod db;
pub mod layout;
pub mod cli;
pub mod output;
pub mod tables;
pub mod views;
pub mod walk;
pub mod network;
pub mod commands;
