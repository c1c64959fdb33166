//! lager: a declarative local Git repository manager, as a verified library.
#![allow(unused_imports)]

pub mod address;
pub mod application;
pub mod commands;
pub mod config_file;
pub mod domain;
pub mod git_report;
pub mod inventory_view;
pub mod keys;
pub mod order;
pub mod paths;
pub mod picker;
pub mod presentation;
pub mod table;
pub mod providers;
pub mod scan;
pub mod terminal;
pub mod text;
