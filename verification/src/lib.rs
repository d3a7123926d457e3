//! Completion engine for artisan commands: line analysis, option and value
//! lookup, catalogs of well-known project values and their cache formats.

pub mod text;
pub mod line;
pub mod values;
pub mod wellknown;
pub mod command;
pub mod args;
pub mod cache;
pub mod php;
pub mod tree;
pub mod extract;
pub mod enums;
pub mod rules;
pub mod collect;
pub mod bytes;
pub mod sorted;
pub mod scan;
pub mod config;
pub mod routes;
pub mod testscan;
pub mod project;
pub mod native;

