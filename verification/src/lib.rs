//! The logic of an embedded SQL database: catalog, statements, transactions and display.
#![allow(unused_imports)]
pub mod access;
pub mod alter;
pub mod box_drawing;
pub mod buffers;
pub mod catalog;
pub mod catalog_types;
pub mod cells;
pub mod checkpoint_policy;
pub mod clauses;
pub mod commands;
pub mod constraints;
pub mod dispatch;
pub mod display;
pub mod dml;
pub mod do_block;
pub mod dup;
pub mod engine;
pub mod ffi;
pub mod fulltext;
pub mod functions;
pub mod history;
pub mod indexes;
pub mod insert;
pub mod introspection;
pub mod json;
pub mod listing;
pub mod location;
pub mod maintenance;
pub mod meaning;
pub mod merge;
pub mod migrations;
pub mod namemap;
pub mod numbers;
pub mod outcome;
pub mod printable;
pub mod query_tree;
pub mod rounding;
pub mod scan;
pub mod sequences;
pub mod session;
pub mod settings;
pub mod snapshots;
pub mod sql_helpers;
pub mod statement;
pub mod stats;
pub mod tables;
pub mod text;
pub mod transaction;
pub mod tree;
pub mod types;
pub mod upsert;
pub mod views;
