//! Name resolution for a hierarchical register-description language.
//!
//! A document is a tree of items: devices, peripherals and registers, grouped
//! into nested modules. This library rewrites every reference inside a
//! definition into a fully-qualified path and records each definition in a
//! symbol table under its own fully-qualified path, reporting every path that
//! is defined more than once.

pub mod error;
pub mod path;
pub mod resolve;
pub mod item;
pub mod sym_table;
pub mod collect;
