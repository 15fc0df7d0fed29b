//! A hash-table engine for a Lisp runtime: tables whose equality and hashing
//! are chosen at run time, that take part in garbage collection (strong and
//! weak), and that can be frozen into permanent storage.

pub mod object;
pub mod strategy;
pub mod bucket;
pub mod store;
pub mod registry;
pub mod hashtable;
pub mod gc;
pub mod pure;
pub mod heap;
pub mod laws;
