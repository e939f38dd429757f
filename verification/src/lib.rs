//! A personal task tracker: tasks with a cost, a priority and an optional
//! deadline, ranked by an urgency/value score and kept in two flat-record
//! collections (active and archived).
//!
//! Everything here works on plain values. Reading and writing the files,
//! taking the lock on the sequence record and printing are left to the caller.

pub mod comparible_task;
pub mod csv_file;
pub mod db;
pub mod decimal;
pub mod error;
pub mod file_store;
pub mod input;
pub mod rank;
pub mod root_order;
pub mod row;
pub mod score;
pub mod sequence;
pub mod show_rule;
pub mod store;
pub mod table;
pub mod task;
pub mod text;
pub mod timestamp;
pub mod wide;
