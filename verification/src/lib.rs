//! The write path of the secondary storage of an analytical database, and
//! the binding of aggregate calls.
//!
//! Batches of column arrays go into a [`rowset_builder::RowsetBuilder`],
//! which keeps one [`column_builder::ColumnBuilderImpl`] per column. Each
//! encoder cuts its column into blocks ([`block`]), every block with an
//! entry in the column's index ([`index_builder`]) and a checksum
//! ([`checksum`]). At the end the builder hands out a
//! [`flush::RowsetFlush`], which tells its caller in which order the files
//! and the directory have to reach the disk. [`reader`] reads a column
//! back, and [`column_file`] states what holds of the files of a column.
//!
//! [`binder`] binds calls of aggregate functions.

pub mod array;
pub mod binder;
pub mod block;
pub mod checksum;
pub mod codec;
pub mod column_builder;
pub mod column_file;
pub mod error;
pub mod flush;
pub mod index_builder;
pub mod reader;
pub mod rowset_builder;
pub mod types;
