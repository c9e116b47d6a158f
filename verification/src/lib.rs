//! Multi-key ordering of the rows of a data grid.
//!
//! A grid view carries an ordered list of sort specifications, one per
//! field, each with a direction. This crate composes the per-field
//! comparators into one lexicographic comparator over whole rows, sorts row
//! collections with it, keeps the list of active specifications, and drives
//! the life cycle of the controller that owns them.
//!
//! - [`entities`]: specifications, field metadata, rows and cells.
//! - [`cell`]: the comparator registry, from a field type to the order of
//!   two cells.
//! - [`row`]: the row comparator, [`row::cmp_row`], and its model,
//!   [`row::row_order`].
//! - [`laws`]: antisymmetry, transitivity, priority, missing values and
//!   degradation of the row order.
//! - [`sort`]: the sort, sequential and parallel, and its model,
//!   [`sort::sorted_rows`].
//! - [`sort_laws`]: what holds of the sorted order: stability, idempotence,
//!   uniqueness.
//! - [`store`]: the ordered list of active specifications.
//! - [`changeset`]: changes, and the notification of what they did to the
//!   order of the rows.
//! - [`controller`]: the sort controller and its delegate.
//! - [`snapshot`]: a delegate that answers from fixed lists.
//! - [`text`], [`index`]: character keys and index arithmetic.

pub mod cell;
pub mod changeset;
pub mod controller;
pub mod entities;
pub mod index;
pub mod laws;
pub mod row;
pub mod snapshot;
pub mod sort;
pub mod sort_laws;
pub mod store;
pub mod text;
