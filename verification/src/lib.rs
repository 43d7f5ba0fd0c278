//! Null-aware compute kernels over fixed-width array columns.
//!
//! An array column packs, for every non-null row, exactly `width` elements of
//! one child dtype; row-level validity and element-level validity are kept
//! strictly apart. The modules below provide per-row aggregation, element
//! gathering with sign-aware index normalization, within-row reordering, and
//! the construction of variable-width list columns by per-row replication.

pub mod amortized;
pub mod any_all;
pub mod column;
pub mod count;
pub mod dispersion;
pub mod dtype;
pub mod error;
pub mod gather;
pub mod join;
pub mod min_max;
pub mod namespace;
pub mod output_field;
pub mod repeat_by;
pub mod scalar;
pub mod sorting;
pub mod sum_mean;
