//! Columns and rows of the mirrored tables.
pub mod column_laws;
pub mod columns;
pub mod fast;
pub mod rows;
