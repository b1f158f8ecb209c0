//! Where the mirrors of the regions are found.

pub mod legacy_units;
pub mod naming;
pub mod regions;
