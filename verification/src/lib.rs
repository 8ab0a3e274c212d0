//! Resolution of custom (variable) properties in a style-sheet cascade:
//! scanning declaration values for `var()` references, merging declarations
//! across a priority-ordered cascade with inheritance, detecting reference
//! cycles, and substituting `var()` calls to produce final string values.

pub mod toks;
pub mod table;
pub mod scan;
pub mod cascade;
pub mod cycles;
pub mod subst;
pub mod laws;
