//! Composable, verified building blocks for partitioning storage
//! (alignment arithmetic, bounds, units) and the term store and small
//! languages of a rewriting interpreter.
pub mod composeable_storage;
pub mod composeable_storage2;
pub mod glue_interpreter;

