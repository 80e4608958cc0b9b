//! The targets a package can be built for, and what each one produces.
pub mod sui;
pub mod target;
