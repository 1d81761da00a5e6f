//! The built-in components: what each reads, and how each renders.
pub mod cwd;
pub mod git;
pub mod jj;
pub mod lua;
pub mod python;
pub mod rust;
