//! Building blocks of solutions.

pub mod clustering;
