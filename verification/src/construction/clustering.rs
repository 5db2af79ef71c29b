//! Preprocessing that groups jobs into clusters.

pub mod vicinity;
