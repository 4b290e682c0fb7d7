//! Ownership and borrowing checks.

pub mod linear_check;
