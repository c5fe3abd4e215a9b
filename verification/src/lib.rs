//! Utilities for working with `deploy-rs` profiles: the verified core.

pub mod text;
pub mod natural_sort;
pub mod target;
pub mod nix;
pub mod display;
pub mod profile;
pub mod cli;
pub mod command;
