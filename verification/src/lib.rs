//! cowt: isolated worktrees over application directories.

pub mod applying;
pub mod backend;
pub mod cli;
pub mod completing;
pub mod cowfs;
pub mod diffing;
pub mod dropping;
pub mod forking;
pub mod host;
pub mod inodes;
pub mod json;
pub mod layers;
pub mod linux;
pub mod listing;
pub mod mounting;
pub mod number;
pub mod order;
pub mod overlay;
pub mod path;
pub mod pidfile;
pub mod residue;
pub mod running;
pub mod state;
pub mod steps;
pub mod text;
pub mod windows;
pub mod worktrees;
