//! The operating system that the tool runs on.

use vstd::prelude::*;

verus! {

/// The operating systems that have a backend of their own, and the rest.
#[derive(Clone, Copy, Debug, PartialEq, Eq, Structural)]
pub enum HostOs {
    Linux,
    MacOs,
    Windows,
    Other,
}

/// File names that differ only in case denote the same file on this system.
pub open spec fn folds_case(os: HostOs) -> bool {
    os == HostOs::MacOs || os == HostOs::Windows
}

/// File names that differ only in case denote the same file on this system.
pub fn case_fold_host(os: HostOs) -> (r: bool)
    ensures
        r == folds_case(os),
        r <==> os is MacOs || os is Windows,
{
    match os {
        HostOs::MacOs => true,
        HostOs::Windows => true,
        HostOs::Linux => false,
        HostOs::Other => false,
    }
}

} // verus!
