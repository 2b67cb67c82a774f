//! The operating modes of a licensing run.

use vstd::prelude::*;

verus! {

/// Enum representing different operating modes for a software license run.
#[derive(PartialEq, Eq, Structural, Copy, Clone, Debug)]
pub enum OperatingMode {
    SetNewLicense,
    AppendLicense,
    LicenseReplace,
    ShowAllGitDirs,
    Unlicense,
}

/// The mode selected by a one-based menu number, if any.
pub open spec fn mode_from_usize(i: usize) -> Option<OperatingMode> {
    if i == 1 {
        Some(OperatingMode::SetNewLicense)
    } else if i == 2 {
        Some(OperatingMode::AppendLicense)
    } else if i == 3 {
        Some(OperatingMode::LicenseReplace)
    } else if i == 4 {
        Some(OperatingMode::ShowAllGitDirs)
    } else if i == 5 {
        Some(OperatingMode::Unlicense)
    } else {
        None
    }
}

impl OperatingMode {
    /// Converts a one-based menu number into the matching mode.
    pub fn from_usize(i: usize) -> (r: Option<OperatingMode>)
        ensures
            r == mode_from_usize(i),
    {
        match i {
            1 => Some(Self::SetNewLicense),
            2 => Some(Self::AppendLicense),
            3 => Some(Self::LicenseReplace),
            4 => Some(Self::ShowAllGitDirs),
            5 => Some(Self::Unlicense),
            _ => None,
        }
    }
}

} // verus!
