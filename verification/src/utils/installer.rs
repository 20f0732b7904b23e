//! The state of the local runtime's installation.

use vstd::prelude::*;

verus! {

/// Whether the local runtime is installed.
#[derive(Debug, PartialEq, Eq)]
pub enum InstallStatus {
    NotInstalled,
    Installing,
    Installed { version: String },
    Failed { error: String },
}

impl Clone for InstallStatus {
    fn clone(&self) -> (copy: Self)
        ensures
            copy == *self,
    {
        match self {
            InstallStatus::NotInstalled => InstallStatus::NotInstalled,
            InstallStatus::Installing => InstallStatus::Installing,
            InstallStatus::Installed { version } => InstallStatus::Installed {
                version: version.clone(),
            },
            InstallStatus::Failed { error } => InstallStatus::Failed { error: error.clone() },
        }
    }
}

} // verus!
