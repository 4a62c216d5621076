use vstd::prelude::*;

verus! {

/// The configuration and the registry disagree about a package.
#[derive(Clone, Debug, PartialEq, Eq)]
pub enum PackageTrackingError {
    NoTrackedPackages,
    PackageIsNotTracked(String),
    NoVersions(String),
}

} // verus!
