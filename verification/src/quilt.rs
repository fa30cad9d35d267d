//! Naming the Quilt loader build for a game version.

use crate::fabric::{first_listed, name_first_listed};
use crate::forge::LoaderBuildError;
use vstd::prelude::*;

verus! {

/// Names the Quilt loader build for a game version, given the loader
/// versions that Quilt's metadata lists for that game version, newest
/// first: `quilt-` and the first of them.
pub fn get_latest_quilt_for_version(loader_versions: &Vec<String>) -> (name: Result<
    String,
    LoaderBuildError,
>)
    ensures
        match name {
            Ok(name) => first_listed(loader_versions.deep_view(), "quilt-"@) == Some(name@),
            Err(reason) => reason == LoaderBuildError::NoStableBuild && loader_versions@.len()
                == 0,
        },
{
    name_first_listed(loader_versions, "quilt-")
}

} // verus!
