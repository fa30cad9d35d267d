//! Naming the Fabric loader build for a game version.

use crate::forge::LoaderBuildError;
use vstd::prelude::*;
use vstd::string::StringExecFns;

verus! {

/// The name of the first loader version of a listing, behind `token`;
/// nothing for an empty listing.
pub open spec fn first_listed(loader_versions: Seq<Seq<char>>, token: Seq<char>) -> Option<
    Seq<char>,
> {
    if loader_versions.len() == 0 {
        None
    } else {
        Some(token + loader_versions[0])
    }
}

/// Names the first loader version of a listing, behind `token`.
pub fn name_first_listed(loader_versions: &Vec<String>, token: &str) -> (name: Result<
    String,
    LoaderBuildError,
>)
    ensures
        match name {
            Ok(name) => first_listed(loader_versions.deep_view(), token@) == Some(name@),
            Err(reason) => reason == LoaderBuildError::NoStableBuild && first_listed(
                loader_versions.deep_view(),
                token@,
            ) is None,
        },
{
    if loader_versions.len() == 0 {
        Err(LoaderBuildError::NoStableBuild)
    } else {
        Ok(String::from_str(token).concat(loader_versions[0].as_str()))
    }
}

/// Names the Fabric loader build for a game version, given the loader
/// versions that Fabric's metadata lists for that game version, newest
/// first: `fabric-` and the first of them.
pub fn get_stable_fabric_for_version(loader_versions: &Vec<String>) -> (name: Result<
    String,
    LoaderBuildError,
>)
    ensures
        match name {
            Ok(name) => first_listed(loader_versions.deep_view(), "fabric-"@) == Some(name@),
            Err(reason) => reason == LoaderBuildError::NoStableBuild && loader_versions@.len()
                == 0,
        },
{
    name_first_listed(loader_versions, "fabric-")
}

} // verus!
