//! Naming the latest stable NeoForge build for a game version.

use crate::forge::{latest_in_metadata, metadata_build, LoaderBuildError};
use vstd::prelude::*;

verus! {

/// Names the latest stable NeoForge build for a game version, given the
/// text of NeoForge's Maven metadata.  The choice is that of
/// [`latest_in_metadata`]; the name starts with `neoforge`.
pub fn get_latest_neoforge_version(metadata: &str, mc_version: &str) -> (name: Result<
    String,
    LoaderBuildError,
>)
    ensures
        match name {
            Ok(name) => metadata_build(metadata@, mc_version@, "neoforge"@) == Ok::<
                Seq<char>,
                LoaderBuildError,
            >(name@),
            Err(reason) => metadata_build(metadata@, mc_version@, "neoforge"@) == Err::<
                Seq<char>,
                LoaderBuildError,
            >(reason),
        },
{
    latest_in_metadata(metadata, mc_version, "neoforge")
}

} // verus!
