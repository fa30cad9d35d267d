//! What the Modrinth catalog says of a mod.

use crate::curseforge::version_tags;
use crate::loader::ModLoader;
use crate::text::{
    has_string, last_segment, last_segment_of, lowercase_all, lowercased, starts_with_digit,
};
use crate::versions::ModVersions;
use vstd::prelude::*;

verus! {

/// A mod as the Modrinth catalog describes it.
#[derive(Debug, Default, PartialEq, Eq, PartialOrd, Ord, Hash)]
pub struct ModrinthMod {
    pub id: String,
    pub title: String,
    pub description: String,
    pub slug: String,
}

impl Clone for ModrinthMod {
    fn clone(&self) -> (copy: Self)
        ensures
            copy == *self,
    {
        ModrinthMod {
            id: self.id.clone(),
            title: self.title.clone(),
            description: self.description.clone(),
            slug: self.slug.clone(),
        }
    }
}

/// The project that an address of the catalog names, which is what to ask
/// the catalog for: the last segment of the address's path.
pub fn get_modrinth_mod_from_url(url: &str) -> (project: String)
    ensures
        project@ == last_segment(url@),
{
    last_segment_of(url)
}

/// One release of a mod: the loaders it runs on and the game versions it
/// was made for.
#[derive(Debug, PartialEq, Eq)]
pub struct ModrinthVersion {
    pub loaders: Vec<String>,
    pub game_versions: Vec<String>,
}

/// What one release supports, given its loader names in lower case: each
/// of the four loaders that is named, with each game version of the release
/// that starts with a digit.
pub open spec fn release_support(loaders: Seq<Seq<char>>, game_versions: Seq<Seq<char>>) -> Set<
    (ModLoader, Seq<char>),
> {
    Set::new(
        |pair: (ModLoader, Seq<char>)|
            loaders.contains(pair.0.token()) && game_versions.contains(pair.1)
                && starts_with_digit(pair.1),
    )
}

/// The loader names and the game versions of each release, as characters.
pub open spec fn releases_of(versions: Seq<ModrinthVersion>) -> Seq<
    (Seq<Seq<char>>, Seq<Seq<char>>),
> {
    Seq::new(
        versions.len(),
        |i: int| (versions[i].loaders.deep_view(), versions[i].game_versions.deep_view()),
    )
}

/// What the releases of a mod support together.  Loader names are read
/// without regard to case; game versions count where they start with a
/// digit, and are kept as they are written.
pub open spec fn releases_support(releases: Seq<(Seq<Seq<char>>, Seq<Seq<char>>)>) -> Set<
    (ModLoader, Seq<char>),
> {
    Set::new(
        |pair: (ModLoader, Seq<char>)|
            exists|r: int|
                0 <= r < releases.len() && release_support(
                    lowercased((#[trigger] releases[r]).0),
                    releases[r].1,
                ).contains(pair),
    )
}

/// What one release supports, given its loader names in lower case.
pub fn support_of_release(loaders: &Vec<String>, game_versions: &Vec<String>) -> (support:
    ModVersions)
    ensures
        support@ == release_support(loaders.deep_view(), game_versions.deep_view()),
{
    let versions = version_tags(game_versions);
    let mut support = ModVersions::new();
    if has_string(loaders, ModLoader::Fabric.name()) {
        support.insert_all(ModLoader::Fabric, &versions);
    }
    if has_string(loaders, ModLoader::Forge.name()) {
        support.insert_all(ModLoader::Forge, &versions);
    }
    if has_string(loaders, ModLoader::Neoforge.name()) {
        support.insert_all(ModLoader::Neoforge, &versions);
    }
    if has_string(loaders, ModLoader::Quilt.name()) {
        support.insert_all(ModLoader::Quilt, &versions);
    }
    assert(support@ =~= release_support(loaders.deep_view(), game_versions.deep_view()));
    support
}

/// What a mod supports, read from its releases.
///
/// A release supports each of the four loaders that it names, without
/// regard to case, under each of its game versions that starts with a
/// digit; the mod supports what any of its releases supports.
pub fn get_versions_from_modrinth(versions: &Vec<ModrinthVersion>) -> (support: ModVersions)
    ensures
        support@ == releases_support(releases_of(versions@)),
{
    let mut support = ModVersions::new();
    let mut r: usize = 0;
    while r < versions.len()
        invariant
            r <= versions.len(),
            support@ == releases_support(releases_of(versions@).take(r as int)),
        decreases versions.len() - r,
    {
        let ghost seen = releases_of(versions@).take(r as int);
        let ghost more = releases_of(versions@).take(r + 1);
        let lower = lowercase_all(&versions[r].loaders);
        let of_release = support_of_release(&lower, &versions[r].game_versions);
        support = support.union(&of_release);
        proof {
            assert(more[r as int] == (
                versions@[r as int].loaders.deep_view(),
                versions@[r as int].game_versions.deep_view(),
            ));
            assert(support@ =~= releases_support(more)) by {
                assert forall|pair: (ModLoader, Seq<char>)|
                    releases_support(more).contains(pair) implies releases_support(seen).contains(
                        pair,
                    ) || of_release@.contains(pair) by {
                    let k = choose|k: int|
                        0 <= k < more.len() && release_support(
                            lowercased((#[trigger] more[k]).0),
                            more[k].1,
                        ).contains(pair);
                    if k < r {
                        assert(seen[k] == more[k]);
                    }
                }
                assert forall|pair: (ModLoader, Seq<char>)|
                    releases_support(seen).contains(pair) implies releases_support(more).contains(
                        pair,
                    ) by {
                    let k = choose|k: int|
                        0 <= k < seen.len() && release_support(
                            lowercased((#[trigger] seen[k]).0),
                            seen[k].1,
                        ).contains(pair);
                    assert(more[k] == seen[k]);
                }
                assert forall|pair: (ModLoader, Seq<char>)|
                    of_release@.contains(pair) implies releases_support(more).contains(pair) by {
                    assert(release_support(
                        lowercased(more[r as int].0),
                        more[r as int].1,
                    ).contains(pair));
                }
            }
        }
        r += 1;
    }
    proof {
        releases_of(versions@).lemma_take_len();
    }
    support
}

} // verus!
