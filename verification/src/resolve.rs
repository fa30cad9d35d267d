//! Finding the loader and game version that suit every mod of a pack.

use crate::loader::ModLoader;
use crate::tokens::{greatest_of, is_greatest, lemma_finite_set_has_greatest, lemma_greatest_is_unique};
use crate::versions::{intersect_all, supported_by_all, supports_of, versions_for, ModVersions};
use vstd::prelude::*;

verus! {

/// The characters of a pinned version, if one is pinned.
pub open spec fn pinned(force_version: Option<&str>) -> Option<Seq<char>> {
    match force_version {
        Some(version) => Some(version@),
        None => None,
    }
}

/// Whether `loader` can be the answer: it has a version that all mods
/// support, it is the pinned loader if one is pinned, and it has the pinned
/// version if one is pinned.
pub open spec fn admits(
    common: Set<(ModLoader, Seq<char>)>,
    loader: ModLoader,
    force_loader: Option<ModLoader>,
    force_version: Option<Seq<char>>,
) -> bool {
    &&& exists|version: Seq<char>| common.contains((loader, version))
    &&& force_loader matches Some(forced) ==> forced == loader
    &&& force_version matches Some(forced) ==> common.contains((loader, forced))
}

/// The first loader, in the order Quilt, Fabric, NeoForge, Forge, that can
/// be the answer.
pub open spec fn preferred(
    common: Set<(ModLoader, Seq<char>)>,
    force_loader: Option<ModLoader>,
    force_version: Option<Seq<char>>,
) -> Option<ModLoader> {
    if admits(common, ModLoader::Quilt, force_loader, force_version) {
        Some(ModLoader::Quilt)
    } else if admits(common, ModLoader::Fabric, force_loader, force_version) {
        Some(ModLoader::Fabric)
    } else if admits(common, ModLoader::Neoforge, force_loader, force_version) {
        Some(ModLoader::Neoforge)
    } else if admits(common, ModLoader::Forge, force_loader, force_version) {
        Some(ModLoader::Forge)
    } else {
        None
    }
}

/// The answer within what all mods support: the preferred loader, with the
/// pinned version if one is pinned and the greatest common version of that
/// loader otherwise.
pub open spec fn pick(
    common: Set<(ModLoader, Seq<char>)>,
    force_loader: Option<ModLoader>,
    force_version: Option<Seq<char>>,
) -> Option<(ModLoader, Seq<char>)> {
    match preferred(common, force_loader, force_version) {
        Some(loader) => Some(
            (
                loader,
                match force_version {
                    Some(forced) => forced,
                    None => greatest_of(versions_for(common, loader)),
                },
            ),
        ),
        None => None,
    }
}

/// The answer for a list of mods: none for an empty list, else the pick
/// within what all of them support.
pub open spec fn resolution(
    sets: Seq<Set<(ModLoader, Seq<char>)>>,
    force_loader: Option<ModLoader>,
    force_version: Option<Seq<char>>,
) -> Option<(ModLoader, Seq<char>)> {
    if sets.len() == 0 {
        None
    } else {
        pick(supported_by_all(sets), force_loader, force_version)
    }
}

/// Picks the loader and game version within `common`.
pub fn pick_within(common: &ModVersions, force_loader: Option<ModLoader>, force_version: Option<
    &str,
>) -> (found: Option<(ModLoader, String)>)
    ensures
        match found {
            Some((loader, version)) => pick(common@, force_loader, pinned(force_version)) == Some(
                (loader, version@),
            ),
            None => pick(common@, force_loader, pinned(force_version)) is None,
        },
{
    let order = ModLoader::by_priority();
    let mut k: usize = 0;
    while k < 4
        invariant
            k <= 4,
            forall|n: int| 0 <= n < 4 ==> #[trigger] order[n] == ModLoader::of_rank(n),
            forall|n: int|
                0 <= n < k ==> !admits(
                    common@,
                    #[trigger] ModLoader::of_rank(n),
                    force_loader,
                    pinned(force_version),
                ),
        decreases 4 - k,
    {
        let loader = order[k];
        assert(loader == ModLoader::of_rank(k as int));
        let bucket = common.bucket(loader);
        let suits_loader = match force_loader {
            Some(forced) => forced == loader,
            None => true,
        };
        if !bucket.is_empty() && suits_loader {
            match force_version {
                Some(forced) => {
                    if bucket.contains(forced) {
                        proof {
                            assert(common@.contains((loader, forced@)));
                            lemma_first_admitted(
                                common@,
                                force_loader,
                                pinned(force_version),
                                k as int,
                            );
                        }
                        return Some((loader, forced.to_owned()));
                    }
                },
                None => {
                    match bucket.greatest() {
                        Some(top) => {
                            proof {
                                assert(common@.contains((loader, top@)));
                                lemma_first_admitted(common@, force_loader, None, k as int);
                                let versions = versions_for(common@, loader);
                                assert(is_greatest(versions, top@));
                                assert(is_greatest(versions, greatest_of(versions)));
                                lemma_greatest_is_unique(versions, top@, greatest_of(versions));
                            }
                            return Some((loader, top.clone()));
                        },
                        None => {},
                    }
                },
            }
        } else {
            proof {
                if bucket@ == Set::<Seq<char>>::empty() {
                    assert forall|version: Seq<char>| !common@.contains((loader, version)) by {
                        assert(!bucket@.contains(version));
                    }
                }
            }
        }
        k += 1;
    }
    proof {
        lemma_none_admitted(common@, force_loader, pinned(force_version));
    }
    None
}

/// Finds a loader and a game version that every mod of the list supports.
///
/// Returns nothing for an empty list.  Otherwise the loaders are tried in
/// the order Quilt, Fabric, NeoForge, Forge, each with the versions that all
/// the mods support under it.  A loader with no such version is passed
/// over, and so is every loader but `force_loader` where one is given.  With
/// `force_version`, a loader is taken only if that version is among its
/// common versions; without, the greatest common version is taken.
pub fn find_compatible(
    versions: &[ModVersions],
    force_loader: Option<ModLoader>,
    force_version: Option<&str>,
) -> (found: Option<(ModLoader, String)>)
    ensures
        match found {
            Some((loader, version)) => resolution(
                supports_of(versions@),
                force_loader,
                pinned(force_version),
            ) == Some((loader, version@)),
            None => resolution(supports_of(versions@), force_loader, pinned(force_version))
                is None,
        },
{
    match intersect_all(versions) {
        None => None,
        Some(common) => pick_within(&common, force_loader, force_version),
    }
}

/// If no loader of a better rank than `rank` can be the answer and the one
/// of that rank can, it is the preferred one.
proof fn lemma_first_admitted(
    common: Set<(ModLoader, Seq<char>)>,
    force_loader: Option<ModLoader>,
    force_version: Option<Seq<char>>,
    rank: int,
)
    requires
        0 <= rank < 4,
        admits(common, ModLoader::of_rank(rank), force_loader, force_version),
        forall|n: int|
            0 <= n < rank ==> !admits(
                common,
                #[trigger] ModLoader::of_rank(n),
                force_loader,
                force_version,
            ),
    ensures
        preferred(common, force_loader, force_version) == Some(ModLoader::of_rank(rank)),
{
    assert(ModLoader::of_rank(0) == ModLoader::Quilt);
    assert(ModLoader::of_rank(1) == ModLoader::Fabric);
    assert(ModLoader::of_rank(2) == ModLoader::Neoforge);
    assert(ModLoader::of_rank(3) == ModLoader::Forge);
}

/// If no loader can be the answer, none is preferred.
proof fn lemma_none_admitted(
    common: Set<(ModLoader, Seq<char>)>,
    force_loader: Option<ModLoader>,
    force_version: Option<Seq<char>>,
)
    requires
        forall|n: int|
            0 <= n < 4 ==> !admits(
                common,
                #[trigger] ModLoader::of_rank(n),
                force_loader,
                force_version,
            ),
    ensures
        preferred(common, force_loader, force_version) is None,
{
    assert(ModLoader::of_rank(0) == ModLoader::Quilt);
    assert(ModLoader::of_rank(1) == ModLoader::Fabric);
    assert(ModLoader::of_rank(2) == ModLoader::Neoforge);
    assert(ModLoader::of_rank(3) == ModLoader::Forge);
}

/// The preferred loader can be the answer, and no loader that ranks before
/// it can; where none is preferred, no loader can be the answer.
pub proof fn lemma_preferred_is_first(
    common: Set<(ModLoader, Seq<char>)>,
    force_loader: Option<ModLoader>,
    force_version: Option<Seq<char>>,
)
    ensures
        match preferred(common, force_loader, force_version) {
            Some(loader) => {
                &&& admits(common, loader, force_loader, force_version)
                &&& forall|other: ModLoader|
                    other.rank() < loader.rank() ==> !admits(
                        common,
                        other,
                        force_loader,
                        force_version,
                    )
            },
            None => forall|other: ModLoader|
                !admits(common, other, force_loader, force_version),
        },
{
}

/// For a pack of one mod, what all mods support is what that mod supports.
pub proof fn lemma_single_mod(
    a: ModVersions,
    force_loader: Option<ModLoader>,
    force_version: Option<Seq<char>>,
)
    ensures
        resolution(seq![a@], force_loader, force_version) == pick(
            a@,
            force_loader,
            force_version,
        ),
{
    let sets = seq![a@];
    assert(supported_by_all(sets) =~= a@) by {
        assert forall|pair: (ModLoader, Seq<char>)|
            supported_by_all(sets).contains(pair) implies a@.contains(pair) by {
            assert(sets[0].contains(pair));
        }
    }
}

/// With nothing pinned, a pack of one mod resolves to the greatest version
/// of that mod's first bucket, in the order of preference, that is not
/// empty; a mod that supports nothing resolves to nothing.
pub proof fn lemma_single_mod_unpinned(a: ModVersions)
    ensures
        match resolution(seq![a@], None, None) {
            Some((loader, version)) => {
                &&& is_greatest(a.bucket_of(loader)@, version)
                &&& forall|other: ModLoader|
                    other.rank() < loader.rank() ==> a.bucket_of(other)@ == Set::<
                        Seq<char>,
                    >::empty()
            },
            None => a@ == Set::<(ModLoader, Seq<char>)>::empty(),
        },
{
    lemma_single_mod(a, None, None);
    lemma_preferred_is_first(a@, None, None);
    match preferred(a@, None, None) {
        Some(loader) => {
            a.lemma_bucket_view(loader);
            let bucket = a.bucket_of(loader)@;
            let witness = choose|version: Seq<char>| a@.contains((loader, version));
            assert(bucket.contains(witness));
            vstd::seq_lib::seq_to_set_is_finite(a.bucket_of(loader).tokens());
            lemma_finite_set_has_greatest(bucket);
            assert forall|other: ModLoader| other.rank() < loader.rank() implies a.bucket_of(
                other,
            )@ == Set::<Seq<char>>::empty() by {
                a.lemma_bucket_view(other);
                assert(!admits(a@, other, None, None));
                assert forall|version: Seq<char>| !a.bucket_of(other)@.contains(version) by {
                    assert(!a@.contains((other, version)));
                }
                assert(a.bucket_of(other)@ =~= Set::<Seq<char>>::empty());
            }
        },
        None => {
            assert forall|pair: (ModLoader, Seq<char>)| !a@.contains(pair) by {
                assert(!admits(a@, pair.0, None, None));
            }
            assert(a@ =~= Set::<(ModLoader, Seq<char>)>::empty());
        },
    }
}

/// Two mods that share no version under any loader resolve to nothing,
/// whatever is pinned.
pub proof fn lemma_disjoint_mods(
    a: ModVersions,
    b: ModVersions,
    force_loader: Option<ModLoader>,
    force_version: Option<Seq<char>>,
)
    requires
        a@.disjoint(b@),
    ensures
        resolution(seq![a@, b@], force_loader, force_version) is None,
{
    let sets = seq![a@, b@];
    assert forall|pair: (ModLoader, Seq<char>)| !supported_by_all(sets).contains(pair) by {
        if supported_by_all(sets).contains(pair) {
            assert(sets[0].contains(pair));
            assert(sets[1].contains(pair));
        }
    }
}

/// With nothing pinned, Quilt is chosen whenever the mods share a version
/// under Quilt and one under Fabric.
pub proof fn lemma_quilt_before_fabric(sets: Seq<Set<(ModLoader, Seq<char>)>>)
    requires
        sets.len() > 0,
        exists|version: Seq<char>| supported_by_all(sets).contains((ModLoader::Quilt, version)),
        exists|version: Seq<char>| supported_by_all(sets).contains((ModLoader::Fabric, version)),
    ensures
        resolution(sets, None, None) matches Some((loader, _)) && loader == ModLoader::Quilt,
{
}

/// Pinning a loader under which the mods share no version resolves to
/// nothing, whatever the other loaders hold.
pub proof fn lemma_pinned_loader_absent(
    sets: Seq<Set<(ModLoader, Seq<char>)>>,
    loader: ModLoader,
    force_version: Option<Seq<char>>,
)
    requires
        forall|version: Seq<char>| !supported_by_all(sets).contains((loader, version)),
    ensures
        resolution(sets, Some(loader), force_version) is None,
{
}

/// Pinning a loader and a version that the mods do not share under that
/// loader resolves to nothing: no other loader stands in.
pub proof fn lemma_pinned_version_absent(
    sets: Seq<Set<(ModLoader, Seq<char>)>>,
    loader: ModLoader,
    version: Seq<char>,
)
    requires
        !supported_by_all(sets).contains((loader, version)),
    ensures
        resolution(sets, Some(loader), Some(version)) is None,
{
}

/// Where each mod supports finitely many pairs, the answer is a pair that
/// every mod supports.
pub proof fn lemma_resolution_is_supported(
    sets: Seq<Set<(ModLoader, Seq<char>)>>,
    force_loader: Option<ModLoader>,
    force_version: Option<Seq<char>>,
)
    requires
        forall|i: int| 0 <= i < sets.len() ==> (#[trigger] sets[i]).finite(),
    ensures
        resolution(sets, force_loader, force_version) matches Some(pair) ==> forall|i: int|
            0 <= i < sets.len() ==> (#[trigger] sets[i]).contains(pair),
{
    if sets.len() > 0 {
        let common = supported_by_all(sets);
        match preferred(common, force_loader, force_version) {
            Some(loader) => {
                if force_version is None {
                    let versions = versions_for(common, loader);
                    let witness = choose|version: Seq<char>| common.contains((loader, version));
                    assert(versions.contains(witness));
                    let first = versions_for(sets[0], loader);
                    assert(versions.subset_of(first)) by {
                        assert forall|v: Seq<char>| versions.contains(v) implies first.contains(
                            v,
                        ) by {
                            assert(sets[0].contains((loader, v)));
                        }
                    }
                    lemma_versions_finite(sets[0], loader);
                    vstd::set_lib::lemma_len_subset(versions, first);
                    lemma_finite_set_has_greatest(versions);
                    assert(common.contains((loader, greatest_of(versions))));
                }
            },
            None => {},
        }
    }
}

/// A finite support holds finitely many versions for each loader.
proof fn lemma_versions_finite(support: Set<(ModLoader, Seq<char>)>, loader: ModLoader)
    requires
        support.finite(),
    ensures
        versions_for(support, loader).finite(),
{
    let of_loader = support.filter(|pair: (ModLoader, Seq<char>)| pair.0 == loader);
    let versions = of_loader.map(|pair: (ModLoader, Seq<char>)| pair.1);
    support.lemma_len_filter(|pair: (ModLoader, Seq<char>)| pair.0 == loader);
    of_loader.lemma_map_finite(|pair: (ModLoader, Seq<char>)| pair.1);
    assert(versions =~= versions_for(support, loader)) by {
        assert forall|v: Seq<char>| versions_for(support, loader).contains(v) implies versions.contains(
            v,
        ) by {
            assert(of_loader.contains((loader, v)));
        }
    }
}

} // verus!
