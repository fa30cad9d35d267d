//! What a mod supports: for each loader, a set of game versions.

use crate::loader::ModLoader;
use crate::tokens::TokenSet;
use vstd::prelude::*;

verus! {

/// The game versions that `support` holds for `loader`.
pub open spec fn versions_for(support: Set<(ModLoader, Seq<char>)>, loader: ModLoader) -> Set<
    Seq<char>,
> {
    Set::new(|version: Seq<char>| support.contains((loader, version)))
}

/// The game versions a mod supports under each of the four loaders.  A
/// version may stand under several loaders.
#[derive(Debug, Eq, PartialOrd, Ord, Hash)]
pub struct ModVersions {
    pub fabric: TokenSet,
    pub forge: TokenSet,
    pub neo_forge: TokenSet,
    pub quilt: TokenSet,
}

impl View for ModVersions {
    type V = Set<(ModLoader, Seq<char>)>;

    /// The supported pairs of loader and game version.
    open spec fn view(&self) -> Set<(ModLoader, Seq<char>)> {
        Set::new(|pair: (ModLoader, Seq<char>)| self.bucket_of(pair.0)@.contains(pair.1))
    }
}

impl PartialEq for ModVersions {
    /// Two values are equal when they hold the same pairs of loader and
    /// game version.
    fn eq(&self, other: &Self) -> (equal: bool) {
        proof {
            self.lemma_bucket_view(ModLoader::Fabric);
            self.lemma_bucket_view(ModLoader::Forge);
            self.lemma_bucket_view(ModLoader::Neoforge);
            self.lemma_bucket_view(ModLoader::Quilt);
            other.lemma_bucket_view(ModLoader::Fabric);
            other.lemma_bucket_view(ModLoader::Forge);
            other.lemma_bucket_view(ModLoader::Neoforge);
            other.lemma_bucket_view(ModLoader::Quilt);
        }
        let equal = self.fabric == other.fabric && self.forge == other.forge && self.neo_forge
            == other.neo_forge && self.quilt == other.quilt;
        proof {
            if equal {
                assert(self@ =~= other@);
            }
        }
        equal
    }
}

impl vstd::std_specs::cmp::PartialEqSpecImpl for ModVersions {
    open spec fn obeys_eq_spec() -> bool {
        true
    }

    open spec fn eq_spec(&self, other: &Self) -> bool {
        self@ == other@
    }
}

impl Default for ModVersions {
    /// Nothing supported.
    fn default() -> (none: Self)
        ensures
            none@ == Set::<(ModLoader, Seq<char>)>::empty(),
    {
        ModVersions::new()
    }
}

impl Clone for ModVersions {
    fn clone(&self) -> (copy: Self)
        ensures
            copy@ == self@,
    {
        let copy = ModVersions {
            fabric: self.fabric.clone(),
            forge: self.forge.clone(),
            neo_forge: self.neo_forge.clone(),
            quilt: self.quilt.clone(),
        };
        assert(copy@ =~= self@);
        copy
    }
}

impl ModVersions {
    /// The bucket that holds the versions of `loader`.
    pub open spec fn bucket_of(&self, loader: ModLoader) -> TokenSet {
        match loader {
            ModLoader::Fabric => self.fabric,
            ModLoader::Quilt => self.quilt,
            ModLoader::Forge => self.forge,
            ModLoader::Neoforge => self.neo_forge,
        }
    }

    /// A bucket holds exactly the versions its loader is paired with.
    pub proof fn lemma_bucket_view(&self, loader: ModLoader)
        ensures
            self.bucket_of(loader)@ == versions_for(self@, loader),
    {
        assert(self.bucket_of(loader)@ =~= versions_for(self@, loader));
    }

    /// Nothing supported.
    pub fn new() -> (none: ModVersions)
        ensures
            none@ == Set::<(ModLoader, Seq<char>)>::empty(),
    {
        let none = ModVersions {
            fabric: TokenSet::new(),
            forge: TokenSet::new(),
            neo_forge: TokenSet::new(),
            quilt: TokenSet::new(),
        };
        assert(none@ =~= Set::<(ModLoader, Seq<char>)>::empty());
        none
    }

    /// The versions supported under `loader`.
    pub fn bucket(&self, loader: ModLoader) -> (bucket: &TokenSet)
        ensures
            *bucket == self.bucket_of(loader),
            bucket@ == versions_for(self@, loader),
    {
        proof {
            self.lemma_bucket_view(loader);
        }
        match loader {
            ModLoader::Fabric => &self.fabric,
            ModLoader::Quilt => &self.quilt,
            ModLoader::Forge => &self.forge,
            ModLoader::Neoforge => &self.neo_forge,
        }
    }

    /// Whether `version` is supported under `loader`.
    pub fn supports(&self, loader: ModLoader, version: &str) -> (supported: bool)
        ensures
            supported == self@.contains((loader, version@)),
    {
        self.bucket(loader).contains(version)
    }

    /// Records that `version` is supported under `loader`.
    pub fn insert(&mut self, loader: ModLoader, version: String)
        ensures
            final(self)@ == old(self)@.insert((loader, version@)),
    {
        match loader {
            ModLoader::Fabric => {
                self.fabric.insert(version);
            },
            ModLoader::Quilt => {
                self.quilt.insert(version);
            },
            ModLoader::Forge => {
                self.forge.insert(version);
            },
            ModLoader::Neoforge => {
                self.neo_forge.insert(version);
            },
        }
        assert(self@ =~= old(self)@.insert((loader, version@)));
    }

    /// Records that every version of `versions` is supported under `loader`.
    pub fn insert_all(&mut self, loader: ModLoader, versions: &TokenSet)
        ensures
            final(self)@ == old(self)@.union(
                Set::new(|pair: (ModLoader, Seq<char>)| pair.0 == loader && versions@.contains(pair.1)),
            ),
    {
        match loader {
            ModLoader::Fabric => {
                self.fabric = self.fabric.union(versions);
            },
            ModLoader::Quilt => {
                self.quilt = self.quilt.union(versions);
            },
            ModLoader::Forge => {
                self.forge = self.forge.union(versions);
            },
            ModLoader::Neoforge => {
                self.neo_forge = self.neo_forge.union(versions);
            },
        }
        assert(self@ =~= old(self)@.union(
            Set::new(|pair: (ModLoader, Seq<char>)| pair.0 == loader && versions@.contains(pair.1)),
        ));
    }

    /// Everything that `self` or `other` supports: the union, bucket by
    /// bucket.
    pub fn union(&self, other: &ModVersions) -> (both: ModVersions)
        ensures
            both@ == self@.union(other@),
    {
        let both = ModVersions {
            fabric: self.fabric.union(&other.fabric),
            forge: self.forge.union(&other.forge),
            neo_forge: self.neo_forge.union(&other.neo_forge),
            quilt: self.quilt.union(&other.quilt),
        };
        assert(both@ =~= self@.union(other@));
        both
    }

    /// What `self` and `other` both support: the intersection, bucket by
    /// bucket.  A version under one loader never meets the same version under
    /// another.
    pub fn intersect(&self, other: &ModVersions) -> (common: ModVersions)
        ensures
            common@ == self@.intersect(other@),
    {
        let common = ModVersions {
            fabric: self.fabric.intersect(&other.fabric),
            forge: self.forge.intersect(&other.forge),
            neo_forge: self.neo_forge.intersect(&other.neo_forge),
            quilt: self.quilt.intersect(&other.quilt),
        };
        assert(common@ =~= self@.intersect(other@));
        common
    }
}

/// The pairs that every one of `sets` holds.
pub open spec fn supported_by_all(sets: Seq<Set<(ModLoader, Seq<char>)>>) -> Set<
    (ModLoader, Seq<char>),
> {
    Set::new(
        |pair: (ModLoader, Seq<char>)|
            forall|i: int| 0 <= i < sets.len() ==> (#[trigger] sets[i]).contains(pair),
    )
}

/// What each mod of a list supports.
pub open spec fn supports_of(list: Seq<ModVersions>) -> Seq<Set<(ModLoader, Seq<char>)>> {
    Seq::new(list.len(), |i: int| list[i]@)
}

/// What all the mods of a list support at once: the first one's support,
/// intersected with each of the others in turn.  An empty list has no
/// intersection.
pub fn intersect_all(list: &[ModVersions]) -> (common: Option<ModVersions>)
    ensures
        match common {
            Some(common) => list@.len() > 0 && common@ == supported_by_all(supports_of(list@)),
            None => list@.len() == 0,
        },
{
    if list.len() == 0 {
        return None;
    }
    let mut common = list[0].clone();
    let mut i: usize = 1;
    proof {
        assert(common@ =~= supported_by_all(supports_of(list@).take(1))) by {
            assert(supports_of(list@).take(1)[0] == list@[0]@);
        }
    }
    while i < list.len()
        invariant
            1 <= i <= list.len(),
            common@ == supported_by_all(supports_of(list@).take(i as int)),
        decreases list.len() - i,
    {
        let ghost seen = supports_of(list@).take(i as int);
        let ghost more = supports_of(list@).take(i + 1);
        common = common.intersect(&list[i]);
        proof {
            assert(more[i as int] == list@[i as int]@);
            assert(common@ =~= supported_by_all(more)) by {
                assert forall|pair: (ModLoader, Seq<char>)|
                    supported_by_all(seen).contains(pair) && list@[i as int]@.contains(
                        pair,
                    ) implies supported_by_all(more).contains(pair) by {
                    assert forall|k: int| 0 <= k < more.len() implies (#[trigger] more[k]).contains(
                        pair,
                    ) by {
                        if k < i {
                            assert(seen[k].contains(pair));
                        }
                    }
                }
                assert forall|pair: (ModLoader, Seq<char>)|
                    supported_by_all(more).contains(pair) implies supported_by_all(seen).contains(
                        pair,
                    ) && list@[i as int]@.contains(pair) by {
                    assert(more[i as int].contains(pair));
                    assert forall|k: int| 0 <= k < seen.len() implies (#[trigger] seen[k]).contains(
                        pair,
                    ) by {
                        assert(more[k].contains(pair));
                    }
                }
            }
        }
        i += 1;
    }
    proof {
        supports_of(list@).lemma_take_len();
    }
    Some(common)
}

/// Intersection does not depend on the order of its two arguments.
pub proof fn lemma_intersect_commutes(a: ModVersions, b: ModVersions)
    ensures
        a@.intersect(b@) == b@.intersect(a@),
{
    assert(a@.intersect(b@) =~= b@.intersect(a@));
}

/// Intersection does not depend on how three arguments are grouped.
pub proof fn lemma_intersect_associates(a: ModVersions, b: ModVersions, c: ModVersions)
    ensures
        a@.intersect(b@).intersect(c@) == a@.intersect(b@.intersect(c@)),
{
    assert(a@.intersect(b@).intersect(c@) =~= a@.intersect(b@.intersect(c@)));
}

/// The union of a set with itself is that set.
pub proof fn lemma_union_idempotent(a: ModVersions)
    ensures
        a@.union(a@) == a@,
{
    assert(a@.union(a@) =~= a@);
}

/// Union does not depend on the order of its two arguments.
pub proof fn lemma_union_commutes(a: ModVersions, b: ModVersions)
    ensures
        a@.union(b@) == b@.union(a@),
{
    assert(a@.union(b@) =~= b@.union(a@));
}

/// What two mods both support is the intersection of what each supports,
/// whichever of the two comes first in the list.
pub proof fn lemma_supported_by_all_is_symmetric(a: ModVersions, b: ModVersions)
    ensures
        supported_by_all(seq![a@, b@]) == supported_by_all(seq![b@, a@]),
        supported_by_all(seq![a@, b@]) == a@.intersect(b@),
{
    let ab = seq![a@, b@];
    let ba = seq![b@, a@];
    assert(supported_by_all(ab) =~= a@.intersect(b@)) by {
        assert forall|pair: (ModLoader, Seq<char>)|
            supported_by_all(ab).contains(pair) implies a@.contains(pair) && b@.contains(pair) by {
            assert(ab[0].contains(pair));
            assert(ab[1].contains(pair));
        }
    }
    assert(supported_by_all(ba) =~= a@.intersect(b@)) by {
        assert forall|pair: (ModLoader, Seq<char>)|
            supported_by_all(ba).contains(pair) implies a@.contains(pair) && b@.contains(pair) by {
            assert(ba[0].contains(pair));
            assert(ba[1].contains(pair));
        }
    }
}

} // verus!
