//! The closed set of loaders and the fixed order in which they are preferred.

use vstd::prelude::*;

verus! {

/// One of the four add-on runtimes a mod can target.
#[derive(Debug, Clone, Copy, Default, PartialEq, Eq, Structural, PartialOrd, Ord, Hash)]
pub enum ModLoader {
    #[default]
    Fabric,
    Quilt,
    Forge,
    Neoforge,
}

impl ModLoader {
    /// The lower-case token that names this loader in catalog tags and in
    /// printed output.
    pub open spec fn token(self) -> Seq<char> {
        match self {
            ModLoader::Fabric => "fabric"@,
            ModLoader::Quilt => "quilt"@,
            ModLoader::Forge => "forge"@,
            ModLoader::Neoforge => "neoforge"@,
        }
    }

    /// The capitalised name under which a catalog lists this loader among a
    /// release file's tags.
    pub open spec fn display_token(self) -> Seq<char> {
        match self {
            ModLoader::Fabric => "Fabric"@,
            ModLoader::Quilt => "Quilt"@,
            ModLoader::Forge => "Forge"@,
            ModLoader::Neoforge => "Neoforge"@,
        }
    }

    /// Position in the resolver's preference order: Quilt, Fabric, NeoForge,
    /// Forge.  A lower rank is preferred.
    pub open spec fn rank(self) -> int {
        match self {
            ModLoader::Quilt => 0,
            ModLoader::Fabric => 1,
            ModLoader::Neoforge => 2,
            ModLoader::Forge => 3,
        }
    }

    /// The loader that holds a given rank.
    pub open spec fn of_rank(rank: int) -> ModLoader {
        if rank == 0 {
            ModLoader::Quilt
        } else if rank == 1 {
            ModLoader::Fabric
        } else if rank == 2 {
            ModLoader::Neoforge
        } else {
            ModLoader::Forge
        }
    }

    /// The lower-case name of the loader.
    pub fn name(self) -> (s: &'static str)
        ensures
            s@ == self.token(),
    {
        match self {
            ModLoader::Fabric => "fabric",
            ModLoader::Quilt => "quilt",
            ModLoader::Forge => "forge",
            ModLoader::Neoforge => "neoforge",
        }
    }

    /// The capitalised name of the loader.
    pub fn display_name(self) -> (s: &'static str)
        ensures
            s@ == self.display_token(),
    {
        match self {
            ModLoader::Fabric => "Fabric",
            ModLoader::Quilt => "Quilt",
            ModLoader::Forge => "Forge",
            ModLoader::Neoforge => "Neoforge",
        }
    }

    /// The lower-case name as an owned string, as it is printed.
    pub fn to_string(&self) -> (s: String)
        ensures
            s@ == self.token(),
    {
        self.name().to_owned()
    }

    /// The four loaders, most preferred first.
    pub fn by_priority() -> (order: [ModLoader; 4])
        ensures
            forall|k: int| 0 <= k < 4 ==> #[trigger] order[k] == ModLoader::of_rank(k),
    {
        [ModLoader::Quilt, ModLoader::Fabric, ModLoader::Neoforge, ModLoader::Forge]
    }
}

} // verus!
