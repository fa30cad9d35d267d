//! The pack itself: its mods, its settings, and the formats it can be
//! exported to.

use crate::curseforge::CurseforgeMod;
use crate::loader::ModLoader;
use crate::modrinth::ModrinthMod;
use vstd::prelude::*;

verus! {

/// A mod of the pack, with what each catalog knows of it.
#[derive(Debug, Default, PartialEq, Eq, PartialOrd, Ord, Hash)]
pub struct Mod {
    pub name: String,
    pub curseforge: Option<CurseforgeMod>,
    pub modrinth: Option<ModrinthMod>,
}

impl Mod {
    /// A mod that no catalog knows has to be installed by hand.
    pub open spec fn manual(self) -> bool {
        self.curseforge is None && self.modrinth is None
    }

    /// Whether the mod has to be installed by hand.
    pub fn is_manual(&self) -> (manual: bool)
        ensures
            manual == self.manual(),
    {
        self.curseforge.is_none() && self.modrinth.is_none()
    }
}

impl Clone for Mod {
    fn clone(&self) -> (copy: Self)
        ensures
            copy == *self,
    {
        Mod {
            name: self.name.clone(),
            curseforge: match &self.curseforge {
                Some(found) => Some(found.clone()),
                None => None,
            },
            modrinth: match &self.modrinth {
                Some(found) => Some(found.clone()),
                None => None,
            },
        }
    }
}

/// A named collection of mods, with the loader and game version that were
/// last found to suit all of them.
#[derive(Debug, Default, PartialEq, Eq, PartialOrd, Ord, Hash)]
pub struct Modpack {
    pub name: String,
    pub version: String,
    pub minecraft_version: Option<String>,
    pub loader: Option<ModLoader>,
    pub author: String,
    pub mods: Vec<Mod>,
}

impl Clone for Modpack {
    fn clone(&self) -> (copy: Self)
        ensures
            copy.name == self.name,
            copy.version == self.version,
            copy.minecraft_version == self.minecraft_version,
            copy.loader == self.loader,
            copy.author == self.author,
            copy.mods@ == self.mods@,
    {
        let mut mods: Vec<Mod> = Vec::new();
        let mut i: usize = 0;
        while i < self.mods.len()
            invariant
                i <= self.mods.len(),
                mods@ == self.mods@.take(i as int),
            decreases self.mods.len() - i,
        {
            mods.push(self.mods[i].clone());
            proof {
                self.mods@.lemma_take_succ_push(i as int);
            }
            i += 1;
        }
        proof {
            self.mods@.lemma_take_len();
        }
        Modpack {
            name: self.name.clone(),
            version: self.version.clone(),
            minecraft_version: match &self.minecraft_version {
                Some(version) => Some(version.clone()),
                None => None,
            },
            loader: self.loader,
            author: self.author.clone(),
            mods,
        }
    }
}

impl Modpack {
    /// A fresh pack: version `1.0.0`, no author, no mods, nothing resolved.
    pub fn new(name: String) -> (pack: Modpack)
        ensures
            pack.name == name,
            pack.version@ == "1.0.0"@,
            pack.minecraft_version is None,
            pack.loader is None,
            pack.author@ == Seq::<char>::empty(),
            pack.mods@ == Seq::<Mod>::empty(),
    {
        Modpack {
            name,
            version: "1.0.0".to_owned(),
            minecraft_version: None,
            loader: None,
            author: String::new(),
            mods: Vec::new(),
        }
    }
}

/// The archive formats a pack can be exported to.
#[derive(Debug, Clone, Copy, Default, PartialEq, Eq, Structural, PartialOrd, Ord, Hash)]
pub enum ExportFormat {
    #[default]
    Modrinth,
    Curseforge,
    Modpackr,
}

/// The settings of a project.
#[derive(Debug, PartialEq, Eq, PartialOrd, Ord, Hash)]
pub struct Config {
    export: ExportFormat,
    version: Option<String>,
    loader: Option<ModLoader>,
}

impl Config {
    /// The format the project exports to unless told otherwise.
    pub closed spec fn export_format(self) -> ExportFormat {
        self.export
    }

    /// The game version the project is pinned to, if any.
    pub closed spec fn pinned_version(self) -> Option<String> {
        self.version
    }

    /// The loader the project is pinned to, if any.
    pub closed spec fn pinned_loader(self) -> Option<ModLoader> {
        self.loader
    }

    /// Settings with the given export format and pins.
    pub fn new(export: ExportFormat, version: Option<String>, loader: Option<ModLoader>) -> (config:
        Config)
        ensures
            config.export_format() == export,
            config.pinned_version() == version,
            config.pinned_loader() == loader,
    {
        Config { export, version, loader }
    }

    /// The format the project exports to unless told otherwise.
    pub fn export(&self) -> (format: ExportFormat)
        ensures
            format == self.export_format(),
    {
        self.export
    }

    /// The game version the project is pinned to, if any.
    pub fn version(&self) -> (version: &Option<String>)
        ensures
            *version == self.pinned_version(),
    {
        &self.version
    }

    /// The loader the project is pinned to, if any.
    pub fn loader(&self) -> (loader: Option<ModLoader>)
        ensures
            loader == self.pinned_loader(),
    {
        self.loader
    }
}

impl Clone for Config {
    fn clone(&self) -> (copy: Self)
        ensures
            copy == *self,
    {
        Config {
            export: self.export,
            version: match &self.version {
                Some(version) => Some(version.clone()),
                None => None,
            },
            loader: self.loader,
        }
    }
}

impl Default for Config {
    /// Export to Modrinth, nothing pinned.
    fn default() -> (config: Config)
        ensures
            config.export_format() == ExportFormat::Modrinth,
            config.pinned_version() is None,
            config.pinned_loader() is None,
    {
        Config { export: ExportFormat::Modrinth, version: None, loader: None }
    }
}

} // verus!
