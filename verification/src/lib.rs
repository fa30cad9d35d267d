//! Version-compatibility resolution for modpacks.
//!
//! A mod reports, per loader, the game versions it supports.  The library
//! combines those reports, finds a loader and game version that every mod of
//! a pack supports, and picks the concrete builds to ship.

pub mod curseforge;
pub mod fabric;
pub mod forge;
pub mod loader;
pub mod modrinth;
pub mod natural;
pub mod neoforge;
pub mod pack;
pub mod quilt;
pub mod resolve;
pub mod text;
pub mod tokens;
pub mod util;
pub mod versions;
pub mod xml;

pub use loader::ModLoader;
pub use pack::{Config, ExportFormat, Mod, Modpack};
pub use tokens::TokenSet;
pub use versions::ModVersions;
