//! The workflows of a project: adding a mod, checking compatibility, and
//! planning an export.  Each works on values already read; reading and
//! writing them is the caller's part.

use crate::curseforge::CurseforgeMod;
use crate::fabric::{first_listed, get_stable_fabric_for_version};
use crate::forge::{get_latest_forge_version, metadata_build, LoaderBuildError};
use crate::loader::ModLoader;
use crate::modrinth::ModrinthMod;
use crate::neoforge::get_latest_neoforge_version;
use crate::pack::{ExportFormat, Mod, Modpack};
use crate::quilt::get_latest_quilt_for_version;
use crate::resolve::resolution;
use crate::versions::{supports_of, ModVersions};
use vstd::prelude::*;

pub use crate::resolve::find_compatible;

verus! {

/// Why a mod cannot be added.
#[derive(Debug, Clone, Copy, PartialEq, Eq, Structural)]
pub enum AddModError {
    /// The mod has to come from a catalog or be marked as installed by hand:
    /// one or the other, not both and not neither.
    SourceNotSpecified,
}

/// Whether the sources named for a new mod make sense: either at least one
/// catalog, or the mark that it is installed by hand.
pub open spec fn sources_agree(curseforge: bool, modrinth: bool, manual: bool) -> bool {
    (curseforge || modrinth) != manual
}

/// The names of the mods that no catalog knows, in the order of the pack.
pub open spec fn manual_names(mods: Seq<Mod>) -> Seq<Seq<char>> {
    mods.filter(|m: Mod| m.manual()).map_values(|m: Mod| m.name@)
}

/// Tells, before anything is looked up, whether the sources named for a new
/// mod make sense.
pub fn check_sources(curseforge: bool, modrinth: bool, manual: bool) -> (checked: Result<
    (),
    AddModError,
>)
    ensures
        checked is Ok <==> sources_agree(curseforge, modrinth, manual),
{
    if curseforge && manual || modrinth && manual || (!curseforge && !modrinth && !manual) {
        Err(AddModError::SourceNotSpecified)
    } else {
        Ok(())
    }
}

/// Adds a mod to the pack.
///
/// `curseforge` and `modrinth` hold what the catalogs returned for the
/// mod; `manual` marks a mod that comes from neither.  A mod with a catalog
/// entry that is also marked manual, and a mod with no catalog entry that is
/// not, are refused and the pack is left as it was.
pub fn add_mod(
    pack: &mut Modpack,
    mod_name: String,
    curseforge: Option<CurseforgeMod>,
    modrinth: Option<ModrinthMod>,
    manual: bool,
) -> (added: Result<Mod, AddModError>)
    ensures
        added is Ok <==> sources_agree(curseforge is Some, modrinth is Some, manual),
        match added {
            Ok(new_mod) => {
                &&& new_mod == (Mod { name: mod_name, curseforge, modrinth })
                &&& new_mod.manual() == manual
                &&& final(pack).mods@ == old(pack).mods@.push(new_mod)
                &&& *final(pack) == (Modpack { mods: final(pack).mods, ..*old(pack) })
                &&& manual_names(final(pack).mods@) == if manual {
                    manual_names(old(pack).mods@).push(mod_name@)
                } else {
                    manual_names(old(pack).mods@)
                }
            },
            Err(_) => *final(pack) == *old(pack),
        },
{
    match check_sources(curseforge.is_some(), modrinth.is_some(), manual) {
        Err(reason) => {
            return Err(reason);
        },
        Ok(()) => {},
    }
    let new_mod = Mod { name: mod_name, curseforge, modrinth };
    proof {
        let before = pack.mods@;
        before.lemma_filter_push(new_mod, |m: Mod| m.manual());
        before.filter(|m: Mod| m.manual()).lemma_push_map_commute(|m: Mod| m.name@, new_mod);
    }
    pack.mods.push(new_mod.clone());
    Ok(new_mod)
}

/// The names of the mods of the pack that no catalog knows and that have
/// to be installed by hand.
pub fn manual_mods(pack: &Modpack) -> (names: Vec<String>)
    ensures
        names.deep_view() == manual_names(pack.mods@),
{
    let mut names: Vec<String> = Vec::new();
    let mut i: usize = 0;
    let ghost by_hand = |m: Mod| m.manual();
    let ghost name_of = |m: Mod| m.name@;
    proof {
        assert(pack.mods@.take(0).filter(by_hand) =~= Seq::<Mod>::empty()) by {
            pack.mods@.take(0).lemma_filter_len(by_hand);
        }
        assert(names.deep_view() =~= pack.mods@.take(0).filter(by_hand).map_values(name_of));
    }
    while i < pack.mods.len()
        invariant
            i <= pack.mods.len(),
            by_hand == |m: Mod| m.manual(),
            name_of == |m: Mod| m.name@,
            names.deep_view() == pack.mods@.take(i as int).filter(by_hand).map_values(name_of),
        decreases pack.mods.len() - i,
    {
        let ghost before = names.deep_view();
        proof {
            let seen = pack.mods@.take(i as int);
            pack.mods@.lemma_take_succ_push(i as int);
            seen.lemma_filter_push(pack.mods@[i as int], by_hand);
            seen.filter(by_hand).lemma_push_map_commute(name_of, pack.mods@[i as int]);
        }
        if pack.mods[i].is_manual() {
            names.push(pack.mods[i].name.clone());
            assert(names.deep_view() =~= before.push(pack.mods@[i as int].name@));
        }
        i += 1;
    }
    proof {
        pack.mods@.lemma_take_len();
    }
    names
}

/// What a mod supports according to the catalogs that know it: the union of
/// their reports.  A report for a catalog that does not know the mod is left
/// out.  A mod that no catalog knows has no set of its own.
pub fn aggregate(m: &Mod, curseforge: &ModVersions, modrinth: &ModVersions) -> (support: Option<
    ModVersions,
>)
    ensures
        match support {
            Some(support) => {
                &&& !m.manual()
                &&& support@ == (if m.modrinth is Some {
                    modrinth@
                } else {
                    Set::empty()
                }).union(
                    if m.curseforge is Some {
                        curseforge@
                    } else {
                        Set::empty()
                    },
                )
            },
            None => m.manual(),
        },
{
    if m.is_manual() {
        return None;
    }
    let from_modrinth = if m.modrinth.is_some() {
        modrinth.clone()
    } else {
        ModVersions::new()
    };
    let from_curseforge = if m.curseforge.is_some() {
        curseforge.clone()
    } else {
        ModVersions::new()
    };
    Some(from_modrinth.union(&from_curseforge))
}

/// Checks a pack: finds the loader and game version that suit the given
/// version sets, one set for each mod that a catalog knows, and lists the
/// mods that have to be installed by hand.
///
/// Where a loader and version are found they are written into the pack;
/// otherwise the pack is left as it was.
pub fn check(pack: &mut Modpack, versions: &[ModVersions]) -> (outcome: (
    Option<(ModLoader, String)>,
    Vec<String>,
))
    ensures
        outcome.1.deep_view() == manual_names(old(pack).mods@),
        match outcome.0 {
            Some((loader, version)) => {
                &&& resolution(supports_of(versions@), None, None) == Some((loader, version@))
                &&& final(pack).loader == Some(loader)
                &&& final(pack).minecraft_version == Some(version)
                &&& *final(pack) == (Modpack {
                    loader: final(pack).loader,
                    minecraft_version: final(pack).minecraft_version,
                    ..*old(pack)
                })
            },
            None => {
                &&& resolution(supports_of(versions@), None, None) is None
                &&& *final(pack) == *old(pack)
            },
        },
{
    let manual = manual_mods(pack);
    match find_compatible(versions, None, None) {
        Some((loader, version)) => {
            pack.loader = Some(loader);
            pack.minecraft_version = Some(version.clone());
            (Some((loader, version)), manual)
        },
        None => (None, manual),
    }
}

/// What a loader's metadata service returned for a game version.
#[derive(Debug, PartialEq, Eq)]
pub enum LoaderFeed {
    /// The loader versions listed for the game version, newest first.
    /// Fabric and Quilt publish such a listing.
    Listing(Vec<String>),
    /// The text of a Maven metadata document.  Forge and NeoForge publish
    /// one.
    Metadata(String),
}

/// The build that a feed names for a loader and a game version, or the
/// reason why it names none.
pub open spec fn loader_build(loader: ModLoader, version: Seq<char>, feed: LoaderFeed) -> Result<
    Seq<char>,
    LoaderBuildError,
> {
    match (loader, feed) {
        (ModLoader::Fabric, LoaderFeed::Listing(listed)) => listed_build(
            listed.deep_view(),
            "fabric-"@,
        ),
        (ModLoader::Quilt, LoaderFeed::Listing(listed)) => listed_build(
            listed.deep_view(),
            "quilt-"@,
        ),
        (ModLoader::Forge, LoaderFeed::Metadata(text)) => metadata_build(
            text@,
            version,
            "forge"@,
        ),
        (ModLoader::Neoforge, LoaderFeed::Metadata(text)) => metadata_build(
            text@,
            version,
            "neoforge"@,
        ),
        _ => Err(LoaderBuildError::WrongFeed),
    }
}

/// The build that a listing names: its first loader version behind
/// `token`; an empty listing names none.
pub open spec fn listed_build(listed: Seq<Seq<char>>, token: Seq<char>) -> Result<
    Seq<char>,
    LoaderBuildError,
> {
    match first_listed(listed, token) {
        Some(name) => Ok(name),
        None => Err(LoaderBuildError::NoStableBuild),
    }
}

/// Names the loader build to ship for a loader and a game version, given
/// what the loader's metadata service returned for that game version.
///
/// Fabric and Quilt take the first loader version of their listing; Forge
/// and NeoForge take the latest stable build of their Maven metadata.  A
/// feed of the wrong kind for the loader is refused, and so is metadata
/// that is not well-formed.
pub fn get_loader_version(loader: ModLoader, version: &str, feed: &LoaderFeed) -> (name: Result<
    String,
    LoaderBuildError,
>)
    ensures
        match name {
            Ok(name) => loader_build(loader, version@, *feed) == Ok::<
                Seq<char>,
                LoaderBuildError,
            >(name@),
            Err(reason) => loader_build(loader, version@, *feed) == Err::<
                Seq<char>,
                LoaderBuildError,
            >(reason),
        },
{
    match feed {
        LoaderFeed::Listing(listed) => match loader {
            ModLoader::Fabric => get_stable_fabric_for_version(listed),
            ModLoader::Quilt => get_latest_quilt_for_version(listed),
            _ => Err(LoaderBuildError::WrongFeed),
        },
        LoaderFeed::Metadata(text) => match loader {
            ModLoader::Forge => get_latest_forge_version(text.as_str(), version),
            ModLoader::Neoforge => get_latest_neoforge_version(text.as_str(), version),
            _ => Err(LoaderBuildError::WrongFeed),
        },
    }
}

/// Why an export cannot go ahead.
#[derive(Debug, Clone, Copy, PartialEq, Eq, Structural)]
pub enum ExportError {
    /// Not exactly one of the three format switches is set.
    FormatSelection,
    /// The chosen format cannot be written yet.
    Unsupported(ExportFormat),
    /// The pack has no resolved loader.
    NoLoader,
    /// The pack has no resolved game version.
    NoMinecraftVersion,
}

/// The mods of a pack, sorted by the catalogs that know them.  Each group
/// keeps the order the mods have in the pack.
#[derive(Debug, PartialEq, Eq)]
pub struct ProviderGroups {
    pub both: Vec<Mod>,
    pub modrinth_only: Vec<Mod>,
    pub curseforge_only: Vec<Mod>,
    pub manual: Vec<Mod>,
}

/// What a CurseForge export has to fetch and pack.
#[derive(Debug, PartialEq, Eq)]
pub struct ExportPlan {
    pub loader: ModLoader,
    pub minecraft_version: String,
    /// The CurseForge projects to pin a file of, in manifest order.
    pub projects: Vec<u32>,
    pub groups: ProviderGroups,
}

/// Known to both catalogs.
pub open spec fn on_both(m: Mod) -> bool {
    m.modrinth is Some && m.curseforge is Some
}

/// Known to Modrinth alone.
pub open spec fn on_modrinth_only(m: Mod) -> bool {
    m.modrinth is Some && m.curseforge is None
}

/// Known to CurseForge alone.
pub open spec fn on_curseforge_only(m: Mod) -> bool {
    m.modrinth is None && m.curseforge is Some
}

/// Known to no catalog.
pub open spec fn on_neither(m: Mod) -> bool {
    m.manual()
}

/// The CurseForge project id of a mod, or 0 where CurseForge does not know it.
pub open spec fn project_id(m: Mod) -> u32 {
    match m.curseforge {
        Some(found) => found.id,
        None => 0,
    }
}

/// The projects of a CurseForge manifest: first the mods that only
/// CurseForge knows, then those that both catalogs know.
pub open spec fn manifest_projects(mods: Seq<Mod>) -> Seq<u32> {
    (mods.filter(|m: Mod| on_curseforge_only(m)) + mods.filter(|m: Mod| on_both(m))).map_values(
        |m: Mod| project_id(m),
    )
}

/// The format that the three switches select: exactly one of them has to be
/// set.
pub open spec fn chosen_format(curseforge: bool, modrinth: bool, neither: bool) -> Option<
    ExportFormat,
> {
    if curseforge && !modrinth && !neither {
        Some(ExportFormat::Curseforge)
    } else if !curseforge && modrinth && !neither {
        Some(ExportFormat::Modrinth)
    } else if !curseforge && !modrinth && neither {
        Some(ExportFormat::Modpackr)
    } else {
        None
    }
}

/// The reason, if there is one, why a pack cannot be exported under the
/// given switches.  Only the CurseForge format can be written, and it needs
/// the pack's loader and game version to be resolved.
pub open spec fn export_refusal(pack: Modpack, curseforge: bool, modrinth: bool, neither: bool)
    -> Option<ExportError> {
    match chosen_format(curseforge, modrinth, neither) {
        None => Some(ExportError::FormatSelection),
        Some(ExportFormat::Modrinth) => Some(ExportError::Unsupported(ExportFormat::Modrinth)),
        Some(ExportFormat::Modpackr) => Some(ExportError::Unsupported(ExportFormat::Modpackr)),
        Some(ExportFormat::Curseforge) => if pack.loader is None {
            Some(ExportError::NoLoader)
        } else if pack.minecraft_version is None {
            Some(ExportError::NoMinecraftVersion)
        } else {
            None
        },
    }
}

/// Reads the three format switches.
pub fn export_format(curseforge: bool, modrinth: bool, neither: bool) -> (format: Result<
    ExportFormat,
    ExportError,
>)
    ensures
        format == match chosen_format(curseforge, modrinth, neither) {
            Some(chosen) => Ok::<ExportFormat, ExportError>(chosen),
            None => Err(ExportError::FormatSelection),
        },
{
    let mut set: u8 = 0;
    if curseforge {
        set = set + 1;
    }
    if modrinth {
        set = set + 1;
    }
    if neither {
        set = set + 1;
    }
    if set != 1 {
        Err(ExportError::FormatSelection)
    } else if curseforge {
        Ok(ExportFormat::Curseforge)
    } else if modrinth {
        Ok(ExportFormat::Modrinth)
    } else {
        Ok(ExportFormat::Modpackr)
    }
}

/// Sorts mods by the catalogs that know them.
pub fn group_by_provider(mods: &Vec<Mod>) -> (groups: ProviderGroups)
    ensures
        groups.both@ == mods@.filter(|m: Mod| on_both(m)),
        groups.modrinth_only@ == mods@.filter(|m: Mod| on_modrinth_only(m)),
        groups.curseforge_only@ == mods@.filter(|m: Mod| on_curseforge_only(m)),
        groups.manual@ == mods@.filter(|m: Mod| on_neither(m)),
{
    let mut both: Vec<Mod> = Vec::new();
    let mut modrinth_only: Vec<Mod> = Vec::new();
    let mut curseforge_only: Vec<Mod> = Vec::new();
    let mut manual: Vec<Mod> = Vec::new();
    let mut i: usize = 0;
    proof {
        let none = mods@.take(0);
        assert(none.filter(|m: Mod| on_both(m)) =~= Seq::<Mod>::empty()) by {
            none.lemma_filter_len(|m: Mod| on_both(m));
        }
        assert(none.filter(|m: Mod| on_modrinth_only(m)) =~= Seq::<Mod>::empty()) by {
            none.lemma_filter_len(|m: Mod| on_modrinth_only(m));
        }
        assert(none.filter(|m: Mod| on_curseforge_only(m)) =~= Seq::<Mod>::empty()) by {
            none.lemma_filter_len(|m: Mod| on_curseforge_only(m));
        }
        assert(none.filter(|m: Mod| on_neither(m)) =~= Seq::<Mod>::empty()) by {
            none.lemma_filter_len(|m: Mod| on_neither(m));
        }
    }
    while i < mods.len()
        invariant
            i <= mods.len(),
            both@ == mods@.take(i as int).filter(|m: Mod| on_both(m)),
            modrinth_only@ == mods@.take(i as int).filter(|m: Mod| on_modrinth_only(m)),
            curseforge_only@ == mods@.take(i as int).filter(|m: Mod| on_curseforge_only(m)),
            manual@ == mods@.take(i as int).filter(|m: Mod| on_neither(m)),
        decreases mods.len() - i,
    {
        let m = &mods[i];
        proof {
            let seen = mods@.take(i as int);
            mods@.lemma_take_succ_push(i as int);
            seen.lemma_filter_push(mods@[i as int], |m: Mod| on_both(m));
            seen.lemma_filter_push(mods@[i as int], |m: Mod| on_modrinth_only(m));
            seen.lemma_filter_push(mods@[i as int], |m: Mod| on_curseforge_only(m));
            seen.lemma_filter_push(mods@[i as int], |m: Mod| on_neither(m));
        }
        if m.modrinth.is_some() {
            if m.curseforge.is_some() {
                both.push(m.clone());
            } else {
                modrinth_only.push(m.clone());
            }
        } else if m.curseforge.is_some() {
            curseforge_only.push(m.clone());
        } else {
            manual.push(m.clone());
        }
        i += 1;
    }
    proof {
        mods@.lemma_take_len();
    }
    ProviderGroups { both, modrinth_only, curseforge_only, manual }
}

/// Appends the CurseForge project ids of `mods` to `projects`.
fn push_project_ids(projects: &mut Vec<u32>, mods: &Vec<Mod>)
    ensures
        final(projects)@ == old(projects)@ + mods@.map_values(|m: Mod| project_id(m)),
{
    let mut i: usize = 0;
    while i < mods.len()
        invariant
            i <= mods.len(),
            projects@ == old(projects)@ + mods@.take(i as int).map_values(|m: Mod| project_id(m)),
        decreases mods.len() - i,
    {
        let id: u32 = match &mods[i].curseforge {
            Some(found) => found.id,
            None => 0,
        };
        proof {
            mods@.lemma_take_succ_push(i as int);
            mods@.take(i as int).lemma_push_map_commute(|m: Mod| project_id(m), mods@[i as int]);
        }
        projects.push(id);
        i += 1;
    }
    proof {
        mods@.lemma_take_len();
    }
}

/// Plans the export of a pack.
///
/// Exactly one of the three switches selects the format.  Only the
/// CurseForge format can be planned; it needs the pack's loader and game
/// version, and lists the projects to pin a file of: the mods that only
/// CurseForge knows, then the mods that both catalogs know.
pub fn export(pack: &Modpack, curseforge: bool, modrinth: bool, neither: bool) -> (plan: Result<
    ExportPlan,
    ExportError,
>)
    ensures
        match plan {
            Ok(plan) => {
                &&& export_refusal(*pack, curseforge, modrinth, neither) is None
                &&& Some(plan.loader) == pack.loader
                &&& Some(plan.minecraft_version) == pack.minecraft_version
                &&& plan.projects@ == manifest_projects(pack.mods@)
                &&& plan.groups.both@ == pack.mods@.filter(|m: Mod| on_both(m))
                &&& plan.groups.modrinth_only@ == pack.mods@.filter(|m: Mod| on_modrinth_only(m))
                &&& plan.groups.curseforge_only@ == pack.mods@.filter(
                    |m: Mod| on_curseforge_only(m),
                )
                &&& plan.groups.manual@ == pack.mods@.filter(|m: Mod| on_neither(m))
            },
            Err(reason) => export_refusal(*pack, curseforge, modrinth, neither) == Some(reason),
        },
{
    let format = match export_format(curseforge, modrinth, neither) {
        Ok(format) => format,
        Err(reason) => {
            return Err(reason);
        },
    };
    match format {
        ExportFormat::Modrinth => {
            return Err(ExportError::Unsupported(ExportFormat::Modrinth));
        },
        ExportFormat::Modpackr => {
            return Err(ExportError::Unsupported(ExportFormat::Modpackr));
        },
        ExportFormat::Curseforge => {},
    }
    let loader = match pack.loader {
        Some(loader) => loader,
        None => {
            return Err(ExportError::NoLoader);
        },
    };
    let minecraft_version = match &pack.minecraft_version {
        Some(version) => version.clone(),
        None => {
            return Err(ExportError::NoMinecraftVersion);
        },
    };
    let groups = group_by_provider(&pack.mods);
    let mut projects: Vec<u32> = Vec::new();
    push_project_ids(&mut projects, &groups.curseforge_only);
    push_project_ids(&mut projects, &groups.both);
    proof {
        let first = groups.curseforge_only@;
        let second = groups.both@;
        assert(projects@ =~= (first + second).map_values(|m: Mod| project_id(m)));
    }
    Ok(ExportPlan { loader, minecraft_version, projects, groups })
}

} // verus!
