//! What the CurseForge catalog says of a mod and of its release files, and
//! the manifest that a CurseForge pack archive carries.

use crate::loader::ModLoader;
use crate::pack::Modpack;
use crate::text::{
    first_is_digit, has_string, last_segment, last_segment_of, lowercase_all, lowercased, same,
    starts_with_digit,
};
use crate::tokens::TokenSet;
use crate::versions::ModVersions;
use vstd::prelude::*;
use vstd::string::StringExecFns;

verus! {

/// A mod as the CurseForge catalog describes it.
#[derive(Debug, Default, PartialEq, Eq, PartialOrd, Ord, Hash)]
pub struct CurseforgeMod {
    pub id: u32,
    pub name: String,
    pub summary: String,
    pub slug: String,
}

impl Clone for CurseforgeMod {
    fn clone(&self) -> (copy: Self)
        ensures
            copy == *self,
    {
        CurseforgeMod {
            id: self.id,
            name: self.name.clone(),
            summary: self.summary.clone(),
            slug: self.slug.clone(),
        }
    }
}

/// The moment a release file was published: whole seconds since the Unix
/// epoch, and the nanoseconds within that second.
#[derive(Debug, Clone, Copy, PartialEq, Eq, PartialOrd, Ord, Hash)]
pub struct Timestamp {
    pub seconds: i64,
    pub nanos: u32,
}

impl Timestamp {
    /// Whether `self` lies strictly after `other`.
    pub open spec fn after(self, other: Timestamp) -> bool {
        self.seconds > other.seconds || (self.seconds == other.seconds && self.nanos
            > other.nanos)
    }

    /// Whether `self` lies strictly after `other`.
    pub fn is_after(&self, other: &Timestamp) -> (later: bool)
        ensures
            later == self.after(*other),
    {
        self.seconds > other.seconds || (self.seconds == other.seconds && self.nanos
            > other.nanos)
    }
}

/// One release file of a mod.
#[derive(Debug, PartialEq, Eq)]
pub struct CurseforgeModFile {
    pub id: u32,
    pub file_name: String,
    /// The release channel: 1 is release, 2 is beta, 3 is alpha.  No other
    /// number names a channel.
    pub release_type: u8,
    pub file_date: Timestamp,
    /// The loader names and game versions the file declares support for.
    pub game_versions: Vec<String>,
}

/// The reference to one file in a pack manifest.
#[derive(Debug, Clone, Copy, PartialEq, Eq, Structural)]
pub struct CurseforgeManifestFile {
    pub project_id: u32,
    pub file_id: u32,
}

/// One loader entry of a pack manifest.
#[derive(Debug, PartialEq, Eq)]
pub struct CurseforgeModLoaderEntry {
    pub id: String,
    pub primary: bool,
}

/// The game section of a pack manifest.
#[derive(Debug, PartialEq, Eq)]
pub struct CurseforgeMinecraftManifest {
    pub version: String,
    pub mod_loaders: Vec<CurseforgeModLoaderEntry>,
}

/// The manifest of a CurseForge pack archive.
#[derive(Debug, PartialEq, Eq)]
pub struct CurseforgeManifest {
    pub minecraft: CurseforgeMinecraftManifest,
    pub manifest_type: String,
    pub manifest_version: u8,
    pub name: String,
    pub version: String,
    pub author: String,
    pub files: Vec<CurseforgeManifestFile>,
    pub overrides: String,
}

/// What one release file supports, read from its tags in lower case: each
/// loader whose name is among the tags, with each tag that starts with a
/// digit as a game version.
pub open spec fn tagged_support(tags: Seq<Seq<char>>) -> Set<(ModLoader, Seq<char>)> {
    Set::new(
        |pair: (ModLoader, Seq<char>)|
            tags.contains(pair.0.token()) && tags.contains(pair.1) && starts_with_digit(pair.1),
    )
}

/// What the release files of a mod support together.  The tags of each
/// file are read without regard to case, and versions are kept in lower
/// case.
pub open spec fn files_support(files: Seq<Seq<Seq<char>>>) -> Set<(ModLoader, Seq<char>)> {
    Set::new(
        |pair: (ModLoader, Seq<char>)|
            exists|f: int|
                0 <= f < files.len() && tagged_support(lowercased(#[trigger] files[f])).contains(
                    pair,
                ),
    )
}

/// The tags that start with a digit: the game versions among the tags.
pub fn version_tags(tags: &Vec<String>) -> (versions: TokenSet)
    ensures
        versions@ == Set::new(
            |v: Seq<char>| tags.deep_view().contains(v) && starts_with_digit(v),
        ),
{
    let mut versions = TokenSet::new();
    let mut i: usize = 0;
    while i < tags.len()
        invariant
            i <= tags.len(),
            versions@ == Set::new(
                |v: Seq<char>| tags.deep_view().take(i as int).contains(v) && starts_with_digit(v),
            ),
        decreases tags.len() - i,
    {
        let ghost seen = tags.deep_view().take(i as int);
        let ghost more = tags.deep_view().take(i + 1);
        let ghost tag = tags@[i as int]@;
        proof {
            tags.deep_view().lemma_take_succ_push(i as int);
            assert(more =~= seen.push(tag));
            assert forall|v: Seq<char>| more.contains(v) <==> seen.contains(v) || v == tag by {
                vstd::seq_lib::lemma_seq_contains_after_push(seen, tag, v);
            }
        }
        if first_is_digit(tags[i].as_str()) {
            versions.insert(tags[i].clone());
        }
        proof {
            assert(versions@ =~= Set::new(
                |v: Seq<char>| more.contains(v) && starts_with_digit(v),
            ));
        }
        i += 1;
    }
    proof {
        tags.deep_view().lemma_take_len();
    }
    versions
}

/// What one release file supports, given its tags in lower case.
pub fn support_of_tags(tags: &Vec<String>) -> (support: ModVersions)
    ensures
        support@ == tagged_support(tags.deep_view()),
{
    let versions = version_tags(tags);
    let mut support = ModVersions::new();
    if has_string(tags, ModLoader::Fabric.name()) {
        support.insert_all(ModLoader::Fabric, &versions);
    }
    if has_string(tags, ModLoader::Forge.name()) {
        support.insert_all(ModLoader::Forge, &versions);
    }
    if has_string(tags, ModLoader::Neoforge.name()) {
        support.insert_all(ModLoader::Neoforge, &versions);
    }
    if has_string(tags, ModLoader::Quilt.name()) {
        support.insert_all(ModLoader::Quilt, &versions);
    }
    assert(support@ =~= tagged_support(tags.deep_view()));
    support
}

/// What a mod supports, read from the tags of its release files: one list
/// of tags for each file.
///
/// A file supports each loader that its tags name, without regard to case,
/// under each of its tags that starts with a digit; the mod supports what
/// any of its files supports.
pub fn get_versions(files: &Vec<Vec<String>>) -> (support: ModVersions)
    ensures
        support@ == files_support(files.deep_view()),
{
    let mut support = ModVersions::new();
    let mut f: usize = 0;
    while f < files.len()
        invariant
            f <= files.len(),
            support@ == files_support(files.deep_view().take(f as int)),
        decreases files.len() - f,
    {
        let ghost seen = files.deep_view().take(f as int);
        let ghost more = files.deep_view().take(f + 1);
        let lower = lowercase_all(&files[f]);
        let of_file = support_of_tags(&lower);
        support = support.union(&of_file);
        proof {
            assert(more[f as int] == files@[f as int].deep_view());
            assert(support@ =~= files_support(more)) by {
                assert forall|pair: (ModLoader, Seq<char>)|
                    files_support(more).contains(pair) implies files_support(seen).contains(pair)
                    || of_file@.contains(pair) by {
                    let k = choose|k: int|
                        0 <= k < more.len() && tagged_support(lowercased(#[trigger] more[k])).contains(
                            pair,
                        );
                    if k < f {
                        assert(seen[k] == more[k]);
                    }
                }
                assert forall|pair: (ModLoader, Seq<char>)|
                    files_support(seen).contains(pair) implies files_support(more).contains(
                        pair,
                    ) by {
                    let k = choose|k: int|
                        0 <= k < seen.len() && tagged_support(lowercased(#[trigger] seen[k])).contains(
                            pair,
                        );
                    assert(more[k] == seen[k]);
                }
                assert forall|pair: (ModLoader, Seq<char>)|
                    of_file@.contains(pair) implies files_support(more).contains(pair) by {
                    assert(tagged_support(lowercased(more[f as int])).contains(pair));
                }
            }
        }
        f += 1;
    }
    proof {
        files.deep_view().lemma_take_len();
    }
    support
}

/// No release file of a mod is stable and made for the loader.
#[derive(Debug, Clone, Copy, PartialEq, Eq, Structural)]
pub struct NoStableFile {
    pub project_id: u32,
    pub loader: ModLoader,
}

/// Whether a file may be shipped for a loader: its channel is release or
/// beta, and the loader's name is among its tags.  An alpha file may not be
/// shipped, nor a file whose channel number names no channel.
pub open spec fn stable_for(file: CurseforgeModFile, loader: ModLoader) -> bool {
    (file.release_type == 1 || file.release_type == 2)
        && file.game_versions.deep_view().contains(loader.display_token())
}

/// Whether the file at position `at` is the one to ship for a loader: it
/// may be shipped, no file that may be shipped was published after it, and
/// every such file that stands before it was published earlier.
pub open spec fn is_latest_stable(files: Seq<CurseforgeModFile>, loader: ModLoader, at: int)
    -> bool {
    &&& 0 <= at < files.len()
    &&& stable_for(files[at], loader)
    &&& forall|j: int|
        0 <= j < files.len() && stable_for(#[trigger] files[j], loader) ==> !files[j].file_date.after(
            files[at].file_date,
        )
    &&& forall|j: int|
        0 <= j < at && stable_for(#[trigger] files[j], loader) ==> files[at].file_date.after(
            files[j].file_date,
        )
}

/// At most one file of a list is the one to ship.
pub proof fn lemma_latest_stable_is_unique(
    files: Seq<CurseforgeModFile>,
    loader: ModLoader,
    a: int,
    b: int,
)
    requires
        is_latest_stable(files, loader, a),
        is_latest_stable(files, loader, b),
    ensures
        a == b,
{
}

/// A file that is the one to ship is a release or a beta, never an alpha,
/// and no file that may be shipped was published after it.
pub proof fn lemma_latest_stable_is_latest(
    files: Seq<CurseforgeModFile>,
    loader: ModLoader,
    at: int,
    other: int,
)
    requires
        is_latest_stable(files, loader, at),
        0 <= other < files.len(),
    ensures
        files[at].release_type == 1 || files[at].release_type == 2,
        files[other].release_type == 3 ==> other != at,
        stable_for(files[other], loader) ==> !files[other].file_date.after(files[at].file_date),
{
}

/// Whether a file may be shipped for a loader.
pub fn is_stable_for(file: &CurseforgeModFile, loader: ModLoader) -> (stable: bool)
    ensures
        stable == stable_for(*file, loader),
{
    (file.release_type == 1 || file.release_type == 2) && has_string(
        &file.game_versions,
        loader.display_name(),
    )
}

/// Whether some file of the list may be shipped for the loader.
pub open spec fn has_stable(files: Seq<CurseforgeModFile>, loader: ModLoader) -> bool {
    exists|j: int| 0 <= j < files.len() && stable_for(#[trigger] files[j], loader)
}

/// Whether `file_id` is the id of the file to ship for the loader.
pub open spec fn ships(files: Seq<CurseforgeModFile>, loader: ModLoader, file_id: u32) -> bool {
    exists|at: int| is_latest_stable(files, loader, at) && (#[trigger] files[at]).id == file_id
}

/// Chooses the release file to ship for a mod and a loader among the
/// release files of the mod.
///
/// Only release and beta files tagged with the loader's name count; alpha
/// files are passed over.  Of those that count the one published last is
/// taken, and of several published at the same moment the first.
pub fn latest_stable(id: u32, loader: ModLoader, files: &Vec<CurseforgeModFile>) -> (chosen:
    Result<CurseforgeManifestFile, NoStableFile>)
    ensures
        match chosen {
            Ok(file) => {
                &&& file.project_id == id
                &&& ships(files@, loader, file.file_id)
                &&& has_stable(files@, loader)
            },
            Err(reason) => {
                &&& reason == (NoStableFile { project_id: id, loader })
                &&& !has_stable(files@, loader)
            },
        },
{
    let mut best: Option<usize> = None;
    let mut i: usize = 0;
    while i < files.len()
        invariant
            i <= files.len(),
            match best {
                Some(at) => at < i && is_latest_stable(files@.take(i as int), loader, at as int),
                None => forall|j: int| 0 <= j < i ==> !stable_for(#[trigger] files@[j], loader),
            },
        decreases files.len() - i,
    {
        let ghost seen = files@.take(i as int);
        let ghost more = files@.take(i + 1);
        let takes_over = is_stable_for(&files[i], loader) && match best {
            Some(at) => files[i].file_date.is_after(&files[at].file_date),
            None => true,
        };
        proof {
            assert forall|j: int| 0 <= j < i implies seen[j] == more[j] by {}
            assert(more[i as int] == files@[i as int]);
        }
        if takes_over {
            proof {
                match best {
                    Some(at) => {
                        assert forall|j: int|
                            0 <= j < more.len() && stable_for(
                                #[trigger] more[j],
                                loader,
                            ) implies !more[j].file_date.after(more[i as int].file_date) by {
                            if j < i {
                                assert(stable_for(seen[j], loader));
                            }
                        }
                        assert forall|j: int|
                            0 <= j < i && stable_for(
                                #[trigger] more[j],
                                loader,
                            ) implies more[i as int].file_date.after(more[j].file_date) by {
                            assert(stable_for(seen[j], loader));
                        }
                    },
                    None => {
                        assert forall|j: int| 0 <= j < i implies !stable_for(
                            #[trigger] more[j],
                            loader,
                        ) by {
                            assert(!stable_for(files@[j], loader));
                        }
                    },
                }
                assert(is_latest_stable(more, loader, i as int));
            }
            best = Some(i);
        } else {
            proof {
                match best {
                    Some(at) => {
                        assert forall|j: int|
                            0 <= j < more.len() && stable_for(
                                #[trigger] more[j],
                                loader,
                            ) implies !more[j].file_date.after(more[at as int].file_date) by {
                            if j < i {
                                assert(stable_for(seen[j], loader));
                            }
                        }
                        assert forall|j: int|
                            0 <= j < at && stable_for(
                                #[trigger] more[j],
                                loader,
                            ) implies more[at as int].file_date.after(more[j].file_date) by {
                            assert(stable_for(seen[j], loader));
                        }
                        assert(is_latest_stable(more, loader, at as int));
                    },
                    None => {},
                }
            }
        }
        i += 1;
    }
    proof {
        assert(files@.take(i as int) =~= files@);
    }
    match best {
        Some(at) => {
            assert(stable_for(files@[at as int], loader));
            Ok(CurseforgeManifestFile { project_id: id, file_id: files[at].id })
        },
        None => Err(NoStableFile { project_id: id, loader }),
    }
}

/// Chooses the release file to ship for each of the projects of an export,
/// each given with its release files.  The first project without a file
/// that may be shipped ends the selection.
pub fn select_export_builds(loader: ModLoader, projects: &Vec<(u32, Vec<CurseforgeModFile>)>) -> (
    chosen: Result<Vec<CurseforgeManifestFile>, NoStableFile>)
    ensures
        match chosen {
            Ok(list) => {
                &&& list@.len() == projects@.len()
                &&& forall|k: int|
                    0 <= k < projects@.len() ==> (#[trigger] list@[k]).project_id == projects@[k].0
                        && ships(projects@[k].1@, loader, list@[k].file_id)
            },
            Err(reason) => exists|k: int|
                {
                    &&& 0 <= k < projects@.len()
                    &&& reason == (NoStableFile { project_id: (#[trigger] projects@[k]).0, loader })
                    &&& !has_stable(projects@[k].1@, loader)
                    &&& forall|before: int|
                        0 <= before < k ==> has_stable((#[trigger] projects@[before]).1@, loader)
                },
        },
{
    let mut list: Vec<CurseforgeManifestFile> = Vec::new();
    let mut k: usize = 0;
    while k < projects.len()
        invariant
            k <= projects.len(),
            list@.len() == k,
            forall|n: int|
                0 <= n < k ==> (#[trigger] list@[n]).project_id == projects@[n].0 && ships(
                    projects@[n].1@,
                    loader,
                    list@[n].file_id,
                ),
            forall|before: int|
                0 <= before < k ==> has_stable((#[trigger] projects@[before]).1@, loader),
        decreases projects.len() - k,
    {
        match latest_stable(projects[k].0, loader, &projects[k].1) {
            Ok(file) => {
                list.push(file);
            },
            Err(reason) => {
                assert(reason == (NoStableFile { project_id: projects@[k as int].0, loader }));
                return Err(reason);
            },
        }
        k += 1;
    }
    Ok(list)
}

/// The project that an address of the catalog names: the last segment of
/// its path.
pub fn slug_of(url: &str) -> (slug: String)
    ensures
        slug@ == last_segment(url@),
{
    last_segment_of(url)
}

/// The mod that an address of the catalog names is not among the results
/// of the search for it.
#[derive(Debug, Clone, Copy, PartialEq, Eq, Structural)]
pub struct NotInSearch;

/// Finds the mod that an address of the catalog names among the results of
/// the search for its slug: the first result whose slug is the last
/// segment of the address.  Returns the id under which the catalog holds it.
pub fn from_url(url: &str, search_result: &Vec<CurseforgeMod>) -> (id: Result<u32, NotInSearch>)
    ensures
        match id {
            Ok(id) => exists|at: int|
                {
                    &&& 0 <= at < search_result@.len()
                    &&& (#[trigger] search_result@[at]).slug@ == last_segment(url@)
                    &&& search_result@[at].id == id
                    &&& forall|j: int|
                        0 <= j < at ==> (#[trigger] search_result@[j]).slug@ != last_segment(url@)
                },
            Err(_) => forall|j: int|
                0 <= j < search_result@.len() ==> (#[trigger] search_result@[j]).slug@
                    != last_segment(url@),
        },
{
    let slug = slug_of(url);
    let mut i: usize = 0;
    while i < search_result.len()
        invariant
            i <= search_result.len(),
            slug@ == last_segment(url@),
            forall|j: int| 0 <= j < i ==> (#[trigger] search_result@[j]).slug@ != slug@,
        decreases search_result.len() - i,
    {
        if same(search_result[i].slug.as_str(), slug.as_str()) {
            return Ok(search_result[i].id);
        }
        i += 1;
    }
    Err(NotInSearch)
}

impl CurseforgeManifest {
    /// The manifest of a pack: its name, version and author, the game
    /// version with the loader build as its one, primary loader, and the
    /// chosen files.
    pub fn new(
        pack: &Modpack,
        minecraft_version: String,
        loader_build: String,
        files: Vec<CurseforgeManifestFile>,
    ) -> (manifest: CurseforgeManifest)
        ensures
            manifest.minecraft.version == minecraft_version,
            manifest.minecraft.mod_loaders@ == seq![
                CurseforgeModLoaderEntry { id: loader_build, primary: true },
            ],
            manifest.manifest_type@ == "minecraftModpack"@,
            manifest.manifest_version == 1,
            manifest.name == pack.name,
            manifest.version == pack.version,
            manifest.author == pack.author,
            manifest.files == files,
            manifest.overrides@ == "overrides"@,
    {
        let mut mod_loaders: Vec<CurseforgeModLoaderEntry> = Vec::new();
        mod_loaders.push(CurseforgeModLoaderEntry { id: loader_build, primary: true });
        CurseforgeManifest {
            minecraft: CurseforgeMinecraftManifest { version: minecraft_version, mod_loaders },
            manifest_type: "minecraftModpack".to_owned(),
            manifest_version: 1,
            name: pack.name.clone(),
            version: pack.version.clone(),
            author: pack.author.clone(),
            files,
            overrides: "overrides".to_owned(),
        }
    }
}

/// The file name of the archive that a CurseForge export writes: the
/// pack's name, its version, and `curseforge.zip`, joined by hyphens.
pub fn archive_name(pack: &Modpack) -> (name: String)
    ensures
        name@ == pack.name@ + "-"@ + pack.version@ + "-curseforge.zip"@,
{
    let mut name = pack.name.clone();
    name.append("-");
    name.append(pack.version.as_str());
    name.append("-curseforge.zip");
    name
}

} // verus!
