use modpackr::curseforge::{
    archive_name, from_url, slug_of, CurseforgeManifest, CurseforgeManifestFile,
    CurseforgeMinecraftManifest, CurseforgeMod, CurseforgeModLoaderEntry, NotInSearch,
};
use modpackr::loader::ModLoader;
use modpackr::modrinth::{get_modrinth_mod_from_url, ModrinthMod};
use modpackr::pack::{ExportFormat, Mod, Modpack};
use modpackr::tokens::TokenSet;
use modpackr::util::{
    add_mod, check, check_sources, export, export_format, find_compatible, group_by_provider,
    manual_mods, AddModError, ExportError,
};
use modpackr::versions::ModVersions;

fn set(items: &[&str]) -> TokenSet {
    TokenSet::from_vec(&items.iter().map(|s| s.to_string()).collect())
}

fn support(fabric: &[&str], forge: &[&str], neo_forge: &[&str], quilt: &[&str]) -> ModVersions {
    ModVersions { fabric: set(fabric), forge: set(forge), neo_forge: set(neo_forge), quilt: set(quilt) }
}

fn on_curseforge(id: u32, slug: &str) -> CurseforgeMod {
    CurseforgeMod { id, name: slug.to_uppercase(), summary: String::new(), slug: slug.to_string() }
}

fn on_modrinth(id: &str) -> ModrinthMod {
    ModrinthMod {
        id: id.to_string(),
        title: id.to_uppercase(),
        description: String::new(),
        slug: id.to_string(),
    }
}

fn a_mod(name: &str, curseforge: Option<u32>, modrinth: Option<&str>) -> Mod {
    Mod {
        name: name.to_string(),
        curseforge: curseforge.map(|id| on_curseforge(id, name)),
        modrinth: modrinth.map(on_modrinth),
    }
}

fn a_pack() -> Modpack {
    let mut pack = Modpack::new("pack".to_string());
    pack.author = "me".to_string();
    pack.mods = vec![
        a_mod("both-one", Some(1), Some("m1")),
        a_mod("hand-one", None, None),
        a_mod("curse-one", Some(2), None),
        a_mod("rinth-one", None, Some("m3")),
        a_mod("curse-two", Some(4), None),
        a_mod("both-two", Some(5), Some("m5")),
        a_mod("hand-two", None, None),
    ];
    pack
}

#[test]
fn mod_with_neither_catalog_nor_manual_mark_is_refused() {
    let mut pack = a_pack();
    let before = pack.clone();
    assert_eq!(
        add_mod(&mut pack, "x".to_string(), None, None, false),
        Err(AddModError::SourceNotSpecified)
    );
    assert_eq!(pack, before);
    assert_eq!(check_sources(false, false, false), Err(AddModError::SourceNotSpecified));
}

#[test]
fn mod_with_catalog_and_manual_mark_is_refused() {
    let mut pack = a_pack();
    let before = pack.clone();
    assert_eq!(
        add_mod(&mut pack, "x".to_string(), Some(on_curseforge(9, "x")), None, true),
        Err(AddModError::SourceNotSpecified)
    );
    assert_eq!(
        add_mod(&mut pack, "x".to_string(), None, Some(on_modrinth("x")), true),
        Err(AddModError::SourceNotSpecified)
    );
    assert_eq!(
        add_mod(&mut pack, "x".to_string(), Some(on_curseforge(9, "x")), Some(on_modrinth("x")), true),
        Err(AddModError::SourceNotSpecified)
    );
    assert_eq!(pack, before);
    assert_eq!(check_sources(true, false, true), Err(AddModError::SourceNotSpecified));
    assert_eq!(check_sources(false, true, true), Err(AddModError::SourceNotSpecified));
    assert_eq!(check_sources(true, true, true), Err(AddModError::SourceNotSpecified));
}

#[test]
fn sources_that_agree_are_accepted() {
    assert_eq!(check_sources(true, false, false), Ok(()));
    assert_eq!(check_sources(false, true, false), Ok(()));
    assert_eq!(check_sources(true, true, false), Ok(()));
    assert_eq!(check_sources(false, false, true), Ok(()));
}

#[test]
fn added_mod_is_returned_and_put_last() {
    let mut pack = a_pack();
    let before = pack.clone();
    let added = add_mod(&mut pack, "new".to_string(), Some(on_curseforge(9, "new")), None, false);
    let expected = Mod { name: "new".to_string(), curseforge: Some(on_curseforge(9, "new")), modrinth: None };
    assert_eq!(added, Ok(expected.clone()));
    assert_eq!(pack.mods.len(), before.mods.len() + 1);
    assert_eq!(pack.mods.last(), Some(&expected));
    assert_eq!(&pack.mods[..before.mods.len()], &before.mods[..]);
    assert_eq!(pack.name, before.name);
    assert_eq!(pack.author, before.author);
    assert_eq!(pack.version, before.version);
}

#[test]
fn manual_mod_appears_in_the_manual_list_of_a_check() {
    let mut pack = Modpack::new("p".to_string());
    add_mod(&mut pack, "cat".to_string(), None, Some(on_modrinth("cat")), false).unwrap();
    add_mod(&mut pack, "by-hand".to_string(), None, None, true).unwrap();
    assert_eq!(manual_mods(&pack), vec!["by-hand".to_string()]);
    let sets = vec![support(&["1.20.1"], &[], &[], &[])];
    let (result, manual) = check(&mut pack, &sets);
    assert_eq!(result, Some((ModLoader::Fabric, "1.20.1".to_string())));
    assert_eq!(manual, vec!["by-hand".to_string()]);
}

#[test]
fn manual_mods_are_listed_in_pack_order() {
    assert_eq!(manual_mods(&a_pack()), vec!["hand-one".to_string(), "hand-two".to_string()]);
    assert_eq!(manual_mods(&Modpack::new("p".to_string())), Vec::<String>::new());
}

#[test]
fn check_writes_what_it_found_into_the_pack() {
    let mut pack = a_pack();
    let before = pack.clone();
    let sets = vec![
        support(&["1.20.1", "1.19.2"], &["1.20.1"], &[], &[]),
        support(&["1.19.2"], &["1.20.1"], &[], &[]),
    ];
    let (result, manual) = check(&mut pack, &sets);
    assert_eq!(result, Some((ModLoader::Fabric, "1.19.2".to_string())));
    assert_eq!(result, find_compatible(&sets, None, None));
    assert_eq!(manual, vec!["hand-one".to_string(), "hand-two".to_string()]);
    assert_eq!(pack.loader, Some(ModLoader::Fabric));
    assert_eq!(pack.minecraft_version, Some("1.19.2".to_string()));
    assert_eq!(pack.mods, before.mods);
    assert_eq!(pack.name, before.name);
    assert_eq!(pack.version, before.version);
    assert_eq!(pack.author, before.author);
}

#[test]
fn check_without_result_leaves_the_pack_alone() {
    let mut pack = a_pack();
    pack.loader = Some(ModLoader::Quilt);
    pack.minecraft_version = Some("1.18".to_string());
    let before = pack.clone();
    let sets = vec![support(&["1.20.1"], &[], &[], &[]), support(&["1.19.2"], &[], &[], &[])];
    let (result, manual) = check(&mut pack, &sets);
    assert_eq!(result, None);
    assert_eq!(manual.len(), 2);
    assert_eq!(pack, before);
    let (result, _) = check(&mut pack, &vec![]);
    assert_eq!(result, None);
    assert_eq!(pack, before);
}

#[test]
fn exactly_one_format_switch_has_to_be_set() {
    assert_eq!(export_format(true, false, false), Ok(ExportFormat::Curseforge));
    assert_eq!(export_format(false, true, false), Ok(ExportFormat::Modrinth));
    assert_eq!(export_format(false, false, true), Ok(ExportFormat::Modpackr));
    assert_eq!(export_format(false, false, false), Err(ExportError::FormatSelection));
    assert_eq!(export_format(true, true, false), Err(ExportError::FormatSelection));
    assert_eq!(export_format(true, false, true), Err(ExportError::FormatSelection));
    assert_eq!(export_format(false, true, true), Err(ExportError::FormatSelection));
    assert_eq!(export_format(true, true, true), Err(ExportError::FormatSelection));
}

#[test]
fn export_refusals() {
    let mut pack = a_pack();
    assert_eq!(export(&pack, false, false, false), Err(ExportError::FormatSelection));
    assert_eq!(export(&pack, true, true, false), Err(ExportError::FormatSelection));
    assert_eq!(
        export(&pack, false, true, false),
        Err(ExportError::Unsupported(ExportFormat::Modrinth))
    );
    assert_eq!(
        export(&pack, false, false, true),
        Err(ExportError::Unsupported(ExportFormat::Modpackr))
    );
    assert_eq!(export(&pack, true, false, false), Err(ExportError::NoLoader));
    pack.minecraft_version = Some("1.20.1".to_string());
    assert_eq!(export(&pack, true, false, false), Err(ExportError::NoLoader));
    pack.minecraft_version = None;
    pack.loader = Some(ModLoader::Forge);
    assert_eq!(export(&pack, true, false, false), Err(ExportError::NoMinecraftVersion));
}

#[test]
fn export_plan_lists_curseforge_projects_in_manifest_order() {
    let mut pack = a_pack();
    pack.loader = Some(ModLoader::Forge);
    pack.minecraft_version = Some("1.20.1".to_string());
    let plan = export(&pack, true, false, false).unwrap();
    assert_eq!(plan.loader, ModLoader::Forge);
    assert_eq!(plan.minecraft_version, "1.20.1");
    assert_eq!(plan.projects, vec![2, 4, 1, 5]);
    assert_eq!(plan.groups, group_by_provider(&pack.mods));
}

#[test]
fn mods_are_grouped_by_provider_in_pack_order() {
    let pack = a_pack();
    let groups = group_by_provider(&pack.mods);
    let names = |mods: &Vec<Mod>| mods.iter().map(|m| m.name.clone()).collect::<Vec<_>>();
    assert_eq!(names(&groups.both), vec!["both-one", "both-two"]);
    assert_eq!(names(&groups.modrinth_only), vec!["rinth-one"]);
    assert_eq!(names(&groups.curseforge_only), vec!["curse-one", "curse-two"]);
    assert_eq!(names(&groups.manual), vec!["hand-one", "hand-two"]);
}

#[test]
fn manifest_of_a_pack() {
    let pack = a_pack();
    let files = vec![CurseforgeManifestFile { project_id: 2, file_id: 20 }];
    let manifest =
        CurseforgeManifest::new(&pack, "1.20.1".to_string(), "forge-47.2.0".to_string(), files.clone());
    assert_eq!(
        manifest,
        CurseforgeManifest {
            minecraft: CurseforgeMinecraftManifest {
                version: "1.20.1".to_string(),
                mod_loaders: vec![CurseforgeModLoaderEntry {
                    id: "forge-47.2.0".to_string(),
                    primary: true
                }],
            },
            manifest_type: "minecraftModpack".to_string(),
            manifest_version: 1,
            name: "pack".to_string(),
            version: "1.0.0".to_string(),
            author: "me".to_string(),
            files,
            overrides: "overrides".to_string(),
        }
    );
}

#[test]
fn archive_is_named_after_pack_and_version() {
    assert_eq!(archive_name(&a_pack()), "pack-1.0.0-curseforge.zip");
}

#[test]
fn address_names_its_last_segment() {
    assert_eq!(slug_of("https://www.curseforge.com/minecraft/mc-mods/jei"), "jei");
    assert_eq!(slug_of("https://www.curseforge.com/minecraft/mc-mods/jei///"), "jei");
    assert_eq!(get_modrinth_mod_from_url("https://modrinth.com/mod/sodium/"), "sodium");
    assert_eq!(get_modrinth_mod_from_url("sodium"), "sodium");
    assert_eq!(get_modrinth_mod_from_url(""), "");
    assert_eq!(get_modrinth_mod_from_url("///"), "");
    assert_eq!(get_modrinth_mod_from_url("a/b/"), "b");
}

#[test]
fn search_result_with_the_slug_of_the_address() {
    let results = vec![on_curseforge(1, "jei-addon"), on_curseforge(2, "jei"), on_curseforge(3, "jei")];
    assert_eq!(from_url("https://www.curseforge.com/minecraft/mc-mods/jei/", &results), Ok(2));
    assert_eq!(from_url("https://www.curseforge.com/minecraft/mc-mods/rei", &results), Err(NotInSearch));
    assert_eq!(from_url("jei", &vec![]), Err(NotInSearch));
}
