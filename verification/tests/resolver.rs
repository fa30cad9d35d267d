use modpackr::loader::ModLoader;
use modpackr::resolve::{find_compatible, pick_within};
use modpackr::tokens::TokenSet;
use modpackr::versions::ModVersions;

fn set(items: &[&str]) -> TokenSet {
    TokenSet::from_vec(&items.iter().map(|s| s.to_string()).collect())
}

fn support(fabric: &[&str], forge: &[&str], neo_forge: &[&str], quilt: &[&str]) -> ModVersions {
    ModVersions { fabric: set(fabric), forge: set(forge), neo_forge: set(neo_forge), quilt: set(quilt) }
}

fn found(loader: ModLoader, version: &str) -> Option<(ModLoader, String)> {
    Some((loader, version.to_string()))
}

#[test]
fn no_mods_resolve_to_nothing() {
    assert_eq!(find_compatible(&vec![], None, None), None);
    assert_eq!(find_compatible(&vec![], Some(ModLoader::Fabric), Some("1.20.1")), None);
}

#[test]
fn single_mod_resolves_to_greatest_version_of_first_bucket() {
    let a = support(&["1.20.1", "1.19.2"], &["1.20.1", "1.21"], &[], &[]);
    assert_eq!(find_compatible(&vec![a.clone()], None, None), found(ModLoader::Fabric, "1.20.1"));
    assert_eq!(pick_within(&a, None, None), found(ModLoader::Fabric, "1.20.1"));
}

#[test]
fn single_mod_with_nothing_supported_resolves_to_nothing() {
    assert_eq!(find_compatible(&vec![ModVersions::new()], None, None), None);
}

#[test]
fn mods_without_a_shared_version_resolve_to_nothing() {
    let a = support(&["1.20.1"], &["1.19.2"], &[], &["1.18"]);
    let b = support(&["1.20.2"], &["1.18"], &["1.19.2"], &["1.20.1"]);
    assert_eq!(find_compatible(&vec![a.clone(), b.clone()], None, None), None);
    assert_eq!(find_compatible(&vec![a, b], Some(ModLoader::Fabric), Some("1.20.1")), None);
}

#[test]
fn quilt_is_preferred_to_fabric() {
    let a = support(&["1.20.1", "1.20.4"], &["1.20.1"], &["1.20.4"], &["1.20.1", "1.19"]);
    let b = support(&["1.20.4"], &["1.20.1"], &["1.20.4"], &["1.20.1"]);
    assert_eq!(find_compatible(&vec![a, b], None, None), found(ModLoader::Quilt, "1.20.1"));
}

#[test]
fn loaders_are_tried_in_the_fixed_order() {
    let all = support(&["1"], &["1"], &["1"], &["1"]);
    assert_eq!(find_compatible(&vec![all], None, None), found(ModLoader::Quilt, "1"));
    let no_quilt = support(&["1"], &["1"], &["1"], &[]);
    assert_eq!(find_compatible(&vec![no_quilt], None, None), found(ModLoader::Fabric, "1"));
    let forges = support(&[], &["1"], &["1"], &[]);
    assert_eq!(find_compatible(&vec![forges], None, None), found(ModLoader::Neoforge, "1"));
    let forge = support(&[], &["1"], &[], &[]);
    assert_eq!(find_compatible(&vec![forge], None, None), found(ModLoader::Forge, "1"));
}

#[test]
fn pinned_loader_is_taken_though_another_is_preferred() {
    let a = support(&["1.20.1"], &["1.19.2", "1.20.1"], &[], &["1.20.1"]);
    assert_eq!(
        find_compatible(&vec![a], Some(ModLoader::Forge), None),
        found(ModLoader::Forge, "1.20.1")
    );
}

#[test]
fn pinned_loader_without_shared_version_resolves_to_nothing() {
    let a = support(&["1.20.1"], &["1.19.2"], &[], &["1.20.1"]);
    let b = support(&["1.20.1"], &["1.18"], &[], &["1.20.1"]);
    assert_eq!(find_compatible(&vec![a.clone(), b.clone()], Some(ModLoader::Forge), None), None);
    assert_eq!(find_compatible(&vec![a, b], Some(ModLoader::Neoforge), None), None);
}

#[test]
fn pinned_version_missing_under_pinned_loader_resolves_to_nothing() {
    let a = support(&["1.20.1", "1.19.2"], &["1.19.2"], &[], &["1.20.1"]);
    assert_eq!(find_compatible(&vec![a], Some(ModLoader::Forge), Some("1.20.1")), None);
}

#[test]
fn pinned_version_is_looked_for_loader_by_loader() {
    let a = support(&["1.19.2"], &["1.19.2"], &[], &["1.20.1"]);
    assert_eq!(
        find_compatible(&vec![a.clone()], None, Some("1.19.2")),
        found(ModLoader::Fabric, "1.19.2")
    );
    assert_eq!(find_compatible(&vec![a], None, Some("1.18")), None);
}

#[test]
fn pinned_version_comes_back_though_a_greater_one_is_shared() {
    let a = support(&["1.19.2", "1.20.1"], &[], &[], &[]);
    assert_eq!(
        find_compatible(&vec![a], Some(ModLoader::Fabric), Some("1.19.2")),
        found(ModLoader::Fabric, "1.19.2")
    );
}

#[test]
fn greatest_version_is_greatest_as_a_string() {
    let a = support(&["1.9", "1.10", "1.8.9"], &[], &[], &[]);
    assert_eq!(find_compatible(&vec![a], None, None), found(ModLoader::Fabric, "1.9"));
}

#[test]
fn three_mods_share_one_version() {
    let a = support(&["1.20.1", "1.20.4", "1.21"], &[], &[], &[]);
    let b = support(&["1.20.4", "1.21"], &["1.21"], &[], &[]);
    let c = support(&["1.20.1", "1.20.4"], &["1.21"], &[], &[]);
    assert_eq!(find_compatible(&vec![a, b, c], None, None), found(ModLoader::Fabric, "1.20.4"));
}
