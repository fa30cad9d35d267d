use modpackr::fabric::{get_stable_fabric_for_version, name_first_listed};
use modpackr::forge::{
    get_latest_forge_version, is_stable, keep_stable, latest_in_metadata, leading_build,
    select_latest_build, LoaderBuildError,
};
use modpackr::neoforge::get_latest_neoforge_version;
use modpackr::quilt::get_latest_quilt_for_version;
use modpackr::util::{get_loader_version, LoaderFeed};
use modpackr::loader::ModLoader;
use modpackr::xml::{text_nodes, XmlFault};

fn strings(items: &[&str]) -> Vec<String> {
    items.iter().map(|s| s.to_string()).collect()
}

const METADATA: &str = "<?xml version=\"1.0\" encoding=\"UTF-8\"?>\n<metadata>\n  <groupId>net.minecraftforge</groupId>\n  <artifactId>forge</artifactId>\n  <versioning>\n    <latest>1.20.1-47.10.0</latest>\n    <versions>\n      <version>1.20.1-47.2.0</version>\n      <version>1.20.1-47.10.0</version>\n      <version>1.20.1-47.2.0-beta</version>\n      <version>1.19.2-43.3.0</version>\n    </versions>\n  </versioning>\n</metadata>\n";

#[test]
fn numerically_greater_build_is_selected_and_beta_excluded() {
    let builds = strings(&["1.20.1-47.2.0", "1.20.1-47.10.0", "1.20.1-47.2.0-beta"]);
    assert_eq!(
        select_latest_build(&builds, "1.20.1", "forge"),
        Some("forge-47.10.0".to_string())
    );
}

#[test]
fn order_of_the_feed_does_not_change_the_selection() {
    let builds = strings(&["1.20.1-47.10.0", "1.20.1-47.2.0-beta", "1.20.1-47.2.0"]);
    assert_eq!(
        select_latest_build(&builds, "1.20.1", "forge"),
        Some("forge-47.10.0".to_string())
    );
}

#[test]
fn builds_for_other_game_versions_are_passed_over() {
    let builds = strings(&["1.20.1-47.2.0", "1.20.10-99.0.0", "1.20-50.0.0", "1.19.2-43.3.0"]);
    assert_eq!(select_latest_build(&builds, "1.20.1", "forge"), Some("forge-47.2.0".to_string()));
    assert_eq!(select_latest_build(&builds, "1.20", "forge"), Some("forge-50.0.0".to_string()));
    assert_eq!(select_latest_build(&builds, "1.18", "forge"), None);
    assert_eq!(select_latest_build(&vec![], "1.18", "forge"), None);
}

#[test]
fn pre_release_marks_exclude_a_build() {
    assert!(is_stable("1.20.1-47.2.0", "1.20.1"));
    assert!(!is_stable("1.20.1-47.2.0-alpha", "1.20.1"));
    assert!(!is_stable("1.20.1-47.2.0-beta", "1.20.1"));
    assert!(!is_stable("1.20.1-47.2.0-rc1", "1.20.1"));
    assert!(!is_stable("1.20.1", "1.20.1"));
    assert!(!is_stable("1.20.147.2.0", "1.20.1"));
    assert!(!is_stable("", "1.20.1"));
    assert!(is_stable("1.20.1-", "1.20.1"));
}

#[test]
fn marks_count_only_after_the_game_version() {
    assert!(is_stable("1.21-rc1-51.0.0", "1.21-rc1"));
    assert!(!is_stable("1.21-rc1-51.0.0-beta", "1.21-rc1"));
}

#[test]
fn stable_builds_keep_the_order_of_the_feed() {
    let builds = strings(&["1.20.1-3", "1.19-1", "1.20.1-1-beta", "1.20.1-2"]);
    assert_eq!(keep_stable(&builds, "1.20.1"), strings(&["1.20.1-3", "1.20.1-2"]));
}

#[test]
fn first_of_builds_that_rank_alike_leads() {
    let builds = strings(&["1.20.1-47.1.0-a", "1.20.1-47.1.0-b", "1.20.1-47.0.9"]);
    assert_eq!(leading_build(&builds), Some(0));
    assert_eq!(
        select_latest_build(&builds, "1.20.1", "forge"),
        Some("forge-47.1.0-a".to_string())
    );
}

#[test]
fn later_build_leads_only_if_it_ranks_after() {
    assert_eq!(leading_build(&strings(&["v-2", "v-10", "v-9"])), Some(1));
    assert_eq!(leading_build(&strings(&["v-10", "v-2"])), Some(0));
    assert_eq!(leading_build(&strings(&["v-1"])), Some(0));
    assert_eq!(leading_build(&vec![]), None);
}

#[test]
fn loader_token_is_put_in_front() {
    let builds = strings(&["1.21.1-21.1.5"]);
    assert_eq!(
        select_latest_build(&builds, "1.21.1", "neoforge"),
        Some("neoforge-21.1.5".to_string())
    );
}

#[test]
fn text_nodes_of_a_document() {
    assert_eq!(
        text_nodes("<a> <b>one</b>\n <c> two &amp; three </c><!-- no --><d/></a>"),
        Ok(strings(&["one", "two & three"]))
    );
    assert_eq!(text_nodes(""), Ok(Vec::<String>::new()));
    assert_eq!(text_nodes("plain"), Ok(strings(&["plain"])));
}

#[test]
fn document_that_is_not_well_formed_is_refused() {
    assert_eq!(text_nodes("<a>one</b>"), Err(XmlFault));
    assert_eq!(text_nodes("<a><b>one</b><c>two</d></a>"), Err(XmlFault));
    assert_eq!(text_nodes("<a>one &bogus; two</a>"), Err(XmlFault));
}

#[test]
fn malformed_metadata_names_no_build() {
    let broken = "<versions><version>1.20.1-47.2.0</version></metadata>";
    assert_eq!(get_latest_forge_version(broken, "1.20.1"), Err(LoaderBuildError::MalformedFeed));
    assert_eq!(
        get_latest_neoforge_version(broken, "1.20.1"),
        Err(LoaderBuildError::MalformedFeed)
    );
    assert_eq!(
        latest_in_metadata("<v>1.20.1-47.2.0 &nope;</v>", "1.20.1", "forge"),
        Err(LoaderBuildError::MalformedFeed)
    );
    assert_eq!(
        get_loader_version(
            ModLoader::Forge,
            "1.20.1",
            &LoaderFeed::Metadata(broken.to_string())
        ),
        Err(LoaderBuildError::MalformedFeed)
    );
    assert_eq!(
        latest_in_metadata("<v>1.20.1-47.2.0</v>", "1.20.1", "forge"),
        Ok("forge-47.2.0".to_string())
    );
}

#[test]
fn forge_build_from_maven_metadata() {
    assert_eq!(get_latest_forge_version(METADATA, "1.20.1"), Ok("forge-47.10.0".to_string()));
    assert_eq!(get_latest_forge_version(METADATA, "1.19.2"), Ok("forge-43.3.0".to_string()));
    assert_eq!(
        get_latest_forge_version(METADATA, "1.18.2"),
        Err(LoaderBuildError::NoStableBuild)
    );
    assert_eq!(get_latest_forge_version("", "1.18.2"), Err(LoaderBuildError::NoStableBuild));
}

#[test]
fn neoforge_build_from_maven_metadata() {
    assert_eq!(
        get_latest_neoforge_version(METADATA, "1.20.1"),
        Ok("neoforge-47.10.0".to_string())
    );
    assert_eq!(
        get_latest_neoforge_version(METADATA, "1.16"),
        Err(LoaderBuildError::NoStableBuild)
    );
}

#[test]
fn fabric_and_quilt_take_the_first_listed_version() {
    let listed = strings(&["0.16.9", "0.16.8"]);
    assert_eq!(get_stable_fabric_for_version(&listed), Ok("fabric-0.16.9".to_string()));
    assert_eq!(get_latest_quilt_for_version(&listed), Ok("quilt-0.16.9".to_string()));
    assert_eq!(name_first_listed(&listed, "x"), Ok("x0.16.9".to_string()));
    assert_eq!(get_stable_fabric_for_version(&vec![]), Err(LoaderBuildError::NoStableBuild));
    assert_eq!(get_latest_quilt_for_version(&vec![]), Err(LoaderBuildError::NoStableBuild));
}

#[test]
fn loader_version_by_loader_and_feed() {
    let listing = LoaderFeed::Listing(strings(&["0.16.9"]));
    let metadata = LoaderFeed::Metadata(METADATA.to_string());
    assert_eq!(
        get_loader_version(ModLoader::Fabric, "1.20.1", &listing),
        Ok("fabric-0.16.9".to_string())
    );
    assert_eq!(
        get_loader_version(ModLoader::Quilt, "1.20.1", &listing),
        Ok("quilt-0.16.9".to_string())
    );
    assert_eq!(
        get_loader_version(ModLoader::Forge, "1.20.1", &metadata),
        Ok("forge-47.10.0".to_string())
    );
    assert_eq!(
        get_loader_version(ModLoader::Neoforge, "1.20.1", &metadata),
        Ok("neoforge-47.10.0".to_string())
    );
}

#[test]
fn feed_of_the_wrong_kind_is_refused() {
    let listing = LoaderFeed::Listing(strings(&["0.16.9"]));
    let metadata = LoaderFeed::Metadata(METADATA.to_string());
    assert_eq!(
        get_loader_version(ModLoader::Forge, "1.20.1", &listing),
        Err(LoaderBuildError::WrongFeed)
    );
    assert_eq!(
        get_loader_version(ModLoader::Neoforge, "1.20.1", &listing),
        Err(LoaderBuildError::WrongFeed)
    );
    assert_eq!(
        get_loader_version(ModLoader::Fabric, "1.20.1", &metadata),
        Err(LoaderBuildError::WrongFeed)
    );
    assert_eq!(
        get_loader_version(ModLoader::Quilt, "1.20.1", &metadata),
        Err(LoaderBuildError::WrongFeed)
    );
}

#[test]
fn empty_feed_names_no_build() {
    assert_eq!(
        get_loader_version(ModLoader::Fabric, "1.20.1", &LoaderFeed::Listing(vec![])),
        Err(LoaderBuildError::NoStableBuild)
    );
    assert_eq!(
        get_loader_version(ModLoader::Forge, "1.20.1", &LoaderFeed::Metadata(String::new())),
        Err(LoaderBuildError::NoStableBuild)
    );
}
