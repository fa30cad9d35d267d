use modpackr::loader::ModLoader;
use modpackr::tokens::TokenSet;
use modpackr::versions::{intersect_all, ModVersions};

fn strings(items: &[&str]) -> Vec<String> {
    items.iter().map(|s| s.to_string()).collect()
}

fn tokens(items: &[&str]) -> TokenSet {
    TokenSet::from_vec(&strings(items))
}

fn versions(fabric: &[&str], forge: &[&str], neo_forge: &[&str], quilt: &[&str]) -> ModVersions {
    ModVersions {
        fabric: tokens(fabric),
        forge: tokens(forge),
        neo_forge: tokens(neo_forge),
        quilt: tokens(quilt),
    }
}

#[test]
fn token_set_lists_its_tokens_once_and_in_order() {
    let set = tokens(&["1.20.1", "1.19.2", "1.20.1", "1.18"]);
    assert_eq!(set.to_vec(), strings(&["1.18", "1.19.2", "1.20.1"]));
    assert_eq!(set.len(), 3);
    assert!(!set.is_empty());
}

#[test]
fn empty_token_set() {
    let set = TokenSet::new();
    assert!(set.is_empty());
    assert_eq!(set.len(), 0);
    assert_eq!(set.greatest(), None);
    assert!(!set.contains("1.20.1"));
    assert_eq!(set, TokenSet::default());
}

#[test]
fn token_set_membership() {
    let set = tokens(&["1.19.2", "1.20.1"]);
    assert!(set.contains("1.19.2"));
    assert!(set.contains("1.20.1"));
    assert!(!set.contains("1.20"));
    assert!(!set.contains(""));
}

#[test]
fn token_set_insert_reports_new_tokens() {
    let mut set = TokenSet::new();
    assert!(set.insert("1.20.1".to_string()));
    assert!(set.insert("1.19.2".to_string()));
    assert!(!set.insert("1.20.1".to_string()));
    assert_eq!(set.to_vec(), strings(&["1.19.2", "1.20.1"]));
}

#[test]
fn greatest_token_is_greatest_as_a_string() {
    let set = tokens(&["1.10", "1.9", "1.2"]);
    assert_eq!(set.greatest(), Some(&"1.9".to_string()));
}

#[test]
fn token_set_union_and_intersection() {
    let a = tokens(&["1.18", "1.19", "1.20"]);
    let b = tokens(&["1.19", "1.20", "1.21"]);
    assert_eq!(a.union(&b), tokens(&["1.18", "1.19", "1.20", "1.21"]));
    assert_eq!(a.intersect(&b), tokens(&["1.19", "1.20"]));
    assert_eq!(a.intersect(&TokenSet::new()), TokenSet::new());
    assert_eq!(a.union(&TokenSet::new()), a);
}

#[test]
fn token_set_clone_is_equal() {
    let a = tokens(&["1.18", "1.19"]);
    assert_eq!(a.clone(), a);
}

#[test]
fn union_is_taken_bucket_by_bucket() {
    let a = versions(&["1.20.1"], &["1.19.2"], &[], &[]);
    let b = versions(&["1.20.2"], &[], &["1.21"], &["1.20.1"]);
    let both = a.union(&b);
    assert_eq!(both, versions(&["1.20.1", "1.20.2"], &["1.19.2"], &["1.21"], &["1.20.1"]));
}

#[test]
fn intersection_never_crosses_buckets() {
    let a = versions(&["1.20.1"], &[], &[], &[]);
    let b = versions(&[], &["1.20.1"], &[], &["1.20.1"]);
    assert_eq!(a.intersect(&b), ModVersions::new());
}

#[test]
fn intersection_is_commutative() {
    let a = versions(&["1.20.1", "1.19.2"], &["1.19.2"], &["1.21"], &["1.20.1"]);
    let b = versions(&["1.20.1"], &["1.19.2", "1.18"], &[], &["1.20.1", "1.20"]);
    assert_eq!(a.intersect(&b), b.intersect(&a));
    assert_eq!(a.intersect(&b), versions(&["1.20.1"], &["1.19.2"], &[], &["1.20.1"]));
}

#[test]
fn intersection_is_associative() {
    let a = versions(&["1.20.1", "1.19.2"], &["1.19.2"], &["1.21"], &["1.20.1"]);
    let b = versions(&["1.20.1", "1.19.2"], &["1.19.2", "1.18"], &["1.21"], &["1.20"]);
    let c = versions(&["1.19.2"], &["1.19.2"], &["1.21", "1.20"], &["1.20.1"]);
    let left = a.intersect(&b).intersect(&c);
    let right = a.intersect(&b.intersect(&c));
    assert_eq!(left, right);
    assert_eq!(left, versions(&["1.19.2"], &["1.19.2"], &["1.21"], &[]));
}

#[test]
fn union_is_idempotent() {
    let a = versions(&["1.20.1", "1.19.2"], &["1.19.2"], &["1.21"], &["1.20.1"]);
    assert_eq!(a.union(&a), a);
}

#[test]
fn union_is_commutative() {
    let a = versions(&["1.20.1"], &["1.19.2"], &[], &[]);
    let b = versions(&["1.19.2"], &[], &["1.21"], &["1.20.1"]);
    assert_eq!(a.union(&b), b.union(&a));
}

#[test]
fn new_mod_versions_is_empty_and_equals_default() {
    let none = ModVersions::new();
    assert_eq!(none, ModVersions::default());
    assert!(none.fabric.is_empty());
    assert!(none.forge.is_empty());
    assert!(none.neo_forge.is_empty());
    assert!(none.quilt.is_empty());
}

#[test]
fn buckets_are_found_by_loader() {
    let a = versions(&["1"], &["2"], &["3"], &["4"]);
    assert_eq!(a.bucket(ModLoader::Fabric), &tokens(&["1"]));
    assert_eq!(a.bucket(ModLoader::Forge), &tokens(&["2"]));
    assert_eq!(a.bucket(ModLoader::Neoforge), &tokens(&["3"]));
    assert_eq!(a.bucket(ModLoader::Quilt), &tokens(&["4"]));
    assert!(a.supports(ModLoader::Forge, "2"));
    assert!(!a.supports(ModLoader::Forge, "1"));
}

#[test]
fn adding_versions_fills_the_named_bucket() {
    let mut a = ModVersions::new();
    a.insert(ModLoader::Quilt, "1.20.1".to_string());
    a.insert(ModLoader::Quilt, "1.20.1".to_string());
    a.insert(ModLoader::Forge, "1.19.2".to_string());
    a.insert_all(ModLoader::Neoforge, &tokens(&["1.21", "1.20.6"]));
    assert_eq!(a, versions(&[], &["1.19.2"], &["1.20.6", "1.21"], &["1.20.1"]));
}

#[test]
fn intersecting_a_list() {
    assert_eq!(intersect_all(&vec![]), None);
    let a = versions(&["1.20.1", "1.19.2"], &["1.19.2"], &[], &[]);
    let b = versions(&["1.20.1"], &["1.19.2"], &["1.21"], &[]);
    let c = versions(&["1.20.1", "1.18"], &[], &["1.21"], &[]);
    assert_eq!(intersect_all(&vec![a.clone()]), Some(a.clone()));
    assert_eq!(intersect_all(&vec![a, b, c]), Some(versions(&["1.20.1"], &[], &[], &[])));
}
