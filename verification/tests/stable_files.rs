use modpackr::curseforge::{
    is_stable_for, latest_stable, select_export_builds, CurseforgeManifestFile, CurseforgeModFile,
    NoStableFile, Timestamp,
};
use modpackr::loader::ModLoader;

fn file(id: u32, release_type: u8, seconds: i64, tags: &[&str]) -> CurseforgeModFile {
    CurseforgeModFile {
        id,
        file_name: format!("file-{}.jar", id),
        release_type,
        file_date: Timestamp { seconds, nanos: 0 },
        game_versions: tags.iter().map(|t| t.to_string()).collect(),
    }
}

#[test]
fn timestamps_compare_by_seconds_then_nanos() {
    let early = Timestamp { seconds: 10, nanos: 999 };
    let late = Timestamp { seconds: 11, nanos: 0 };
    let later = Timestamp { seconds: 11, nanos: 1 };
    assert!(late.is_after(&early));
    assert!(later.is_after(&late));
    assert!(!early.is_after(&late));
    assert!(!late.is_after(&late));
    let before_epoch = Timestamp { seconds: -5, nanos: 0 };
    assert!(early.is_after(&before_epoch));
}

#[test]
fn alpha_file_is_never_selected() {
    let files = vec![
        file(1, 1, 100, &["Fabric", "1.20.1"]),
        file(2, 2, 200, &["Fabric", "1.20.1"]),
        file(3, 3, 300, &["Fabric", "1.20.1"]),
    ];
    assert_eq!(
        latest_stable(7, ModLoader::Fabric, &files),
        Ok(CurseforgeManifestFile { project_id: 7, file_id: 2 })
    );
}

#[test]
fn only_alpha_files_means_no_stable_file() {
    let files = vec![file(3, 3, 300, &["Fabric", "1.20.1"])];
    assert_eq!(
        latest_stable(7, ModLoader::Fabric, &files),
        Err(NoStableFile { project_id: 7, loader: ModLoader::Fabric })
    );
}

#[test]
fn later_of_two_qualifying_files_is_selected() {
    let files = vec![file(1, 1, 500, &["Forge"]), file(2, 1, 400, &["Forge"])];
    assert_eq!(
        latest_stable(9, ModLoader::Forge, &files),
        Ok(CurseforgeManifestFile { project_id: 9, file_id: 1 })
    );
    let files = vec![file(1, 1, 400, &["Forge"]), file(2, 1, 500, &["Forge"])];
    assert_eq!(
        latest_stable(9, ModLoader::Forge, &files),
        Ok(CurseforgeManifestFile { project_id: 9, file_id: 2 })
    );
}

#[test]
fn first_of_files_published_together_is_selected() {
    let files = vec![
        file(1, 2, 400, &["Quilt"]),
        file(2, 1, 400, &["Quilt"]),
        file(3, 1, 399, &["Quilt"]),
    ];
    assert_eq!(
        latest_stable(9, ModLoader::Quilt, &files),
        Ok(CurseforgeManifestFile { project_id: 9, file_id: 1 })
    );
}

#[test]
fn nanoseconds_break_ties_between_files() {
    let mut a = file(1, 1, 400, &["Quilt"]);
    let mut b = file(2, 1, 400, &["Quilt"]);
    a.file_date.nanos = 5;
    b.file_date.nanos = 6;
    assert_eq!(
        latest_stable(9, ModLoader::Quilt, &vec![a, b]),
        Ok(CurseforgeManifestFile { project_id: 9, file_id: 2 })
    );
}

#[test]
fn files_for_other_loaders_are_passed_over() {
    let files = vec![
        file(1, 1, 900, &["Forge", "1.20.1"]),
        file(2, 1, 100, &["Fabric", "1.20.1"]),
        file(3, 1, 950, &["fabric", "1.20.1"]),
    ];
    assert_eq!(
        latest_stable(4, ModLoader::Fabric, &files),
        Ok(CurseforgeManifestFile { project_id: 4, file_id: 2 })
    );
    assert_eq!(
        latest_stable(4, ModLoader::Neoforge, &files),
        Err(NoStableFile { project_id: 4, loader: ModLoader::Neoforge })
    );
}

#[test]
fn file_of_no_known_channel_is_passed_over() {
    let files = vec![file(1, 0, 900, &["Forge"]), file(2, 2, 100, &["Forge"])];
    assert_eq!(
        latest_stable(4, ModLoader::Forge, &files),
        Ok(CurseforgeManifestFile { project_id: 4, file_id: 2 })
    );
    assert_eq!(
        latest_stable(4, ModLoader::Forge, &vec![file(1, 0, 900, &["Forge"])]),
        Err(NoStableFile { project_id: 4, loader: ModLoader::Forge })
    );
}

#[test]
fn no_files_means_no_stable_file() {
    assert_eq!(
        latest_stable(4, ModLoader::Forge, &vec![]),
        Err(NoStableFile { project_id: 4, loader: ModLoader::Forge })
    );
}

#[test]
fn stability_needs_channel_and_tag() {
    assert!(is_stable_for(&file(1, 1, 0, &["Fabric"]), ModLoader::Fabric));
    assert!(is_stable_for(&file(1, 2, 0, &["Fabric"]), ModLoader::Fabric));
    assert!(!is_stable_for(&file(1, 3, 0, &["Fabric"]), ModLoader::Fabric));
    assert!(!is_stable_for(&file(1, 0, 0, &["Fabric"]), ModLoader::Fabric));
    assert!(!is_stable_for(&file(1, 4, 0, &["Fabric"]), ModLoader::Fabric));
    assert!(!is_stable_for(&file(1, 1, 0, &["Quilt"]), ModLoader::Fabric));
    assert!(is_stable_for(&file(1, 1, 0, &["1.20", "Neoforge"]), ModLoader::Neoforge));
}

#[test]
fn export_builds_are_chosen_project_by_project() {
    let projects = vec![
        (10, vec![file(1, 1, 100, &["Fabric"]), file(2, 1, 200, &["Fabric"])]),
        (20, vec![file(3, 3, 900, &["Fabric"]), file(4, 2, 50, &["Fabric"])]),
    ];
    assert_eq!(
        select_export_builds(ModLoader::Fabric, &projects),
        Ok(vec![
            CurseforgeManifestFile { project_id: 10, file_id: 2 },
            CurseforgeManifestFile { project_id: 20, file_id: 4 },
        ])
    );
    assert_eq!(select_export_builds(ModLoader::Fabric, &vec![]), Ok(vec![]));
}

#[test]
fn first_project_without_stable_file_ends_the_selection() {
    let projects = vec![
        (10, vec![file(1, 1, 100, &["Fabric"])]),
        (20, vec![file(3, 3, 900, &["Fabric"])]),
        (30, vec![]),
    ];
    assert_eq!(
        select_export_builds(ModLoader::Fabric, &projects),
        Err(NoStableFile { project_id: 20, loader: ModLoader::Fabric })
    );
}
