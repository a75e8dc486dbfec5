use staff_admin::updates::{evaluate_update, find_platform_asset, version_is_greater, ReleaseAsset};

#[test]
fn equal_versions_are_not_greater() {
    assert!(!version_is_greater("1.2.3", "1.2.3"));
}

#[test]
fn any_difference_counts_as_greater() {
    assert!(version_is_greater("1.2.4", "1.2.3"));
    assert!(version_is_greater("1.2.2", "1.2.3"));
}

fn asset(name: &str) -> ReleaseAsset {
    ReleaseAsset { name: name.to_string(), download_url: format!("https://example.test/{}", name) }
}

#[test]
fn platform_asset_is_the_first_matching_name() {
    let assets = vec![
        asset("app-setup.msi"),
        asset("app-old.dmg"),
        asset("app-new.dmg"),
        asset("app.AppImage"),
    ];
    assert_eq!(find_platform_asset(&assets, ".msi"), Some(0));
    assert_eq!(find_platform_asset(&assets, ".dmg"), Some(1));
    assert_eq!(find_platform_asset(&assets, ".AppImage"), Some(3));
    assert_eq!(find_platform_asset(&assets, ".zip"), None);
}

#[test]
fn no_assets_means_no_platform_asset() {
    let assets: Vec<ReleaseAsset> = Vec::new();
    assert_eq!(find_platform_asset(&assets, ".msi"), None);
}

#[test]
fn evaluate_update_offers_update_only_on_a_version_change() {
    let same = evaluate_update(
        "2.0.0".to_string(),
        "2.0.0".to_string(),
        "notes".to_string(),
        "https://example.test/app.msi".to_string(),
    );
    assert!(!same.update_available);
    assert_eq!(same.current_version, "2.0.0");
    assert_eq!(same.latest_version, "2.0.0");

    let newer = evaluate_update(
        "2.0.0".to_string(),
        "2.1.0".to_string(),
        "notes".to_string(),
        "https://example.test/app.msi".to_string(),
    );
    assert!(newer.update_available);
    assert_eq!(newer.release_notes, "notes");
    assert_eq!(newer.download_url, "https://example.test/app.msi");
}
