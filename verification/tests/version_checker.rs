use dungeon_crawler_world::version_checker::{
    asset_suffix, download_url, is_update_available, latest_stable_version, GitHubAsset,
    GitHubRelease, Platform,
};

fn asset(name: &str, url: &str) -> GitHubAsset {
    GitHubAsset {
        name: name.to_string(),
        browser_download_url: url.to_string(),
        size: 1,
    }
}

fn release(tag: &str, prerelease: bool, draft: bool, assets: Vec<GitHubAsset>) -> GitHubRelease {
    GitHubRelease {
        tag_name: tag.to_string(),
        name: tag.to_string(),
        published_at: "2024-01-01T00:00:00Z".to_string(),
        html_url: format!("https://example.invalid/{}", tag),
        prerelease,
        draft,
        assets,
    }
}

#[test]
fn test_version_comparison() {
    // Test basic version comparison
    assert!(is_update_available("0.0.7", "0.0.8"));
    assert!(is_update_available("0.0.7", "0.1.0"));
    assert!(is_update_available("0.0.7", "1.0.0"));

    // Test same version
    assert!(!is_update_available("0.0.7", "0.0.7"));

    // Test older version
    assert!(!is_update_available("0.0.8", "0.0.7"));

    // Test pre-release versions
    assert!(is_update_available("0.0.7", "0.0.8-beta"));
    assert!(!is_update_available("0.0.8-beta", "0.0.7"));
}

#[test]
fn test_invalid_versions() {
    // Invalid version strings should return false (no update)
    assert!(!is_update_available("invalid", "0.0.8"));
    assert!(!is_update_available("0.0.7", "invalid"));
    assert!(!is_update_available("invalid", "invalid"));
}

#[test]
fn release_is_newer_than_its_prerelease() {
    assert!(is_update_available("1.0.0-rc.1", "1.0.0"));
    assert!(!is_update_available("1.0.0", "1.0.0-rc.1"));
    assert!(!is_update_available("v1.0.0", "2.0.0"));
}

#[test]
fn latest_stable_skips_prereleases_and_drafts() {
    let releases = vec![
        release("v0.2.0-beta", true, false, vec![]),
        release("v0.1.9", false, true, vec![]),
        release("vv0.1.8", false, false, vec![]),
        release("v0.1.7", false, false, vec![]),
    ];
    assert_eq!(latest_stable_version(&releases), Some("0.1.8".to_string()));
}

#[test]
fn no_stable_release_gives_none() {
    let releases = vec![release("v1.0.0", true, false, vec![]), release("v0.9.0", false, true, vec![])];
    assert_eq!(latest_stable_version(&releases), None);
    assert_eq!(latest_stable_version(&Vec::new()), None);
}

#[test]
fn tag_without_prefix_is_kept() {
    let releases = vec![release("2.3.4", false, false, vec![])];
    assert_eq!(latest_stable_version(&releases), Some("2.3.4".to_string()));
}

#[test]
fn download_suffixes_per_platform() {
    assert_eq!(asset_suffix(Platform::Windows, false), Some("release.exe".to_string()));
    assert_eq!(asset_suffix(Platform::Windows, true), Some("dev.exe".to_string()));
    assert_eq!(asset_suffix(Platform::MacOs, false), Some("release-macos.dmg".to_string()));
    assert_eq!(asset_suffix(Platform::MacOs, true), Some("dev-macos.dmg".to_string()));
    assert_eq!(asset_suffix(Platform::Other, false), None);
}

#[test]
fn download_url_picks_the_matching_asset() {
    let releases = vec![
        release(
            "v0.0.9",
            false,
            false,
            vec![asset("game-release.exe", "https://x/9.exe")],
        ),
        release(
            "v0.0.8",
            false,
            false,
            vec![
                asset("game-release-macos.dmg", "https://x/8.dmg"),
                asset("game-release.exe", "https://x/8.exe"),
                asset("other-release.exe", "https://x/8b.exe"),
            ],
        ),
    ];
    assert_eq!(
        download_url(&releases, "0.0.8", Some("release.exe")),
        Some("https://x/8.exe".to_string())
    );
    assert_eq!(
        download_url(&releases, "0.0.8", Some("release-macos.dmg")),
        Some("https://x/8.dmg".to_string())
    );
    assert_eq!(download_url(&releases, "0.0.8", Some("dev.exe")), None);
    assert_eq!(download_url(&releases, "0.0.7", Some("release.exe")), None);
    assert_eq!(download_url(&releases, "0.0.8", None), None);
}
