use gh_info_rs::cache::{CacheConfig, CacheManager};
use gh_info_rs::models::{LatestReleaseInfo, ReleaseInfo, RepoInfo};
use gh_info_rs::ttl_map::CachedEntry;

fn create_test_cache_config(enabled: bool, ttl_seconds: u64) -> CacheConfig {
    CacheConfig {
        enabled,
        ttl_seconds,
    }
}

fn manager(enabled: bool, ttl_seconds: u64) -> CacheManager {
    CacheManager::new(
        create_test_cache_config(enabled, ttl_seconds),
        "cache.json".to_string(),
        "cache_files".to_string(),
    )
}

fn create_test_repo_info() -> RepoInfo {
    RepoInfo {
        repo: "test/test".to_string(),
        name: "test".to_string(),
        full_name: "test/test".to_string(),
        html_url: "https://github.com/test/test".to_string(),
        description: Some("Test repo".to_string()),
        stargazers_count: 100,
        forks_count: 50,
        updated_at: "2024-01-01T00:00:00Z".to_string(),
    }
}

fn create_test_release_info() -> ReleaseInfo {
    ReleaseInfo {
        tag_name: "v1.0.0".to_string(),
        name: Some("Release 1.0.0".to_string()),
        changelog: Some("Changelog".to_string()),
        published_at: "2024-01-01T00:00:00Z".to_string(),
        attachments: vec![(
            "file.zip".to_string(),
            "https://example.com/file.zip".to_string(),
        )],
    }
}

fn create_test_latest_release_info() -> LatestReleaseInfo {
    LatestReleaseInfo {
        repo: "test/test".to_string(),
        latest_version: "v1.0.0".to_string(),
        changelog: Some("Changelog".to_string()),
        published_at: "2024-01-01T00:00:00Z".to_string(),
        attachments: vec![(
            "file.zip".to_string(),
            "https://example.com/file.zip".to_string(),
        )],
    }
}

#[test]
fn test_cache_manager_enabled() {
    let manager = manager(true, 3600);
    assert!(manager.is_enabled());
}

#[test]
fn test_cache_manager_disabled() {
    let manager = manager(false, 3600);
    assert!(!manager.is_enabled());
}

#[test]
fn test_repo_info_cache() {
    let mut manager = manager(true, 3600);
    let repo_info = create_test_repo_info();

    assert!(manager.get_repo_info("test", "test", 1000).is_none());

    manager.set_repo_info("test", "test", repo_info.clone(), 1000);

    let cached = manager.get_repo_info("test", "test", 1000);
    assert!(cached.is_some());
    assert_eq!(cached.unwrap().repo, repo_info.repo);
}

#[test]
fn test_releases_cache() {
    let mut manager = manager(true, 3600);
    let releases = vec![create_test_release_info()];

    assert!(manager.get_releases("test", "test", 1000).is_none());

    manager.set_releases("test", "test", releases.clone(), 1000);

    let cached = manager.get_releases("test", "test", 1000);
    assert!(cached.is_some());
    assert_eq!(cached.unwrap().len(), 1);
}

#[test]
fn test_latest_release_cache() {
    let mut manager = manager(true, 3600);
    let latest_release = create_test_latest_release_info();

    assert!(manager.get_latest_release("test", "test", 1000).is_none());

    manager.set_latest_release("test", "test", latest_release.clone(), 1000);

    let cached = manager.get_latest_release("test", "test", 1000);
    assert!(cached.is_some());
    assert_eq!(cached.unwrap().repo, latest_release.repo);
}

#[test]
fn test_cache_disabled() {
    let mut manager = manager(false, 3600);
    let repo_info = create_test_repo_info();

    manager.set_repo_info("test", "test", repo_info, 1000);
    assert!(manager.get_repo_info("test", "test", 1000).is_none());
}

#[test]
fn test_cache_key_generation() {
    let repo_info_key = CacheManager::repo_info_key("owner", "repo");
    assert_eq!(repo_info_key, "repo_info:owner:repo");

    let releases_key = CacheManager::releases_key("owner", "repo");
    assert_eq!(releases_key, "releases:owner:repo");

    let latest_release_key = CacheManager::latest_release_key("owner", "repo");
    assert_eq!(latest_release_key, "latest_release:owner:repo");
}

#[test]
fn test_metadata_hit_scenario() {
    // An entry set with TTL 3600 is served right back under its fingerprint.
    let mut manager = manager(true, 3600);
    let mut info = create_test_repo_info();
    info.repo = "octocat/Hello-World".to_string();
    manager.set_repo_info("octocat", "Hello-World", info.clone(), 50_000);
    let got = manager
        .get_repo_info("octocat", "Hello-World", 50_000)
        .expect("an immediate get hits");
    assert_eq!(got.repo, "octocat/Hello-World");
    assert_eq!(got.stargazers_count, info.stargazers_count);
    assert_eq!(
        CacheManager::repo_info_key("octocat", "Hello-World"),
        "repo_info:octocat:Hello-World"
    );
}

#[test]
fn test_metadata_expiry_scenario() {
    // With TTL 1, two seconds later the entry is gone from get and from the
    // snapshot alike.
    let mut manager = manager(true, 1);
    let info = create_test_repo_info();
    let t0 = 10_000;
    manager.set_repo_info("octocat", "Hello-World", info, t0);
    assert!(manager.get_repo_info("octocat", "Hello-World", t0).is_some());
    assert!(manager
        .get_repo_info("octocat", "Hello-World", t0 + 2)
        .is_none());
    let snap = manager.snapshot_repo_info(t0 + 2);
    assert_eq!(snap.len(), 0);
}

#[test]
fn test_set_overwrites_and_refreshes_ttl() {
    let mut manager = manager(true, 10);
    let mut info = create_test_repo_info();
    manager.set_repo_info("o", "r", info.clone(), 100);
    info.stargazers_count = 7;
    manager.set_repo_info("o", "r", info, 105);
    // the second write owns the key and its own expiry
    let got = manager.get_repo_info("o", "r", 112).expect("still live");
    assert_eq!(got.stargazers_count, 7);
    assert!(manager.get_repo_info("o", "r", 116).is_none());
}

#[test]
fn test_snapshot_reload_scenario() {
    // Three entries, two with future expiry, one already expired; after a
    // snapshot and a reload into a fresh manager the live two survive.
    let mut manager1 = manager(true, 100);
    let info = create_test_repo_info();
    manager1.set_repo_info("a", "one", info.clone(), 1000); // expires 1100
    manager1.set_repo_info("b", "two", info.clone(), 1050); // expires 1150
    manager1.set_repo_info("c", "three", info.clone(), 900); // expires 1000: dead at snapshot

    let t_snap = 1040;
    let snap: Vec<(String, CachedEntry<RepoInfo>)> = manager1
        .snapshot_repo_info(t_snap)
        .into_iter()
        .map(|(k, e)| {
            (
                k.clone(),
                CachedEntry {
                    value: e.value.clone(),
                    expires_at: e.expires_at,
                },
            )
        })
        .collect();
    assert_eq!(snap.len(), 2);

    let mut manager2 = manager(true, 100);
    manager2.load_repo_info(snap, 1060);
    assert!(manager2.get_repo_info("a", "one", 1060).is_some());
    assert!(manager2.get_repo_info("b", "two", 1060).is_some());
    assert!(manager2.get_repo_info("c", "three", 1060).is_none());
}

#[test]
fn test_snapshot_reload_drops_meanwhile_expired() {
    // An entry live at snapshot time but expired by load time is filtered
    // by the load.
    let mut manager1 = manager(true, 50);
    let info = create_test_repo_info();
    manager1.set_repo_info("a", "one", info.clone(), 1000); // expires 1050
    manager1.set_repo_info("b", "two", info.clone(), 1030); // expires 1080
    let snap: Vec<(String, CachedEntry<RepoInfo>)> = manager1
        .snapshot_repo_info(1040)
        .into_iter()
        .map(|(k, e)| {
            (
                k.clone(),
                CachedEntry {
                    value: e.value.clone(),
                    expires_at: e.expires_at,
                },
            )
        })
        .collect();
    assert_eq!(snap.len(), 2);
    let mut manager2 = manager(true, 50);
    manager2.load_repo_info(snap, 1060);
    assert!(manager2.get_repo_info("a", "one", 1060).is_none());
    assert!(manager2.get_repo_info("b", "two", 1060).is_some());
}

#[test]
fn test_snapshot_releases_and_latest() {
    let mut m = manager(true, 100);
    m.set_releases("o", "r", vec![create_test_release_info()], 1000);
    m.set_latest_release("o", "r", create_test_latest_release_info(), 1000);
    assert_eq!(m.snapshot_releases(1000).len(), 1);
    assert_eq!(m.snapshot_latest_release(1000).len(), 1);
    assert_eq!(m.snapshot_releases(1200).len(), 0);

    let snap: Vec<(String, CachedEntry<Vec<ReleaseInfo>>)> = m
        .snapshot_releases(1000)
        .into_iter()
        .map(|(k, e)| {
            (
                k.clone(),
                CachedEntry {
                    value: e.value.clone(),
                    expires_at: e.expires_at,
                },
            )
        })
        .collect();
    let mut m2 = manager(true, 100);
    m2.load_releases(snap, 1010);
    let got = m2.get_releases("o", "r", 1010).expect("reloaded");
    assert_eq!(got.len(), 1);
    assert_eq!(got[0].tag_name, "v1.0.0");

    let snap: Vec<(String, CachedEntry<LatestReleaseInfo>)> = m
        .snapshot_latest_release(1000)
        .into_iter()
        .map(|(k, e)| {
            (
                k.clone(),
                CachedEntry {
                    value: e.value.clone(),
                    expires_at: e.expires_at,
                },
            )
        })
        .collect();
    m2.load_latest_release(snap, 1010);
    let got = m2.get_latest_release("o", "r", 1010).expect("reloaded");
    assert_eq!(got.latest_version, "v1.0.0");
}

#[test]
fn test_blob_hit_refreshes_last_access() {
    // A lookup at t1 returns the descriptor stamped last_accessed_at == t1.
    let mut m = manager(true, 3600);
    m.set_file_cache(
        "https://x/a.zip",
        "cache_files/abc.zip".to_string(),
        "a.zip".to_string(),
        Some("application/zip".to_string()),
        1000,
    );
    let got = m
        .get_file_cache("https://x/a.zip", 1500, true)
        .expect("live blob hits");
    assert_eq!(got.last_accessed_at, 1500);
    assert_eq!(got.url, "https://x/a.zip");
    assert_eq!(got.file_path, "cache_files/abc.zip");
    assert_eq!(got.original_filename, "a.zip");
    assert_eq!(got.content_type.as_deref(), Some("application/zip"));
    // and the refresh sticks
    let again = m.get_file_cache("https://x/a.zip", 1600, true).unwrap();
    assert_eq!(again.last_accessed_at, 1600);
}

#[test]
fn test_blob_misses() {
    let mut m = manager(true, 10);
    m.set_file_cache(
        "https://x/a.zip",
        "p/a.zip".to_string(),
        "a.zip".to_string(),
        None,
        1000,
    );
    // missing file on disk
    assert!(m.get_file_cache("https://x/a.zip", 1001, false).is_none());
    // expired descriptor
    assert!(m.get_file_cache("https://x/a.zip", 1011, true).is_none());
    // unknown URL
    assert!(m.get_file_cache("https://x/other.zip", 1001, true).is_none());
    // disabled cache never answers
    let mut off = manager(false, 10);
    off.set_file_cache(
        "https://x/a.zip",
        "p/a.zip".to_string(),
        "a.zip".to_string(),
        None,
        1000,
    );
    assert!(off.get_file_cache("https://x/a.zip", 1000, true).is_none());
}

#[test]
fn test_lru_eviction_scenario() {
    // With max_files = 2, storing three distinct URLs and cleaning up
    // deletes the least recently stored one; lookups agree.
    let mut m = manager(true, 3600);
    m.set_file_cache("https://x/u1", "d/u1.bin".to_string(), "u1".to_string(), None, 100);
    m.set_file_cache("https://x/u2", "d/u2.bin".to_string(), "u2".to_string(), None, 200);
    m.set_file_cache("https://x/u3", "d/u3.bin".to_string(), "u3".to_string(), None, 300);
    let dir = vec![
        "d/u1.bin".to_string(),
        "d/u2.bin".to_string(),
        "d/u3.bin".to_string(),
    ];
    let doomed = m.cleanup_file_cache(2, &dir, 400);
    assert_eq!(doomed, vec!["d/u1.bin".to_string()]);
    assert!(m.get_file_cache("https://x/u1", 400, true).is_none());
    assert!(m.get_file_cache("https://x/u2", 400, true).is_some());
    assert!(m.get_file_cache("https://x/u3", 400, true).is_some());
}

#[test]
fn test_lru_keeps_recently_accessed() {
    // A lookup refreshes the access time, so the freshly touched blob
    // survives cleanup even though it was stored first.
    let mut m = manager(true, 3600);
    m.set_file_cache("https://x/u1", "d/u1.bin".to_string(), "u1".to_string(), None, 100);
    m.set_file_cache("https://x/u2", "d/u2.bin".to_string(), "u2".to_string(), None, 200);
    m.set_file_cache("https://x/u3", "d/u3.bin".to_string(), "u3".to_string(), None, 300);
    m.get_file_cache("https://x/u1", 500, true).unwrap();
    let dir = vec![
        "d/u1.bin".to_string(),
        "d/u2.bin".to_string(),
        "d/u3.bin".to_string(),
    ];
    let doomed = m.cleanup_file_cache(2, &dir, 600);
    assert_eq!(doomed, vec!["d/u2.bin".to_string()]);
    assert!(m.get_file_cache("https://x/u1", 600, true).is_some());
    assert!(m.get_file_cache("https://x/u3", 600, true).is_some());
}

#[test]
fn test_cleanup_under_threshold_deletes_nothing() {
    let mut m = manager(true, 3600);
    m.set_file_cache("https://x/u1", "d/u1.bin".to_string(), "u1".to_string(), None, 100);
    let dir = vec!["d/u1.bin".to_string()];
    let doomed = m.cleanup_file_cache(50, &dir, 200);
    assert!(doomed.is_empty());
    assert!(m.get_file_cache("https://x/u1", 200, true).is_some());
}

#[test]
fn test_cleanup_leaves_orphans_alone() {
    // A file in the directory without a reverse-index row is not touched.
    let mut m = manager(true, 3600);
    m.set_file_cache("https://x/u1", "d/u1.bin".to_string(), "u1".to_string(), None, 100);
    m.set_file_cache("https://x/u2", "d/u2.bin".to_string(), "u2".to_string(), None, 200);
    let dir = vec![
        "d/u1.bin".to_string(),
        "d/u2.bin".to_string(),
        "d/orphan.bin".to_string(),
    ];
    let doomed = m.cleanup_file_cache(1, &dir, 300);
    assert_eq!(doomed, vec!["d/u1.bin".to_string()]);
}

#[test]
fn test_cleanup_skips_expired_descriptors() {
    // Expired descriptors are no candidates: they are neither kept against
    // the budget nor deleted by cleanup.
    let mut m = manager(true, 10);
    m.set_file_cache("https://x/u1", "d/u1.bin".to_string(), "u1".to_string(), None, 100); // expires 110
    m.set_file_cache("https://x/u2", "d/u2.bin".to_string(), "u2".to_string(), None, 200); // expires 210
    let dir = vec!["d/u1.bin".to_string(), "d/u2.bin".to_string()];
    let doomed = m.cleanup_file_cache(1, &dir, 205);
    assert!(doomed.is_empty());
}

#[test]
fn test_get_file_cache_dir() {
    let m = manager(true, 3600);
    assert_eq!(m.get_file_cache_dir(), "cache_files");
    assert_eq!(m.get_cache_file_path(), "cache.json");
}
