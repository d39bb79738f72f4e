use gh_info_rs::cache::CacheManager;
use gh_info_rs::fingerprint::{file_cache_key, url_hash};
use gh_info_rs::paths::{blob_file_name, derive_filename, extension_or_bin, infer_blob_dir, join_path};
use sha2::{Digest, Sha256};

#[test]
fn test_blob_key_known_digest() {
    // The published SHA-256 of "abc", lowercase hex, behind the "file:"
    // domain separator.
    assert_eq!(
        file_cache_key("abc"),
        "file:ba7816bf8f01cfea414140de5dae2223b00361a396177a9cb410ff61f20015ad"
    );
    assert_eq!(
        url_hash("abc"),
        "ba7816bf8f01cfea414140de5dae2223b00361a396177a9cb410ff61f20015ad"
    );
}

#[test]
fn test_blob_key_matches_direct_digest() {
    let url = "https://github.com/octocat/Hello-World/releases/download/v1/file.zip?token=x";
    let digest = Sha256::digest(url.as_bytes());
    let expected = format!("file:{}", hex::encode(digest));
    assert_eq!(file_cache_key(url), expected);
}

#[test]
fn test_blob_key_deterministic_across_calls() {
    let url = "https://example.com/some/asset.tar.gz?sig=abc123";
    assert_eq!(file_cache_key(url), file_cache_key(url));
    assert_eq!(CacheManager::file_cache_key(url), file_cache_key(url));
    // different URLs land on different keys
    assert_ne!(file_cache_key(url), file_cache_key("https://example.com/other"));
}

#[test]
fn test_derive_filename() {
    assert_eq!(
        derive_filename("https://x/path/to/a.zip?token=1"),
        "a.zip"
    );
    assert_eq!(derive_filename("https://x/a.zip"), "a.zip");
    assert_eq!(derive_filename("plain"), "plain");
    assert_eq!(derive_filename("https://x/dir/"), "");
    assert_eq!(derive_filename("https://x/a?b/c"), "c");
}

#[test]
fn test_extension_or_bin() {
    assert_eq!(extension_or_bin("file.zip"), "zip");
    assert_eq!(extension_or_bin("archive.tar.gz"), "gz");
    assert_eq!(extension_or_bin("file"), "bin");
    assert_eq!(extension_or_bin(".hidden"), "bin");
    assert_eq!(extension_or_bin(""), "bin");
    assert_eq!(extension_or_bin("trailing."), "");
}

#[test]
fn test_blob_file_name() {
    let expected = format!(
        "{}.{}",
        hex::encode(Sha256::digest("https://x/a.zip?sig=1".as_bytes())),
        "zip"
    );
    assert_eq!(blob_file_name("https://x/a.zip?sig=1"), expected);
    let expected_bin = format!(
        "{}.bin",
        hex::encode(Sha256::digest("https://x/raw".as_bytes()))
    );
    assert_eq!(blob_file_name("https://x/raw"), expected_bin);
}

#[test]
fn test_join_path() {
    assert_eq!(join_path("cache_files", "a.zip"), "cache_files/a.zip");
    assert_eq!(join_path("cache_files/", "a.zip"), "cache_files/a.zip");
    assert_eq!(join_path("", "a.zip"), "a.zip");
    assert_eq!(join_path("/", "a.zip"), "/a.zip");
}

#[test]
fn test_infer_blob_dir() {
    assert_eq!(infer_blob_dir("/app/data/cache.json"), "/app/data/cache_files");
    assert_eq!(infer_blob_dir("cache.json"), "cache_files");
    assert_eq!(infer_blob_dir("data/cache.json"), "data/cache_files");
    assert_eq!(infer_blob_dir("/cache.json"), "/cache_files");
    assert_eq!(infer_blob_dir("/var/lib/svc/cache.json"), "/var/lib/svc/cache_files");
}

#[test]
fn test_metadata_keys_via_module() {
    assert_eq!(
        gh_info_rs::fingerprint::repo_info_key("octocat", "Hello-World"),
        "repo_info:octocat:Hello-World"
    );
    assert_eq!(
        gh_info_rs::fingerprint::releases_key("o", "r"),
        "releases:o:r"
    );
    assert_eq!(
        gh_info_rs::fingerprint::latest_release_key("o", "r"),
        "latest_release:o:r"
    );
}
