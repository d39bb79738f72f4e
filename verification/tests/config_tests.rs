use gh_info_rs::config::{parse_bool, parse_speed_limit, parse_u64};
use gh_info_rs::models::{GithubAsset, GithubRelease, GithubRepo};
use gh_info_rs::models::{latest_release_from_github, release_infos_from_github, repo_info_from_github};

#[test]
fn test_parse_bool() {
    assert_eq!(parse_bool("true"), Some(true));
    assert_eq!(parse_bool("false"), Some(false));
    assert_eq!(parse_bool("True"), None);
    assert_eq!(parse_bool("1"), None);
    assert_eq!(parse_bool(""), None);
}

#[test]
fn test_parse_u64() {
    assert_eq!(parse_u64("3600"), Some(3600));
    assert_eq!(parse_u64("+42"), Some(42));
    assert_eq!(parse_u64("0"), Some(0));
    assert_eq!(parse_u64("18446744073709551615"), Some(u64::MAX));
    assert_eq!(parse_u64("18446744073709551616"), None);
    assert_eq!(parse_u64("99999999999999999999999"), None);
    assert_eq!(parse_u64(""), None);
    assert_eq!(parse_u64("+"), None);
    assert_eq!(parse_u64("-1"), None);
    assert_eq!(parse_u64("12a"), None);
    assert_eq!(parse_u64(" 12"), None);
}

#[test]
fn test_parse_speed_limit() {
    assert_eq!(parse_speed_limit("10mb/s"), Some(10 * 1024 * 1024));
    assert_eq!(parse_speed_limit("10MB/s"), Some(10 * 1024 * 1024));
    assert_eq!(parse_speed_limit(" 512 kb/s "), Some(512 * 1024));
    assert_eq!(parse_speed_limit("2mbs"), Some(2 * 1024 * 1024));
    assert_eq!(parse_speed_limit("8kbs"), Some(8 * 1024));
    assert_eq!(parse_speed_limit("1048576"), Some(1048576));
    assert_eq!(parse_speed_limit("fast"), None);
    assert_eq!(parse_speed_limit(""), None);
    // scaling that leaves u64 yields nothing rather than wrapping
    assert_eq!(parse_speed_limit("18446744073709551615mb/s"), None);
}

fn github_release() -> GithubRelease {
    GithubRelease {
        tag_name: "v1.0.0".to_string(),
        name: Some("Release 1.0.0".to_string()),
        body: Some("Changelog".to_string()),
        published_at: "2024-01-01T00:00:00Z".to_string(),
        assets: vec![
            GithubAsset {
                name: "file.zip".to_string(),
                download_url: "https://example.com/file.zip".to_string(),
            },
            GithubAsset {
                name: "sums.txt".to_string(),
                download_url: "https://example.com/sums.txt".to_string(),
            },
        ],
    }
}

#[test]
fn test_repo_info_from_github() {
    let g = GithubRepo {
        name: "test".to_string(),
        full_name: "owner/test".to_string(),
        html_url: "https://github.com/owner/test".to_string(),
        description: Some("Test repo".to_string()),
        stargazers_count: 100,
        forks_count: 50,
        updated_at: "2024-01-01T00:00:00Z".to_string(),
    };
    let info = repo_info_from_github("owner", "test", g);
    assert_eq!(info.repo, "owner/test");
    assert_eq!(info.name, "test");
    assert_eq!(info.full_name, "owner/test");
    assert_eq!(info.stargazers_count, 100);
    assert_eq!(info.forks_count, 50);
}

#[test]
fn test_release_infos_from_github() {
    let rs = release_infos_from_github(vec![github_release()]);
    assert_eq!(rs.len(), 1);
    assert_eq!(rs[0].tag_name, "v1.0.0");
    assert_eq!(rs[0].name.as_deref(), Some("Release 1.0.0"));
    assert_eq!(rs[0].changelog.as_deref(), Some("Changelog"));
    assert_eq!(
        rs[0].attachments,
        vec![
            (
                "file.zip".to_string(),
                "https://example.com/file.zip".to_string()
            ),
            (
                "sums.txt".to_string(),
                "https://example.com/sums.txt".to_string()
            ),
        ]
    );
}

#[test]
fn test_latest_release_from_github() {
    let latest = latest_release_from_github("owner", "test", github_release());
    assert_eq!(latest.repo, "owner/test");
    assert_eq!(latest.latest_version, "v1.0.0");
    assert_eq!(latest.changelog.as_deref(), Some("Changelog"));
    assert_eq!(latest.attachments.len(), 2);
}

#[test]
fn test_parse_speed_limit_strips_repeated_suffixes() {
    // suffix trimming peels every copy, as repeated end-matching does
    assert_eq!(parse_speed_limit("10mbsmbs"), Some(10 * 1024 * 1024));
    assert_eq!(parse_speed_limit("3kb/skb/s"), Some(3 * 1024));
}
