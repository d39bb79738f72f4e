use gh_info_rs::handlers::{
    assemble_batch_result, fields_selected, health_response, invalid_repo_result, parse_repo,
};
use gh_info_rs::models::RepoInfo;

fn sample_repo_info() -> RepoInfo {
    RepoInfo {
        repo: "test/test".to_string(),
        name: "test".to_string(),
        full_name: "test/test".to_string(),
        html_url: "https://github.com/test/test".to_string(),
        description: Some("Test repo".to_string()),
        stargazers_count: 100,
        forks_count: 50,
        updated_at: "2024-01-01T00:00:00Z".to_string(),
    }
}

#[test]
fn test_parse_repo_valid() {
    assert_eq!(
        parse_repo("owner/repo"),
        Some(("owner".to_string(), "repo".to_string()))
    );
    assert_eq!(
        parse_repo("octocat/Hello-World"),
        Some(("octocat".to_string(), "Hello-World".to_string()))
    );
}

#[test]
fn test_parse_repo_invalid() {
    assert_eq!(parse_repo("invalid"), None);
    assert_eq!(parse_repo("owner/repo/extra"), None);
    assert_eq!(parse_repo(""), None);
    assert_eq!(parse_repo("owner/"), None);
    assert_eq!(parse_repo("/repo"), None);
}

#[test]
fn test_fields_selected_empty_means_all() {
    let fields: Vec<String> = Vec::new();
    assert_eq!(fields_selected(&fields), (true, true, true));
}

#[test]
fn test_fields_selected_named() {
    let fields = vec!["repo_info".to_string(), "latest_release".to_string()];
    assert_eq!(fields_selected(&fields), (true, false, true));
    let fields = vec!["releases".to_string()];
    assert_eq!(fields_selected(&fields), (false, true, false));
    let fields = vec!["unknown".to_string()];
    assert_eq!(fields_selected(&fields), (false, false, false));
}

#[test]
fn test_assemble_batch_result_success() {
    let r = assemble_batch_result(
        "owner/test",
        true,
        false,
        false,
        Some(sample_repo_info()),
        None,
        None,
    );
    assert_eq!(r.repo, "owner/test");
    assert!(r.success);
    assert!(r.error.is_none());
    assert!(r.repo_info.is_some());
    assert!(r.releases.is_none());
    assert!(r.latest_release.is_none());
}

#[test]
fn test_assemble_batch_result_failure_names_parts() {
    let r = assemble_batch_result("owner/test", true, true, true, None, None, None);
    assert!(!r.success);
    let msg = r.error.expect("a failed entry carries an error");
    assert_eq!(
        msg,
        "\u{4ed3}\u{5e93}\u{4fe1}\u{606f}\u{83b7}\u{53d6}\u{5931}\u{8d25}; releases \u{83b7}\u{53d6}\u{5931}\u{8d25}; \u{6700}\u{65b0} release \u{83b7}\u{53d6}\u{5931}\u{8d25}"
    );
}

#[test]
fn test_assemble_batch_result_partial_failure() {
    let r = assemble_batch_result(
        "owner/test",
        true,
        true,
        false,
        Some(sample_repo_info()),
        None,
        None,
    );
    assert!(!r.success);
    assert_eq!(
        r.error.unwrap(),
        "releases \u{83b7}\u{53d6}\u{5931}\u{8d25}"
    );
    assert!(r.repo_info.is_some());
}

#[test]
fn test_invalid_repo_result() {
    let r = invalid_repo_result("not-a-slug");
    assert_eq!(r.repo, "not-a-slug");
    assert!(!r.success);
    assert_eq!(
        r.error.unwrap(),
        "\u{4ed3}\u{5e93}\u{683c}\u{5f0f}\u{9519}\u{8bef}\u{ff0c}\u{5e94}\u{4e3a} 'owner/repo'"
    );
}

#[test]
fn test_health_response_shape() {
    let h = health_response("1.2.3".to_string());
    assert_eq!(h.status, "ok");
    assert_eq!(h.service, "GitHub API \u{4fe1}\u{606f}\u{6536}\u{96c6}\u{670d}\u{52a1}");
    assert_eq!(h.version, "1.2.3");
}
