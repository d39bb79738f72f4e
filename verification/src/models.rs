//! Data carried through the cache: upstream payloads as plain values and
//! the shapes served to clients, with the verified conversions between them.

use vstd::prelude::*;

verus! {

/// Service health report.
pub struct HealthResponse {
    pub status: String,
    pub service: String,
    pub version: String,
}

/// Repository record as the upstream API reports it.
pub struct GithubRepo {
    pub name: String,
    pub full_name: String,
    pub html_url: String,
    pub description: Option<String>,
    pub stargazers_count: u32,
    pub forks_count: u32,
    pub updated_at: String,
}

/// A downloadable release asset as the upstream API reports it.
pub struct GithubAsset {
    pub name: String,
    pub download_url: String,
}

/// A release as the upstream API reports it.
pub struct GithubRelease {
    pub tag_name: String,
    pub name: Option<String>,
    pub body: Option<String>,
    pub published_at: String,
    pub assets: Vec<GithubAsset>,
}

/// Repository record served to clients.
pub struct RepoInfo {
    pub repo: String,
    pub name: String,
    pub full_name: String,
    pub html_url: String,
    pub description: Option<String>,
    pub stargazers_count: u32,
    pub forks_count: u32,
    pub updated_at: String,
}

/// Release record served to clients; attachments are (name, download URL)
/// pairs.
pub struct ReleaseInfo {
    pub tag_name: String,
    pub name: Option<String>,
    pub changelog: Option<String>,
    pub published_at: String,
    pub attachments: Vec<(String, String)>,
}

/// Latest-release record served to clients.
pub struct LatestReleaseInfo {
    pub repo: String,
    pub latest_version: String,
    pub changelog: Option<String>,
    pub published_at: String,
    pub attachments: Vec<(String, String)>,
}

/// A batch query: repository slugs of the form `"owner/repo"`, and which
/// record kinds to collect (all of them when empty).
pub struct BatchRequest {
    pub repos: Vec<String>,
    pub fields: Vec<String>,
}

/// The outcome of one repository within a batch query.
pub struct RepoBatchResult {
    pub repo: String,
    pub success: bool,
    pub error: Option<String>,
    pub repo_info: Option<RepoInfo>,
    pub releases: Option<Vec<ReleaseInfo>>,
    pub latest_release: Option<LatestReleaseInfo>,
}

/// Batch results in request order.
pub struct BatchResponse {
    pub results: Vec<RepoBatchResult>,
}

/// Batch results keyed by repository slug.
pub struct BatchResponseMap {
    pub results_map: std::collections::HashMap<String, RepoBatchResult>,
}

/// Equality on release records: field for field, attachments by contents.
pub open spec fn release_info_eq(a: ReleaseInfo, b: ReleaseInfo) -> bool {
    &&& a.tag_name == b.tag_name
    &&& a.name == b.name
    &&& a.changelog == b.changelog
    &&& a.published_at == b.published_at
    &&& a.attachments@ == b.attachments@
}

/// Equality on release lists: element for element.
pub open spec fn releases_eq(a: Seq<ReleaseInfo>, b: Seq<ReleaseInfo>) -> bool {
    &&& a.len() == b.len()
    &&& forall|i: int| 0 <= i < a.len() ==> release_info_eq(#[trigger] a[i], b[i])
}

/// Equality on latest-release records: field for field, attachments by
/// contents.
pub open spec fn latest_release_eq(a: LatestReleaseInfo, b: LatestReleaseInfo) -> bool {
    &&& a.repo == b.repo
    &&& a.latest_version == b.latest_version
    &&& a.changelog == b.changelog
    &&& a.published_at == b.published_at
    &&& a.attachments@ == b.attachments@
}

fn clone_opt_string(s: &Option<String>) -> (r: Option<String>)
    ensures
        r == *s,
{
    match s {
        Some(v) => Some(v.clone()),
        None => None,
    }
}

fn clone_pairs(v: &Vec<(String, String)>) -> (r: Vec<(String, String)>)
    ensures
        r@ == v@,
{
    let n = v.len();
    let mut out: Vec<(String, String)> = Vec::new();
    let mut i: usize = 0;
    while i < n
        invariant
            n == v@.len(),
            i <= n,
            out@.len() == i,
            forall|j: int| 0 <= j < i ==> out@[j] == v@[j],
        decreases n - i,
    {
        let (a, b) = &v[i];
        out.push((a.clone(), b.clone()));
        i += 1;
    }
    proof {
        assert(out@ =~= v@);
    }
    out
}

impl Clone for RepoInfo {
    fn clone(&self) -> (r: Self)
        ensures
            r == *self,
    {
        RepoInfo {
            repo: self.repo.clone(),
            name: self.name.clone(),
            full_name: self.full_name.clone(),
            html_url: self.html_url.clone(),
            description: clone_opt_string(&self.description),
            stargazers_count: self.stargazers_count,
            forks_count: self.forks_count,
            updated_at: self.updated_at.clone(),
        }
    }
}

impl Clone for ReleaseInfo {
    fn clone(&self) -> (r: Self)
        ensures
            release_info_eq(r, *self),
    {
        ReleaseInfo {
            tag_name: self.tag_name.clone(),
            name: clone_opt_string(&self.name),
            changelog: clone_opt_string(&self.changelog),
            published_at: self.published_at.clone(),
            attachments: clone_pairs(&self.attachments),
        }
    }
}

impl Clone for LatestReleaseInfo {
    fn clone(&self) -> (r: Self)
        ensures
            latest_release_eq(r, *self),
    {
        LatestReleaseInfo {
            repo: self.repo.clone(),
            latest_version: self.latest_version.clone(),
            changelog: clone_opt_string(&self.changelog),
            published_at: self.published_at.clone(),
            attachments: clone_pairs(&self.attachments),
        }
    }
}

/// Clones a release list, element for element.
pub fn clone_releases(v: &Vec<ReleaseInfo>) -> (r: Vec<ReleaseInfo>)
    ensures
        releases_eq(r@, v@),
{
    let n = v.len();
    let mut out: Vec<ReleaseInfo> = Vec::new();
    let mut i: usize = 0;
    while i < n
        invariant
            n == v@.len(),
            i <= n,
            out@.len() == i,
            forall|j: int| 0 <= j < i ==> release_info_eq(#[trigger] out@[j], v@[j]),
        decreases n - i,
    {
        out.push(v[i].clone());
        i += 1;
    }
    out
}

/// The `"owner/repo"` slug.
pub open spec fn slug_spec(owner: Seq<char>, repo: Seq<char>) -> Seq<char> {
    owner + "/"@ + repo
}

/// Joins owner and repository name into the `"owner/repo"` slug.
pub fn repo_slug(owner: &str, repo: &str) -> (r: String)
    ensures
        r@ == slug_spec(owner@, repo@),
{
    let mut s = String::from_str(owner);
    s.append("/");
    s.append(repo);
    proof {
        assert(s@ =~= slug_spec(owner@, repo@));
    }
    s
}

/// The attachment pair an upstream asset maps to.
pub open spec fn attachment_of(a: GithubAsset) -> (String, String) {
    (a.name, a.download_url)
}

/// Turns the upstream asset list into (name, download URL) pairs, in order.
pub fn attachments_from_assets(assets: Vec<GithubAsset>) -> (r: Vec<(String, String)>)
    ensures
        r@ == assets@.map_values(|a: GithubAsset| attachment_of(a)),
{
    let n = assets.len();
    let mut out: Vec<(String, String)> = Vec::new();
    let mut i: usize = 0;
    while i < n
        invariant
            n == assets@.len(),
            i <= n,
            out@.len() == i,
            forall|j: int| 0 <= j < i ==> out@[j] == attachment_of(assets@[j]),
        decreases n - i,
    {
        let a = &assets[i];
        out.push((a.name.clone(), a.download_url.clone()));
        i += 1;
    }
    proof {
        assert(out@ =~= assets@.map_values(|a: GithubAsset| attachment_of(a)));
    }
    out
}

/// Shapes an upstream repository record for clients, stamping in the
/// `"owner/repo"` slug.
pub fn repo_info_from_github(owner: &str, repo: &str, g: GithubRepo) -> (r: RepoInfo)
    ensures
        r.repo@ == slug_spec(owner@, repo@),
        r.name == g.name,
        r.full_name == g.full_name,
        r.html_url == g.html_url,
        r.description == g.description,
        r.stargazers_count == g.stargazers_count,
        r.forks_count == g.forks_count,
        r.updated_at == g.updated_at,
{
    RepoInfo {
        repo: repo_slug(owner, repo),
        name: g.name,
        full_name: g.full_name,
        html_url: g.html_url,
        description: g.description,
        stargazers_count: g.stargazers_count,
        forks_count: g.forks_count,
        updated_at: g.updated_at,
    }
}

/// Shapes an upstream release for clients: the release body becomes the
/// changelog, assets become attachment pairs.
pub fn release_info_from_github(g: GithubRelease) -> (r: ReleaseInfo)
    ensures
        r.tag_name == g.tag_name,
        r.name == g.name,
        r.changelog == g.body,
        r.published_at == g.published_at,
        r.attachments@ == g.assets@.map_values(|a: GithubAsset| attachment_of(a)),
{
    let attachments = attachments_from_assets(g.assets);
    ReleaseInfo { tag_name: g.tag_name, name: g.name, changelog: g.body, published_at: g.published_at, attachments }
}

/// Shapes a list of upstream releases for clients, in order.
pub fn release_infos_from_github(gs: Vec<GithubRelease>) -> (r: Vec<ReleaseInfo>)
    ensures
        r@.len() == gs@.len(),
        forall|j: int|
            0 <= j < gs@.len() ==> {
                &&& (#[trigger] r@[j]).tag_name == gs@[j].tag_name
                &&& r@[j].name == gs@[j].name
                &&& r@[j].changelog == gs@[j].body
                &&& r@[j].published_at == gs@[j].published_at
                &&& r@[j].attachments@ == gs@[j].assets@.map_values(
                    |a: GithubAsset| attachment_of(a),
                )
            },
{
    let mut rest = gs;
    let n = rest.len();
    let mut out: Vec<ReleaseInfo> = Vec::new();
    let ghost all = rest@;
    let mut i: usize = 0;
    proof {
        assert(rest@ =~= all.skip(0));
    }
    while rest.len() > 0
        invariant
            n == all.len(),
            i + rest@.len() == n,
            rest@ =~= all.skip(i as int),
            out@.len() == i,
            forall|j: int|
                0 <= j < i ==> {
                    &&& (#[trigger] out@[j]).tag_name == all[j].tag_name
                    &&& out@[j].name == all[j].name
                    &&& out@[j].changelog == all[j].body
                    &&& out@[j].published_at == all[j].published_at
                    &&& out@[j].attachments@ == all[j].assets@.map_values(
                        |a: GithubAsset| attachment_of(a),
                    )
                },
        decreases rest@.len(),
    {
        let g = rest.remove(0);
        proof {
            assert(g == all[i as int]);
            assert(rest@ =~= all.skip(i as int + 1));
        }
        out.push(release_info_from_github(g));
        i += 1;
    }
    out
}

/// Shapes the latest upstream release for clients.
pub fn latest_release_from_github(owner: &str, repo: &str, g: GithubRelease) -> (r:
    LatestReleaseInfo)
    ensures
        r.repo@ == slug_spec(owner@, repo@),
        r.latest_version == g.tag_name,
        r.changelog == g.body,
        r.published_at == g.published_at,
        r.attachments@ == g.assets@.map_values(|a: GithubAsset| attachment_of(a)),
{
    let attachments = attachments_from_assets(g.assets);
    LatestReleaseInfo {
        repo: repo_slug(owner, repo),
        latest_version: g.tag_name,
        changelog: g.body,
        published_at: g.published_at,
        attachments,
    }
}

} // verus!
