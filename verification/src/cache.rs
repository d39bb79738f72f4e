//! The cache façade: three TTL metadata stores with a persistent shadow,
//! and the on-disk blob index with least-recently-used cleanup.
//!
//! Every operation takes the current time (seconds since the Unix epoch) as
//! an argument; the caller reads the clock. Likewise, what only the file
//! system can answer — whether a blob file still exists, what the blob
//! directory holds — arrives as arguments, and paths of files to delete are
//! returned for the caller to act on.

use vstd::prelude::*;
use vstd::multiset::Multiset;
use crate::fingerprint;
use crate::fingerprint::{repo_info_key_spec, releases_key_spec, latest_release_key_spec,
    file_cache_key_spec};
use crate::models::{RepoInfo, ReleaseInfo, LatestReleaseInfo, releases_eq, latest_release_eq};
use crate::ttl_map::{TtlMap, CachedEntry, keys_unique};

verus! {

/// Entries kept per metadata store before capacity eviction sets in.
pub const METADATA_CACHE_CAPACITY: usize = 10_000;

/// Toggle and time-to-live for the metadata and blob caches.
#[derive(Clone, Copy)]
pub struct CacheConfig {
    pub enabled: bool,
    pub ttl_seconds: u64,
}

/// Descriptor of one cached blob file.
pub struct FileCacheMetadata {
    /// The upstream URL the blob was fetched from.
    pub url: String,
    /// Path of the blob file under the blob directory.
    pub file_path: String,
    /// Presentation name derived from the URL's last path component; never
    /// used as a key.
    pub original_filename: String,
    /// MIME type reported by the origin, if any.
    pub content_type: Option<String>,
    /// Absolute expiry, seconds since the Unix epoch.
    pub expires_at: u64,
    /// Last cache hit, seconds since the Unix epoch; non-decreasing within
    /// a descriptor's lifetime.
    pub last_accessed_at: u64,
}

fn clone_opt_string(s: &Option<String>) -> (r: Option<String>)
    ensures
        r == *s,
{
    match s {
        Some(v) => Some(v.clone()),
        None => None,
    }
}

impl Clone for FileCacheMetadata {
    fn clone(&self) -> (r: Self)
        ensures
            r == *self,
    {
        FileCacheMetadata {
            url: self.url.clone(),
            file_path: self.file_path.clone(),
            original_filename: self.original_filename.clone(),
            content_type: clone_opt_string(&self.content_type),
            expires_at: self.expires_at,
            last_accessed_at: self.last_accessed_at,
        }
    }
}

/// The cache façade. In-memory stores answer `get`; the shadow stores
/// mirror every `set` and feed the periodic snapshot; the blob index pairs
/// a fingerprint-to-descriptor store with a reverse path-to-fingerprint
/// index used during cleanup.
pub struct CacheManager {
    config: CacheConfig,
    repo_info_cache: TtlMap<RepoInfo>,
    releases_cache: TtlMap<Vec<ReleaseInfo>>,
    latest_release_cache: TtlMap<LatestReleaseInfo>,
    file_cache: TtlMap<FileCacheMetadata>,
    shadow_repo_info: TtlMap<RepoInfo>,
    shadow_releases: TtlMap<Vec<ReleaseInfo>>,
    shadow_latest_release: TtlMap<LatestReleaseInfo>,
    cache_file_path: String,
    file_cache_dir: String,
    /// Reverse index from blob file path to fingerprint; its entries carry
    /// no expiry of their own (the forward descriptor does), so they are
    /// stored as never expiring.
    file_path_to_key: TtlMap<String>,
}

impl CacheManager {
    pub closed spec fn spec_enabled(self) -> bool {
        self.config.enabled
    }

    pub closed spec fn ttl(self) -> u64 {
        self.config.ttl_seconds
    }

    pub closed spec fn repo_info_mem(self) -> TtlMap<RepoInfo> {
        self.repo_info_cache
    }

    pub closed spec fn releases_mem(self) -> TtlMap<Vec<ReleaseInfo>> {
        self.releases_cache
    }

    pub closed spec fn latest_release_mem(self) -> TtlMap<LatestReleaseInfo> {
        self.latest_release_cache
    }

    pub closed spec fn file_cache_map(self) -> TtlMap<FileCacheMetadata> {
        self.file_cache
    }

    pub closed spec fn shadow_repo_info_map(self) -> TtlMap<RepoInfo> {
        self.shadow_repo_info
    }

    pub closed spec fn shadow_releases_map(self) -> TtlMap<Vec<ReleaseInfo>> {
        self.shadow_releases
    }

    pub closed spec fn shadow_latest_release_map(self) -> TtlMap<LatestReleaseInfo> {
        self.shadow_latest_release
    }

    pub closed spec fn path_index(self) -> TtlMap<String> {
        self.file_path_to_key
    }

    pub closed spec fn spec_cache_file_path(self) -> Seq<char> {
        self.cache_file_path@
    }

    pub closed spec fn spec_file_cache_dir(self) -> Seq<char> {
        self.file_cache_dir@
    }

    /// Configuration and paths: the parts of the state no operation changes.
    pub open spec fn same_shape(self, other: CacheManager) -> bool {
        &&& self.spec_enabled() == other.spec_enabled()
        &&& self.ttl() == other.ttl()
        &&& self.spec_cache_file_path() == other.spec_cache_file_path()
        &&& self.spec_file_cache_dir() == other.spec_file_cache_dir()
    }

    pub open spec fn wf(self) -> bool {
        &&& self.repo_info_mem().wf() && self.repo_info_mem().cap() == METADATA_CACHE_CAPACITY
        &&& self.releases_mem().wf() && self.releases_mem().cap() == METADATA_CACHE_CAPACITY
        &&& self.latest_release_mem().wf() && self.latest_release_mem().cap()
            == METADATA_CACHE_CAPACITY
        &&& self.file_cache_map().wf() && self.file_cache_map().cap() == METADATA_CACHE_CAPACITY
        &&& self.shadow_repo_info_map().wf() && self.shadow_repo_info_map().cap() == usize::MAX
        &&& self.shadow_releases_map().wf() && self.shadow_releases_map().cap() == usize::MAX
        &&& self.shadow_latest_release_map().wf() && self.shadow_latest_release_map().cap()
            == usize::MAX
        &&& self.path_index().wf() && self.path_index().cap() == usize::MAX
    }

    /// What `get_repo_info` returns: the live entry under the fingerprint,
    /// and only while caching is enabled.
    pub open spec fn spec_get_repo_info(
        self,
        owner: Seq<char>,
        repo: Seq<char>,
        now: u64,
    ) -> Option<RepoInfo> {
        if !self.spec_enabled() {
            None
        } else {
            self.repo_info_mem().live_get(repo_info_key_spec(owner, repo), now)
        }
    }

    pub open spec fn spec_get_releases(
        self,
        owner: Seq<char>,
        repo: Seq<char>,
        now: u64,
    ) -> Option<Vec<ReleaseInfo>> {
        if !self.spec_enabled() {
            None
        } else {
            self.releases_mem().live_get(releases_key_spec(owner, repo), now)
        }
    }

    pub open spec fn spec_get_latest_release(
        self,
        owner: Seq<char>,
        repo: Seq<char>,
        now: u64,
    ) -> Option<LatestReleaseInfo> {
        if !self.spec_enabled() {
            None
        } else {
            self.latest_release_mem().live_get(latest_release_key_spec(owner, repo), now)
        }
    }

    /// A fresh manager: empty stores, the given configuration and paths.
    pub fn new(config: CacheConfig, cache_file_path: String, file_cache_dir: String) -> (r: Self)
        ensures
            r.wf(),
            r.spec_enabled() == config.enabled,
            r.ttl() == config.ttl_seconds,
            r.spec_cache_file_path() == cache_file_path@,
            r.spec_file_cache_dir() == file_cache_dir@,
            forall|k: Seq<char>| #[trigger] r.repo_info_mem().spec_get(k) is None,
            forall|k: Seq<char>| #[trigger] r.releases_mem().spec_get(k) is None,
            forall|k: Seq<char>| #[trigger] r.latest_release_mem().spec_get(k) is None,
            forall|k: Seq<char>| #[trigger] r.file_cache_map().spec_get(k) is None,
            forall|k: Seq<char>| #[trigger] r.shadow_repo_info_map().spec_get(k) is None,
            forall|k: Seq<char>| #[trigger] r.shadow_releases_map().spec_get(k) is None,
            forall|k: Seq<char>| #[trigger] r.shadow_latest_release_map().spec_get(k) is None,
            forall|k: Seq<char>| #[trigger] r.path_index().spec_get(k) is None,
            r.shadow_repo_info_map().entries_seq().len() == 0,
            r.shadow_releases_map().entries_seq().len() == 0,
            r.shadow_latest_release_map().entries_seq().len() == 0,
    {
        CacheManager {
            config,
            repo_info_cache: TtlMap::new(METADATA_CACHE_CAPACITY),
            releases_cache: TtlMap::new(METADATA_CACHE_CAPACITY),
            latest_release_cache: TtlMap::new(METADATA_CACHE_CAPACITY),
            file_cache: TtlMap::new(METADATA_CACHE_CAPACITY),
            shadow_repo_info: TtlMap::new(usize::MAX),
            shadow_releases: TtlMap::new(usize::MAX),
            shadow_latest_release: TtlMap::new(usize::MAX),
            cache_file_path,
            file_cache_dir,
            file_path_to_key: TtlMap::new(usize::MAX),
        }
    }

    pub fn is_enabled(&self) -> (r: bool)
        ensures
            r == self.spec_enabled(),
    {
        self.config.enabled
    }

    /// The blob directory all blob files live under.
    pub fn get_file_cache_dir(&self) -> (r: &String)
        ensures
            r@ == self.spec_file_cache_dir(),
    {
        &self.file_cache_dir
    }

    /// The snapshot file path.
    pub fn get_cache_file_path(&self) -> (r: &String)
        ensures
            r@ == self.spec_cache_file_path(),
    {
        &self.cache_file_path
    }

    /// The fingerprint of a repository-info entry.
    pub fn repo_info_key(owner: &str, repo: &str) -> (r: String)
        ensures
            r@ == repo_info_key_spec(owner@, repo@),
    {
        fingerprint::repo_info_key(owner, repo)
    }

    /// The fingerprint of a release-list entry.
    pub fn releases_key(owner: &str, repo: &str) -> (r: String)
        ensures
            r@ == releases_key_spec(owner@, repo@),
    {
        fingerprint::releases_key(owner, repo)
    }

    /// The fingerprint of a latest-release entry.
    pub fn latest_release_key(owner: &str, repo: &str) -> (r: String)
        ensures
            r@ == latest_release_key_spec(owner@, repo@),
    {
        fingerprint::latest_release_key(owner, repo)
    }

    /// The fingerprint of a blob, from its URL.
    pub fn file_cache_key(url: &str) -> (r: String)
        ensures
            r@ == file_cache_key_spec(url@),
    {
        fingerprint::file_cache_key(url)
    }

    /// Returns a live repository-info entry, or absent on a miss, an
    /// expired entry, or disabled caching.
    pub fn get_repo_info(&self, owner: &str, repo: &str, now: u64) -> (r: Option<RepoInfo>)
        requires
            self.wf(),
        ensures
            r == self.spec_get_repo_info(owner@, repo@, now),
    {
        if !self.is_enabled() {
            return None;
        }
        let key = fingerprint::repo_info_key(owner, repo);
        match self.repo_info_cache.get(key.as_str(), now) {
            Some(v) => Some(v.clone()),
            None => None,
        }
    }

    /// Inserts or replaces a repository-info entry, expiring `ttl` from
    /// `now`, in memory and in the shadow alike. A no-op when disabled.
    pub fn set_repo_info(&mut self, owner: &str, repo: &str, info: RepoInfo, now: u64)
        requires
            old(self).wf(),
            now + old(self).ttl() <= u64::MAX,
        ensures
            final(self).wf(),
            final(self).same_shape(*old(self)),
            final(self).releases_mem() == old(self).releases_mem(),
            final(self).latest_release_mem() == old(self).latest_release_mem(),
            final(self).file_cache_map() == old(self).file_cache_map(),
            final(self).shadow_releases_map() == old(self).shadow_releases_map(),
            final(self).shadow_latest_release_map() == old(self).shadow_latest_release_map(),
            final(self).path_index() == old(self).path_index(),
            !old(self).spec_enabled() ==> *final(self) == *old(self),
            old(self).spec_enabled() ==> {
                let key = repo_info_key_spec(owner@, repo@);
                let entry = CachedEntry { value: info, expires_at: (now + old(self).ttl()) as u64 };
                &&& final(self).repo_info_mem().spec_get(key) == Some(entry)
                &&& final(self).shadow_repo_info_map().spec_get(key) == Some(entry)
                &&& forall|k: Seq<char>|
                    k != key ==> (#[trigger] final(self).repo_info_mem().spec_get(k) == old(self).repo_info_mem().spec_get(k) || final(self).repo_info_mem().spec_get(k)
                        is None)
                &&& forall|k: Seq<char>|
                    k != key ==> (#[trigger] final(self).shadow_repo_info_map().spec_get(k) == old(self).shadow_repo_info_map().spec_get(k) || final(self).shadow_repo_info_map().spec_get(k) is None)
            },
    {
        if self.is_enabled() {
            let key = fingerprint::repo_info_key(owner, repo);
            let expires_at = now + self.config.ttl_seconds;
            let shadow_entry = CachedEntry { value: info.clone(), expires_at };
            self.repo_info_cache.insert(key.clone(), CachedEntry { value: info, expires_at });
            self.shadow_repo_info.insert(key, shadow_entry);
        }
    }

    /// Returns a live release-list entry, or absent on a miss, an expired
    /// entry, or disabled caching.
    pub fn get_releases(&self, owner: &str, repo: &str, now: u64) -> (r: Option<Vec<ReleaseInfo>>)
        requires
            self.wf(),
        ensures
            match self.spec_get_releases(owner@, repo@, now) {
                Some(w) => r matches Some(v) && releases_eq(v@, w@),
                None => r is None,
            },
    {
        if !self.is_enabled() {
            return None;
        }
        let key = fingerprint::releases_key(owner, repo);
        match self.releases_cache.get(key.as_str(), now) {
            Some(v) => Some(crate::models::clone_releases(v)),
            None => None,
        }
    }

    /// Inserts or replaces a release-list entry, expiring `ttl` from `now`,
    /// in memory and in the shadow alike. A no-op when disabled.
    pub fn set_releases(&mut self, owner: &str, repo: &str, releases: Vec<ReleaseInfo>, now: u64)
        requires
            old(self).wf(),
            now + old(self).ttl() <= u64::MAX,
        ensures
            final(self).wf(),
            final(self).same_shape(*old(self)),
            final(self).repo_info_mem() == old(self).repo_info_mem(),
            final(self).latest_release_mem() == old(self).latest_release_mem(),
            final(self).file_cache_map() == old(self).file_cache_map(),
            final(self).shadow_repo_info_map() == old(self).shadow_repo_info_map(),
            final(self).shadow_latest_release_map() == old(self).shadow_latest_release_map(),
            final(self).path_index() == old(self).path_index(),
            !old(self).spec_enabled() ==> *final(self) == *old(self),
            old(self).spec_enabled() ==> {
                let key = releases_key_spec(owner@, repo@);
                let expires = (now + old(self).ttl()) as u64;
                &&& final(self).releases_mem().spec_get(key) matches Some(e) && e.expires_at
                    == expires && releases_eq(e.value@, releases@)
                &&& final(self).shadow_releases_map().spec_get(key) matches Some(e) && e.expires_at
                    == expires && releases_eq(e.value@, releases@)
                &&& forall|k: Seq<char>|
                    k != key ==> (#[trigger] final(self).releases_mem().spec_get(k) == old(self).releases_mem().spec_get(k) || final(self).releases_mem().spec_get(k) is None)
                &&& forall|k: Seq<char>|
                    k != key ==> (#[trigger] final(self).shadow_releases_map().spec_get(k) == old(self).shadow_releases_map().spec_get(k) || final(self).shadow_releases_map().spec_get(k) is None)
            },
    {
        if self.is_enabled() {
            let key = fingerprint::releases_key(owner, repo);
            let expires_at = now + self.config.ttl_seconds;
            let shadow_entry = CachedEntry {
                value: crate::models::clone_releases(&releases),
                expires_at,
            };
            self.releases_cache.insert(key.clone(), CachedEntry { value: releases, expires_at });
            self.shadow_releases.insert(key, shadow_entry);
        }
    }

    /// Returns a live latest-release entry, or absent on a miss, an expired
    /// entry, or disabled caching.
    pub fn get_latest_release(&self, owner: &str, repo: &str, now: u64) -> (r: Option<
        LatestReleaseInfo,
    >)
        requires
            self.wf(),
        ensures
            match self.spec_get_latest_release(owner@, repo@, now) {
                Some(w) => r matches Some(v) && latest_release_eq(v, w),
                None => r is None,
            },
    {
        if !self.is_enabled() {
            return None;
        }
        let key = fingerprint::latest_release_key(owner, repo);
        match self.latest_release_cache.get(key.as_str(), now) {
            Some(v) => Some(v.clone()),
            None => None,
        }
    }

    /// Inserts or replaces a latest-release entry, expiring `ttl` from
    /// `now`, in memory and in the shadow alike. A no-op when disabled.
    pub fn set_latest_release(
        &mut self,
        owner: &str,
        repo: &str,
        release: LatestReleaseInfo,
        now: u64,
    )
        requires
            old(self).wf(),
            now + old(self).ttl() <= u64::MAX,
        ensures
            final(self).wf(),
            final(self).same_shape(*old(self)),
            final(self).repo_info_mem() == old(self).repo_info_mem(),
            final(self).releases_mem() == old(self).releases_mem(),
            final(self).file_cache_map() == old(self).file_cache_map(),
            final(self).shadow_repo_info_map() == old(self).shadow_repo_info_map(),
            final(self).shadow_releases_map() == old(self).shadow_releases_map(),
            final(self).path_index() == old(self).path_index(),
            !old(self).spec_enabled() ==> *final(self) == *old(self),
            old(self).spec_enabled() ==> {
                let key = latest_release_key_spec(owner@, repo@);
                let expires = (now + old(self).ttl()) as u64;
                &&& final(self).latest_release_mem().spec_get(key) matches Some(e) && e.expires_at
                    == expires && latest_release_eq(e.value, release)
                &&& final(self).shadow_latest_release_map().spec_get(key) matches Some(e)
                    && e.expires_at == expires && latest_release_eq(e.value, release)
                &&& forall|k: Seq<char>|
                    k != key ==> (#[trigger] final(self).latest_release_mem().spec_get(k) == old(self).latest_release_mem().spec_get(k) || final(self).latest_release_mem().spec_get(k) is None)
                &&& forall|k: Seq<char>|
                    k != key ==> (#[trigger] final(self).shadow_latest_release_map().spec_get(k)
                        == old(self).shadow_latest_release_map().spec_get(k) || final(self).shadow_latest_release_map().spec_get(k) is None)
            },
    {
        if self.is_enabled() {
            let key = fingerprint::latest_release_key(owner, repo);
            let expires_at = now + self.config.ttl_seconds;
            let shadow_entry = CachedEntry { value: release.clone(), expires_at };
            self.latest_release_cache.insert(
                key.clone(),
                CachedEntry { value: release, expires_at },
            );
            self.shadow_latest_release.insert(key, shadow_entry);
        }
    }
}

/// Whether some entry of `dir` reads `p`.
pub open spec fn str_in(dir: Seq<String>, p: Seq<char>) -> bool {
    exists|i: int| 0 <= i < dir.len() && dir[i]@ == p
}

/// Whether some candidate triple of `cands` carries path `p`.
pub open spec fn path_among(cands: Seq<(String, String, u64)>, p: Seq<char>) -> bool {
    exists|i: int| 0 <= i < cands.len() && cands[i].0@ == p
}

/// Descending order by last access time.
pub open spec fn sorted_by_access_desc(s: Seq<(String, String, u64)>) -> bool {
    forall|a: int, b: int| 0 <= a < b < s.len() ==> s[a].2 >= s[b].2
}

fn contains_path(v: &Vec<String>, p: &String) -> (r: bool)
    ensures
        r == str_in(v@, p@),
{
    let n = v.len();
    let mut i: usize = 0;
    while i < n
        invariant
            n == v@.len(),
            i <= n,
            forall|j: int| 0 <= j < i ==> v@[j]@ != p@,
        decreases n - i,
    {
        if v[i] == *p {
            return true;
        }
        i += 1;
    }
    false
}

/// Sorts candidate triples by last access time, most recent first. The
/// output is a permutation of the input.
fn sort_by_access_desc_exec(input: Vec<(String, String, u64)>) -> (out: Vec<(String, String, u64)>)
    ensures
        out@.to_multiset() == input@.to_multiset(),
        out@.len() == input@.len(),
        sorted_by_access_desc(out@),
        forall|j: int| 0 <= j < out@.len() ==> input@.contains(#[trigger] out@[j]),
        forall|j: int| 0 <= j < input@.len() ==> out@.contains(#[trigger] input@[j]),
{
    broadcast use vstd::seq_lib::group_to_multiset_ensures;

    let mut work = input;
    let ghost orig = work@;
    let mut out: Vec<(String, String, u64)> = Vec::new();
    while work.len() > 0
        invariant
            out@.to_multiset().add(work@.to_multiset()) =~= orig.to_multiset(),
            sorted_by_access_desc(out@),
            forall|a: int, b: int|
                0 <= a < out@.len() && 0 <= b < work@.len() ==> out@[a].2 >= work@[b].2,
        decreases work@.len(),
    {
        let mut imax: usize = 0;
        let mut j: usize = 1;
        while j < work.len()
            invariant
                work@.len() > 0,
                imax < j,
                j <= work@.len(),
                forall|t: int| 0 <= t < j ==> work@[imax as int].2 >= work@[t].2,
            decreases work@.len() - j,
        {
            if work[j].2 > work[imax].2 {
                imax = j;
            }
            j += 1;
        }
        let ghost w_before = work@;
        let x = work.remove(imax);
        proof {
            broadcast use vstd::seq_lib::group_to_multiset_ensures;

            w_before.remove_ensures(imax as int);
            assert(w_before.remove(imax as int).to_multiset() =~= w_before.to_multiset().remove(
                x,
            ));
            assert(out@.push(x).to_multiset() =~= out@.to_multiset().insert(x));
            assert(out@.push(x).to_multiset().add(work@.to_multiset()) =~= orig.to_multiset());
        }
        out.push(x);
    }
    proof {
        broadcast use vstd::seq_lib::group_to_multiset_ensures;

        assert(work@.to_multiset() =~= Multiset::empty());
        assert(out@.to_multiset() =~= orig.to_multiset());
        assert(out@.len() == out@.to_multiset().len());
        assert(orig.len() == orig.to_multiset().len());
        assert forall|j: int| 0 <= j < out@.len() implies orig.contains(#[trigger] out@[j]) by {
            assert(out@.contains(out@[j]));
            assert(out@.to_multiset().count(out@[j]) > 0);
        }
        assert forall|j: int| 0 <= j < orig.len() implies out@.contains(#[trigger] orig[j]) by {
            assert(orig.contains(orig[j]));
            assert(orig.to_multiset().count(orig[j]) > 0);
        }
    }
    out
}

impl CacheManager {
    /// The blob descriptor entry a file path leads to through the reverse
    /// index.
    pub open spec fn blob_entry_of(self, p: Seq<char>) -> Option<CachedEntry<FileCacheMetadata>> {
        match self.path_index().spec_get(p) {
            Some(ke) => self.file_cache_map().spec_get(ke.value@),
            None => None,
        }
    }

    /// A cleanup candidate: a listed file whose reverse-index row leads to a
    /// live descriptor whose own file still exists in the listing.
    pub open spec fn blob_candidate(self, dir: Seq<String>, p: Seq<char>, now: u64) -> bool {
        &&& str_in(dir, p)
        &&& self.blob_entry_of(p) matches Some(e) && e.expires_at > now && str_in(
            dir,
            e.value.file_path@,
        )
    }

    /// The last access time a path's descriptor records.
    pub open spec fn blob_last_access(self, p: Seq<char>) -> u64 {
        match self.blob_entry_of(p) {
            Some(e) => e.value.last_accessed_at,
            None => 0,
        }
    }

    /// How many of the first `upto` directory entries are cleanup
    /// candidates.
    pub open spec fn candidate_count(self, dir: Seq<String>, upto: int, now: u64) -> nat
        decreases upto,
    {
        if upto <= 0 {
            0
        } else {
            self.candidate_count(dir, upto - 1, now) + if self.blob_candidate(
                dir,
                dir[upto - 1]@,
                now,
            ) {
                1nat
            } else {
                0nat
            }
        }
    }

    /// Whether `k` is the fingerprint some doomed path maps to.
    pub open spec fn key_of_doomed(self, doomed: Seq<String>, k: Seq<char>) -> bool {
        exists|i: int|
            0 <= i < doomed.len() && (self.path_index().spec_get((#[trigger] doomed[i])@)
                matches Some(ke) && ke.value@ == k)
    }

    /// The file path the descriptor under `url` points at, if one is
    /// stored, live or not: what a caller checks on disk before committing
    /// to a blob hit.
    pub fn peek_file_path(&self, url: &str) -> (r: Option<String>)
        requires
            self.wf(),
        ensures
            match self.file_cache_map().spec_get(file_cache_key_spec(url@)) {
                Some(e) => r matches Some(p) && p@ == e.value.file_path@,
                None => r is None,
            },
    {
        let key = fingerprint::file_cache_key(url);
        match self.file_cache.find(key.as_str()) {
            Some(e) => Some(e.value.file_path.clone()),
            None => None,
        }
    }

    /// Returns the blob descriptor for `url` and refreshes its last access
    /// time, provided caching is enabled, the descriptor is present and
    /// live, and the caller found its file on disk (`file_exists`). On any
    /// miss the state is left untouched, a stale descriptor included.
    pub fn get_file_cache(&mut self, url: &str, now: u64, file_exists: bool) -> (r: Option<
        FileCacheMetadata,
    >)
        requires
            old(self).wf(),
        ensures
            final(self).wf(),
            final(self).same_shape(*old(self)),
            final(self).repo_info_mem() == old(self).repo_info_mem(),
            final(self).releases_mem() == old(self).releases_mem(),
            final(self).latest_release_mem() == old(self).latest_release_mem(),
            final(self).shadow_repo_info_map() == old(self).shadow_repo_info_map(),
            final(self).shadow_releases_map() == old(self).shadow_releases_map(),
            final(self).shadow_latest_release_map() == old(self).shadow_latest_release_map(),
            final(self).path_index() == old(self).path_index(),
            r is None ==> *final(self) == *old(self),
            (r is Some) <==> (old(self).spec_enabled() && file_exists && (old(self).file_cache_map().spec_get(file_cache_key_spec(url@)) matches Some(e) && e.expires_at
                > now)),
            r matches Some(md) ==> (old(self).file_cache_map().spec_get(file_cache_key_spec(url@))
                matches Some(e) && md.url == e.value.url && md.file_path == e.value.file_path
                && md.original_filename == e.value.original_filename && md.content_type
                == e.value.content_type && md.expires_at == e.value.expires_at
                && md.last_accessed_at == now && final(self).file_cache_map().spec_get(
                file_cache_key_spec(url@),
            ) == Some(CachedEntry { value: md, expires_at: e.expires_at })),
            r is Some ==> forall|k: Seq<char>|
                k != file_cache_key_spec(url@) ==> #[trigger] final(self).file_cache_map().spec_get(
                    k,
                ) == old(self).file_cache_map().spec_get(k),
    {
        if !self.is_enabled() {
            return None;
        }
        let key = fingerprint::file_cache_key(url);
        let found: Option<(FileCacheMetadata, u64)> = match self.file_cache.find(key.as_str()) {
            Some(e) => {
                if file_exists && e.expires_at > now {
                    let mut md = e.value.clone();
                    md.last_accessed_at = now;
                    Some((md, e.expires_at))
                } else {
                    None
                }
            },
            None => None,
        };
        match found {
            Some((md, entry_expires)) => {
                self.file_cache.insert(
                    key,
                    CachedEntry { value: md.clone(), expires_at: entry_expires },
                );
                Some(md)
            },
            None => None,
        }
    }

    /// Registers a blob: stores its descriptor under the URL's fingerprint,
    /// expiring `ttl` from `now` and last accessed `now`, and records the
    /// reverse path-to-fingerprint row. A no-op when disabled. Callers
    /// follow a successful registration with `cleanup_file_cache`.
    pub fn set_file_cache(
        &mut self,
        url: &str,
        file_path: String,
        original_filename: String,
        content_type: Option<String>,
        now: u64,
    )
        requires
            old(self).wf(),
            now + old(self).ttl() <= u64::MAX,
        ensures
            final(self).wf(),
            final(self).same_shape(*old(self)),
            final(self).repo_info_mem() == old(self).repo_info_mem(),
            final(self).releases_mem() == old(self).releases_mem(),
            final(self).latest_release_mem() == old(self).latest_release_mem(),
            final(self).shadow_repo_info_map() == old(self).shadow_repo_info_map(),
            final(self).shadow_releases_map() == old(self).shadow_releases_map(),
            final(self).shadow_latest_release_map() == old(self).shadow_latest_release_map(),
            !old(self).spec_enabled() ==> *final(self) == *old(self),
            old(self).spec_enabled() ==> {
                let key = file_cache_key_spec(url@);
                let expires = (now + old(self).ttl()) as u64;
                &&& final(self).file_cache_map().spec_get(key) matches Some(e) && e.expires_at
                    == expires && e.value.url@ == url@ && e.value.file_path == file_path
                    && e.value.original_filename == original_filename && e.value.content_type
                    == content_type && e.value.expires_at == expires && e.value.last_accessed_at
                    == now
                &&& final(self).path_index().spec_get(file_path@) matches Some(pe) && pe.value@
                    == key
                &&& forall|k: Seq<char>|
                    k != key ==> (#[trigger] final(self).file_cache_map().spec_get(k) == old(self).file_cache_map().spec_get(k) || final(self).file_cache_map().spec_get(k)
                        is None)
                &&& forall|p: Seq<char>|
                    p != file_path@ ==> (#[trigger] final(self).path_index().spec_get(p) == old(self).path_index().spec_get(p) || final(self).path_index().spec_get(p) is None)
            },
    {
        if self.is_enabled() {
            let key = fingerprint::file_cache_key(url);
            let expires_at = now + self.config.ttl_seconds;
            let metadata = FileCacheMetadata {
                url: String::from_str(url),
                file_path: file_path.clone(),
                original_filename,
                content_type,
                expires_at,
                last_accessed_at: now,
            };
            self.file_cache.insert(key.clone(), CachedEntry { value: metadata, expires_at });
            self.file_path_to_key.insert(
                file_path,
                CachedEntry { value: key, expires_at: u64::MAX },
            );
        }
    }
}

impl CacheManager {
    /// The live repository-info entries of the shadow at `now`, borrowed:
    /// what the periodic snapshot writes out for that kind.
    pub fn snapshot_repo_info(&self, now: u64) -> (out: Vec<(&String, &CachedEntry<RepoInfo>)>)
        requires
            self.wf(),
        ensures
            out@.len() == self.shadow_repo_info_map().entries_seq().filter(
                crate::ttl_map::live_pred(now),
            ).len(),
            forall|j: int|
                0 <= j < out@.len() ==> (*(#[trigger] out@[j]).0, *out@[j].1)
                    == self.shadow_repo_info_map().entries_seq().filter(
                    crate::ttl_map::live_pred(now),
                )[j],
            forall|i: int, j: int|
                0 <= i < j < out@.len() ==> (*(#[trigger] out@[i]).0)@ != (*(
                #[trigger] out@[j]).0)@,
    {
        self.shadow_repo_info.live_entries(now)
    }

    /// The live release-list entries of the shadow at `now`, borrowed.
    pub fn snapshot_releases(&self, now: u64) -> (out: Vec<
        (&String, &CachedEntry<Vec<ReleaseInfo>>),
    >)
        requires
            self.wf(),
        ensures
            out@.len() == self.shadow_releases_map().entries_seq().filter(
                crate::ttl_map::live_pred(now),
            ).len(),
            forall|j: int|
                0 <= j < out@.len() ==> (*(#[trigger] out@[j]).0, *out@[j].1)
                    == self.shadow_releases_map().entries_seq().filter(
                    crate::ttl_map::live_pred(now),
                )[j],
            forall|i: int, j: int|
                0 <= i < j < out@.len() ==> (*(#[trigger] out@[i]).0)@ != (*(
                #[trigger] out@[j]).0)@,
    {
        self.shadow_releases.live_entries(now)
    }

    /// The live latest-release entries of the shadow at `now`, borrowed.
    pub fn snapshot_latest_release(&self, now: u64) -> (out: Vec<
        (&String, &CachedEntry<LatestReleaseInfo>),
    >)
        requires
            self.wf(),
        ensures
            out@.len() == self.shadow_latest_release_map().entries_seq().filter(
                crate::ttl_map::live_pred(now),
            ).len(),
            forall|j: int|
                0 <= j < out@.len() ==> (*(#[trigger] out@[j]).0, *out@[j].1)
                    == self.shadow_latest_release_map().entries_seq().filter(
                    crate::ttl_map::live_pred(now),
                )[j],
            forall|i: int, j: int|
                0 <= i < j < out@.len() ==> (*(#[trigger] out@[i]).0)@ != (*(
                #[trigger] out@[j]).0)@,
    {
        self.shadow_latest_release.live_entries(now)
    }

    /// Loads repository-info snapshot entries into a fresh manager: each
    /// entry still live at `now` enters the in-memory store and the shadow;
    /// expired ones are dropped. A no-op when disabled.
    pub fn load_repo_info(&mut self, entries: Vec<(String, CachedEntry<RepoInfo>)>, now: u64)
        requires
            old(self).wf(),
            keys_unique(entries@),
            entries@.len() <= METADATA_CACHE_CAPACITY,
            forall|k: Seq<char>| #[trigger] old(self).repo_info_mem().spec_get(k) is None,
            forall|k: Seq<char>| #[trigger] old(self).shadow_repo_info_map().spec_get(k) is None,
            old(self).repo_info_mem().entries_seq().len() == 0,
            old(self).shadow_repo_info_map().entries_seq().len() == 0,
        ensures
            final(self).wf(),
            final(self).same_shape(*old(self)),
            final(self).releases_mem() == old(self).releases_mem(),
            final(self).latest_release_mem() == old(self).latest_release_mem(),
            final(self).file_cache_map() == old(self).file_cache_map(),
            final(self).shadow_releases_map() == old(self).shadow_releases_map(),
            final(self).shadow_latest_release_map() == old(self).shadow_latest_release_map(),
            final(self).path_index() == old(self).path_index(),
            !old(self).spec_enabled() ==> *final(self) == *old(self),
            old(self).spec_enabled() ==> forall|k: Seq<char>|
                #[trigger] final(self).shadow_repo_info_map().spec_get(k)
                    == crate::ttl_map::live_seq_get(entries@, k, now),
            old(self).spec_enabled() ==> forall|k: Seq<char>|
                #[trigger] final(self).repo_info_mem().spec_get(k) == crate::ttl_map::live_seq_get(
                    entries@,
                    k,
                    now,
                ),
    {
        if !self.is_enabled() {
            return ;
        }
        let ghost all = entries@;
        let mut rest = entries;
        let n = rest.len();
        let mut i: usize = 0;
        proof {
            assert(rest@ =~= all.skip(0));
            assert forall|k: Seq<char>|
                #[trigger] self.shadow_repo_info_map().spec_get(k) == crate::ttl_map::live_seq_get(
                    all.take(0),
                    k,
                    now,
                ) by {
                crate::ttl_map::lemma_seq_get_some_iff(all.take(0), k);
            }
            assert forall|k: Seq<char>|
                #[trigger] self.repo_info_mem().spec_get(k) == crate::ttl_map::live_seq_get(
                    all.take(0),
                    k,
                    now,
                ) by {
                crate::ttl_map::lemma_seq_get_some_iff(all.take(0), k);
            }
        }
        while rest.len() > 0
            invariant
                self.wf(),
                self.same_shape(*old(self)),
                self.spec_enabled(),
                self.releases_mem() == old(self).releases_mem(),
                self.latest_release_mem() == old(self).latest_release_mem(),
                self.file_cache_map() == old(self).file_cache_map(),
                self.shadow_releases_map() == old(self).shadow_releases_map(),
                self.shadow_latest_release_map() == old(self).shadow_latest_release_map(),
                self.path_index() == old(self).path_index(),
                n == all.len(),
                i + rest@.len() == n,
                rest@ =~= all.skip(i as int),
                keys_unique(all),
                all.len() <= METADATA_CACHE_CAPACITY,
                self.repo_info_mem().entries_seq().len() <= i,
                self.shadow_repo_info_map().entries_seq().len() <= i,
                forall|k: Seq<char>|
                    #[trigger] self.shadow_repo_info_map().spec_get(k)
                        == crate::ttl_map::live_seq_get(all.take(i as int), k, now),
                forall|k: Seq<char>|
                    #[trigger] self.repo_info_mem().spec_get(k) == crate::ttl_map::live_seq_get(
                        all.take(i as int),
                        k,
                        now,
                    ),
            decreases rest@.len(),
        {
            let (key, entry) = rest.remove(0);
            proof {
                assert((key, entry) == all[i as int]);
                assert(rest@ =~= all.skip(i as int + 1));
                assert(all.take(i as int + 1).drop_last() =~= all.take(i as int));
                assert(all.take(i as int + 1).last() == all[i as int]);
                assert forall|k: Seq<char>|
                    crate::ttl_map::seq_get(all.take(i as int + 1), k) == (if key@ == k {
                        Some(entry)
                    } else {
                        crate::ttl_map::seq_get(all.take(i as int), k)
                    }) by {
                    crate::ttl_map::lemma_seq_get_push(all.take(i as int), all[i as int], k);
                }
                // a fresh key: nothing of the prefix is shadowed
                crate::ttl_map::lemma_seq_get_some_iff(all.take(i as int), key@);
                assert forall|j: int| 0 <= j < i implies all.take(i as int)[j].0@ != key@ by {
                    assert(all[j].0@ != all[i as int].0@);
                }
            }
            if entry.expires_at > now {
                let shadow_entry = CachedEntry {
                    value: entry.value.clone(),
                    expires_at: entry.expires_at,
                };
                self.repo_info_cache.insert(key.clone(), shadow_entry);
                self.shadow_repo_info.insert(key, entry);
            }
            i += 1;
        }
        proof {
            assert(all.take(n as int) =~= all);
        }
    }
}

impl CacheManager {
    /// Loads release-list snapshot entries into a fresh manager: each entry
    /// still live at `now` enters the in-memory store and the shadow;
    /// expired ones are dropped. A no-op when disabled.
    pub fn load_releases(
        &mut self,
        entries: Vec<(String, CachedEntry<Vec<ReleaseInfo>>)>,
        now: u64,
    )
        requires
            old(self).wf(),
            keys_unique(entries@),
            entries@.len() <= METADATA_CACHE_CAPACITY,
            forall|k: Seq<char>| #[trigger] old(self).releases_mem().spec_get(k) is None,
            forall|k: Seq<char>| #[trigger] old(self).shadow_releases_map().spec_get(k) is None,
            old(self).releases_mem().entries_seq().len() == 0,
            old(self).shadow_releases_map().entries_seq().len() == 0,
        ensures
            final(self).wf(),
            final(self).same_shape(*old(self)),
            final(self).repo_info_mem() == old(self).repo_info_mem(),
            final(self).latest_release_mem() == old(self).latest_release_mem(),
            final(self).file_cache_map() == old(self).file_cache_map(),
            final(self).shadow_repo_info_map() == old(self).shadow_repo_info_map(),
            final(self).shadow_latest_release_map() == old(self).shadow_latest_release_map(),
            final(self).path_index() == old(self).path_index(),
            !old(self).spec_enabled() ==> *final(self) == *old(self),
            old(self).spec_enabled() ==> forall|k: Seq<char>|
                #[trigger] final(self).shadow_releases_map().spec_get(k)
                    == crate::ttl_map::live_seq_get(entries@, k, now),
            old(self).spec_enabled() ==> forall|k: Seq<char>|
                match crate::ttl_map::live_seq_get(entries@, k, now) {
                    Some(e) => #[trigger] final(self).releases_mem().spec_get(k) matches Some(me)
                        && me.expires_at == e.expires_at && releases_eq(me.value@, e.value@),
                    None => final(self).releases_mem().spec_get(k) is None,
                },
    {
        if !self.is_enabled() {
            return ;
        }
        let ghost all = entries@;
        let mut rest = entries;
        let n = rest.len();
        let mut i: usize = 0;
        proof {
            assert(rest@ =~= all.skip(0));
            assert forall|k: Seq<char>| #[trigger]
                crate::ttl_map::seq_get(all.take(0), k) is None by {
                crate::ttl_map::lemma_seq_get_some_iff(all.take(0), k);
            }
        }
        while rest.len() > 0
            invariant
                self.wf(),
                self.same_shape(*old(self)),
                self.spec_enabled(),
                self.repo_info_mem() == old(self).repo_info_mem(),
                self.latest_release_mem() == old(self).latest_release_mem(),
                self.file_cache_map() == old(self).file_cache_map(),
                self.shadow_repo_info_map() == old(self).shadow_repo_info_map(),
                self.shadow_latest_release_map() == old(self).shadow_latest_release_map(),
                self.path_index() == old(self).path_index(),
                n == all.len(),
                i + rest@.len() == n,
                rest@ =~= all.skip(i as int),
                keys_unique(all),
                all.len() <= METADATA_CACHE_CAPACITY,
                self.releases_mem().entries_seq().len() <= i,
                self.shadow_releases_map().entries_seq().len() <= i,
                forall|k: Seq<char>|
                    #[trigger] self.shadow_releases_map().spec_get(k)
                        == crate::ttl_map::live_seq_get(all.take(i as int), k, now),
                forall|k: Seq<char>|
                    match crate::ttl_map::live_seq_get(all.take(i as int), k, now) {
                        Some(e) => #[trigger] self.releases_mem().spec_get(k) matches Some(me)
                            && me.expires_at == e.expires_at && releases_eq(me.value@, e.value@),
                        None => self.releases_mem().spec_get(k) is None,
                    },
            decreases rest@.len(),
        {
            let (key, entry) = rest.remove(0);
            proof {
                assert((key, entry) == all[i as int]);
                assert(rest@ =~= all.skip(i as int + 1));
                assert(all.take(i as int + 1).drop_last() =~= all.take(i as int));
                assert(all.take(i as int + 1).last() == all[i as int]);
                assert forall|k: Seq<char>|
                    crate::ttl_map::seq_get(all.take(i as int + 1), k) == (if key@ == k {
                        Some(entry)
                    } else {
                        crate::ttl_map::seq_get(all.take(i as int), k)
                    }) by {
                    crate::ttl_map::lemma_seq_get_push(all.take(i as int), all[i as int], k);
                }
                crate::ttl_map::lemma_seq_get_some_iff(all.take(i as int), key@);
                assert forall|j: int| 0 <= j < i implies all.take(i as int)[j].0@ != key@ by {
                    assert(all[j].0@ != all[i as int].0@);
                }
            }
            if entry.expires_at > now {
                let mem_entry = CachedEntry {
                    value: crate::models::clone_releases(&entry.value),
                    expires_at: entry.expires_at,
                };
                self.releases_cache.insert(key.clone(), mem_entry);
                self.shadow_releases.insert(key, entry);
            }
            i += 1;
        }
        proof {
            assert(all.take(n as int) =~= all);
        }
    }

    /// Loads latest-release snapshot entries into a fresh manager: each
    /// entry still live at `now` enters the in-memory store and the shadow;
    /// expired ones are dropped. A no-op when disabled.
    pub fn load_latest_release(
        &mut self,
        entries: Vec<(String, CachedEntry<LatestReleaseInfo>)>,
        now: u64,
    )
        requires
            old(self).wf(),
            keys_unique(entries@),
            entries@.len() <= METADATA_CACHE_CAPACITY,
            forall|k: Seq<char>| #[trigger] old(self).latest_release_mem().spec_get(k) is None,
            forall|k: Seq<char>|
                #[trigger] old(self).shadow_latest_release_map().spec_get(k) is None,
            old(self).latest_release_mem().entries_seq().len() == 0,
            old(self).shadow_latest_release_map().entries_seq().len() == 0,
        ensures
            final(self).wf(),
            final(self).same_shape(*old(self)),
            final(self).repo_info_mem() == old(self).repo_info_mem(),
            final(self).releases_mem() == old(self).releases_mem(),
            final(self).file_cache_map() == old(self).file_cache_map(),
            final(self).shadow_repo_info_map() == old(self).shadow_repo_info_map(),
            final(self).shadow_releases_map() == old(self).shadow_releases_map(),
            final(self).path_index() == old(self).path_index(),
            !old(self).spec_enabled() ==> *final(self) == *old(self),
            old(self).spec_enabled() ==> forall|k: Seq<char>|
                #[trigger] final(self).shadow_latest_release_map().spec_get(k)
                    == crate::ttl_map::live_seq_get(entries@, k, now),
            old(self).spec_enabled() ==> forall|k: Seq<char>|
                match crate::ttl_map::live_seq_get(entries@, k, now) {
                    Some(e) => #[trigger] final(self).latest_release_mem().spec_get(k)
                        matches Some(me) && me.expires_at == e.expires_at && latest_release_eq(
                        me.value,
                        e.value,
                    ),
                    None => final(self).latest_release_mem().spec_get(k) is None,
                },
    {
        if !self.is_enabled() {
            return ;
        }
        let ghost all = entries@;
        let mut rest = entries;
        let n = rest.len();
        let mut i: usize = 0;
        proof {
            assert(rest@ =~= all.skip(0));
            assert forall|k: Seq<char>| #[trigger]
                crate::ttl_map::seq_get(all.take(0), k) is None by {
                crate::ttl_map::lemma_seq_get_some_iff(all.take(0), k);
            }
        }
        while rest.len() > 0
            invariant
                self.wf(),
                self.same_shape(*old(self)),
                self.spec_enabled(),
                self.repo_info_mem() == old(self).repo_info_mem(),
                self.releases_mem() == old(self).releases_mem(),
                self.file_cache_map() == old(self).file_cache_map(),
                self.shadow_repo_info_map() == old(self).shadow_repo_info_map(),
                self.shadow_releases_map() == old(self).shadow_releases_map(),
                self.path_index() == old(self).path_index(),
                n == all.len(),
                i + rest@.len() == n,
                rest@ =~= all.skip(i as int),
                keys_unique(all),
                all.len() <= METADATA_CACHE_CAPACITY,
                self.latest_release_mem().entries_seq().len() <= i,
                self.shadow_latest_release_map().entries_seq().len() <= i,
                forall|k: Seq<char>|
                    #[trigger] self.shadow_latest_release_map().spec_get(k)
                        == crate::ttl_map::live_seq_get(all.take(i as int), k, now),
                forall|k: Seq<char>|
                    match crate::ttl_map::live_seq_get(all.take(i as int), k, now) {
                        Some(e) => #[trigger] self.latest_release_mem().spec_get(k)
                            matches Some(me) && me.expires_at == e.expires_at && latest_release_eq(
                            me.value,
                            e.value,
                        ),
                        None => self.latest_release_mem().spec_get(k) is None,
                    },
            decreases rest@.len(),
        {
            let (key, entry) = rest.remove(0);
            proof {
                assert((key, entry) == all[i as int]);
                assert(rest@ =~= all.skip(i as int + 1));
                assert(all.take(i as int + 1).drop_last() =~= all.take(i as int));
                assert(all.take(i as int + 1).last() == all[i as int]);
                assert forall|k: Seq<char>|
                    crate::ttl_map::seq_get(all.take(i as int + 1), k) == (if key@ == k {
                        Some(entry)
                    } else {
                        crate::ttl_map::seq_get(all.take(i as int), k)
                    }) by {
                    crate::ttl_map::lemma_seq_get_push(all.take(i as int), all[i as int], k);
                }
                crate::ttl_map::lemma_seq_get_some_iff(all.take(i as int), key@);
                assert forall|j: int| 0 <= j < i implies all.take(i as int)[j].0@ != key@ by {
                    assert(all[j].0@ != all[i as int].0@);
                }
            }
            if entry.expires_at > now {
                let mem_entry = CachedEntry { value: entry.value.clone(), expires_at: entry.expires_at };
                self.latest_release_cache.insert(key.clone(), mem_entry);
                self.shadow_latest_release.insert(key, entry);
            }
            i += 1;
        }
        proof {
            assert(all.take(n as int) =~= all);
        }
    }
}

/// A recorded cleanup candidate: path, its fingerprint, and the last access
/// time its live descriptor records.
pub open spec fn cand_ok(
    m: CacheManager,
    dir: Seq<String>,
    now: u64,
    x: (String, String, u64),
) -> bool {
    &&& m.blob_candidate(dir, x.0@, now)
    &&& m.path_index().spec_get(x.0@) matches Some(ke) && ke.value@ == x.1@
    &&& x.2 == m.blob_last_access(x.0@)
}

impl CacheManager {
    /// Least-recently-used cleanup of the blob store. `dir_files` is the
    /// listing of the blob directory (each path once). Of the listed files
    /// whose reverse-index row leads to a live descriptor, the `max_files`
    /// most recently accessed are kept; the rows of the rest are removed
    /// from both the descriptor store and the reverse index, and their
    /// paths are returned for the caller to delete from disk. Listed files
    /// without a reverse-index row (orphans) are left alone.
    pub fn cleanup_file_cache(&mut self, max_files: usize, dir_files: &Vec<String>, now: u64) -> (doomed: Vec<String>)
        requires
            old(self).wf(),
            forall|i: int, j: int|
                0 <= i < j < dir_files@.len() ==> (#[trigger] dir_files@[i])@ != (
                #[trigger] dir_files@[j])@,
        ensures
            final(self).wf(),
            final(self).same_shape(*old(self)),
            final(self).repo_info_mem() == old(self).repo_info_mem(),
            final(self).releases_mem() == old(self).releases_mem(),
            final(self).latest_release_mem() == old(self).latest_release_mem(),
            final(self).shadow_repo_info_map() == old(self).shadow_repo_info_map(),
            final(self).shadow_releases_map() == old(self).shadow_releases_map(),
            final(self).shadow_latest_release_map() == old(self).shadow_latest_release_map(),
            !old(self).spec_enabled() ==> *final(self) == *old(self) && doomed@.len() == 0,
            old(self).spec_enabled() ==> {
                let total = old(self).candidate_count(dir_files@, dir_files@.len() as int, now);
                // how many go
                &&& doomed@.len() == if total <= max_files {
                    0nat
                } else {
                    (total - max_files) as nat
                }
                &&& total <= max_files ==> *final(self) == *old(self)
                // each doomed path was a distinct live candidate, now scrubbed
                // from both maps
                &&& forall|i: int|
                    0 <= i < doomed@.len() ==> old(self).blob_candidate(
                        dir_files@,
                        (#[trigger] doomed@[i])@,
                        now,
                    )
                &&& forall|i: int|
                    0 <= i < doomed@.len() ==> final(self).path_index().spec_get(
                        (#[trigger] doomed@[i])@,
                    ) is None
                &&& forall|i: int|
                    0 <= i < doomed@.len() ==> (old(self).path_index().spec_get(
                        (#[trigger] doomed@[i])@,
                    ) matches Some(ke) && final(self).file_cache_map().spec_get(ke.value@) is None)
                &&& forall|i: int, j: int|
                    0 <= i < j < doomed@.len() ==> (#[trigger] doomed@[i])@ != (
                    #[trigger] doomed@[j])@
                // everything else keeps its rows
                &&& forall|p: Seq<char>|
                    !str_in(doomed@, p) ==> #[trigger] final(self).path_index().spec_get(p) == old(self).path_index().spec_get(p)
                &&& forall|k: Seq<char>|
                    !old(self).key_of_doomed(doomed@, k) ==> #[trigger] final(self).file_cache_map().spec_get(k) == old(self).file_cache_map().spec_get(k)
                // the kept candidates dominate the doomed: cleanup keeps the
                // most recently accessed
                &&& forall|p: Seq<char>, q: Seq<char>|
                    #![trigger old(self).blob_last_access(p), old(self).blob_last_access(q)]
                    old(self).blob_candidate(dir_files@, p, now) && !str_in(doomed@, p) && str_in(
                        doomed@,
                        q,
                    ) && old(self).blob_candidate(dir_files@, q, now) ==> old(self).blob_last_access(p) >= old(self).blob_last_access(q)
            },
    {
        let mut doomed: Vec<String> = Vec::new();
        if !self.is_enabled() {
            return doomed;
        }
        let ghost m0 = *self;

        // Collect the live candidates among the listed files.
        let mut cands: Vec<(String, String, u64)> = Vec::new();
        let n = dir_files.len();
        let mut i: usize = 0;
        while i < n
            invariant
                *self == m0,
                m0.wf(),
                n == dir_files@.len(),
                i <= n,
                forall|a: int, b: int|
                    0 <= a < b < dir_files@.len() ==> (#[trigger] dir_files@[a])@ != (
                    #[trigger] dir_files@[b])@,
                cands@.len() == m0.candidate_count(dir_files@, i as int, now),
                forall|j: int| 0 <= j < cands@.len() ==> cand_ok(m0, dir_files@, now, #[trigger] cands@[j]),
                forall|j: int|
                    0 <= j < cands@.len() ==> exists|t: int|
                        0 <= t < i && (#[trigger] cands@[j]).0@ == (#[trigger] dir_files@[t])@,
                forall|t: int|
                    0 <= t < i && m0.blob_candidate(dir_files@, (#[trigger] dir_files@[t])@, now)
                        ==> path_among(cands@, dir_files@[t]@),
                forall|j1: int, j2: int|
                    0 <= j1 < j2 < cands@.len() ==> (#[trigger] cands@[j1]).0@ != (
                    #[trigger] cands@[j2]).0@,
            decreases n - i,
        {
            let p = &dir_files[i];
            let ghost cands_before = cands@;
            let mut added: bool = false;
            match self.file_path_to_key.find(p.as_str()) {
                Some(ke) => {
                    match self.file_cache.find(ke.value.as_str()) {
                        Some(e) => {
                            if e.expires_at > now && contains_path(dir_files, &e.value.file_path) {
                                cands.push((p.clone(), ke.value.clone(), e.value.last_accessed_at));
                                added = true;
                            }
                        },
                        None => {},
                    }
                },
                None => {},
            }
            proof {
                assert(str_in(dir_files@, dir_files@[i as int]@));
                assert(added == m0.blob_candidate(dir_files@, dir_files@[i as int]@, now));
                if added {
                    assert(cands@ == cands_before.push(cands@.last()));
                    assert(cands@.last().0@ == dir_files@[i as int]@);
                    assert forall|j1: int, j2: int|
                        0 <= j1 < j2 < cands@.len() implies (#[trigger] cands@[j1]).0@ != (
                    #[trigger] cands@[j2]).0@ by {
                        if j2 == cands@.len() - 1 {
                            let t = choose|t: int|
                                0 <= t < i && (#[trigger] cands@[j1]).0@ == (
                                #[trigger] dir_files@[t])@;
                            assert(dir_files@[t]@ != dir_files@[i as int]@);
                        }
                    }
                }
                assert forall|t: int|
                    0 <= t < i + 1 && m0.blob_candidate(
                        dir_files@,
                        (#[trigger] dir_files@[t])@,
                        now,
                    ) implies path_among(cands@, dir_files@[t]@) by {
                    if t < i {
                        assert(path_among(cands_before, dir_files@[t]@));
                        let j = choose|j: int|
                            0 <= j < cands_before.len() && (#[trigger] cands_before[j]).0@
                                == dir_files@[t]@;
                        assert(cands@[j].0@ == dir_files@[t]@);
                    } else {
                        assert(cands@[cands@.len() - 1].0@ == dir_files@[t]@);
                    }
                }
            }
            i += 1;
        }

        // Keep the most recently accessed `max_files`; scrub the rest.
        let ghost cands_g = cands@;
        let sorted = sort_by_access_desc_exec(cands);
        let ghost cands0 = sorted@;
        proof {
            assert(cands_g.len() == m0.candidate_count(dir_files@, dir_files@.len() as int, now));
            // every sorted triple is a recorded candidate
            assert forall|j: int|
                0 <= j < cands0.len() implies cand_ok(m0, dir_files@, now, #[trigger] cands0[j]) by {
                assert(cands_g.contains(cands0[j]));
                let a = choose|a: int| 0 <= a < cands_g.len() && cands_g[a] == cands0[j];
                assert(cand_ok(m0, dir_files@, now, cands_g[a]));
            }
            // completeness carries over to the sorted list
            assert forall|t: int|
                0 <= t < dir_files@.len() && m0.blob_candidate(
                    dir_files@,
                    (#[trigger] dir_files@[t])@,
                    now,
                ) implies path_among(cands0, dir_files@[t]@) by {
                assert(path_among(cands_g, dir_files@[t]@));
                let a = choose|a: int|
                    0 <= a < cands_g.len() && (#[trigger] cands_g[a]).0@ == dir_files@[t]@;
                assert(cands0.contains(cands_g[a]));
                let b = choose|b: int| 0 <= b < cands0.len() && cands0[b] == cands_g[a];
                assert(cands0[b].0@ == dir_files@[t]@);
            }
            // distinct paths carry over: the sort is a permutation and the
            // collected triples have pairwise distinct paths
            assert(cands_g.no_duplicates()) by {
                assert forall|a: int, b: int|
                    0 <= a < cands_g.len() && 0 <= b < cands_g.len() && a != b implies cands_g[a]
                    != cands_g[b] by {
                    if a < b {
                        assert(cands_g[a].0@ != cands_g[b].0@);
                    } else {
                        assert(cands_g[b].0@ != cands_g[a].0@);
                    }
                }
            }
            cands_g.lemma_multiset_has_no_duplicates();
            cands0.lemma_multiset_has_no_duplicates_conv();
            assert forall|j1: int, j2: int|
                0 <= j1 < j2 < cands0.len() implies (#[trigger] cands0[j1]).0@ != (
            #[trigger] cands0[j2]).0@ by {
                if cands0[j1].0@ == cands0[j2].0@ {
                    assert(cands0[j1] != cands0[j2]);
                    assert(cands_g.contains(cands0[j1]));
                    assert(cands_g.contains(cands0[j2]));
                    let a1 = choose|a1: int| 0 <= a1 < cands_g.len() && cands_g[a1] == cands0[j1];
                    let a2 = choose|a2: int| 0 <= a2 < cands_g.len() && cands_g[a2] == cands0[j2];
                    assert(a1 != a2);
                    if a1 < a2 {
                        assert(cands_g[a1].0@ != cands_g[a2].0@);
                    } else {
                        assert(cands_g[a2].0@ != cands_g[a1].0@);
                    }
                }
            }
        }
        if sorted.len() <= max_files {
            return doomed;
        }
        let total = sorted.len();
        let mut idx: usize = max_files;
        while idx < total
            invariant
                self.wf(),
                self.same_shape(m0),
                self.repo_info_mem() == m0.repo_info_mem(),
                self.releases_mem() == m0.releases_mem(),
                self.latest_release_mem() == m0.latest_release_mem(),
                self.shadow_repo_info_map() == m0.shadow_repo_info_map(),
                self.shadow_releases_map() == m0.shadow_releases_map(),
                self.shadow_latest_release_map() == m0.shadow_latest_release_map(),
                sorted@ == cands0,
                total == sorted@.len(),
                max_files <= idx <= total,
                forall|j: int| 0 <= j < cands0.len() ==> cand_ok(m0, dir_files@, now, #[trigger] cands0[j]),
                forall|j1: int, j2: int|
                    0 <= j1 < j2 < cands0.len() ==> (#[trigger] cands0[j1]).0@ != (
                    #[trigger] cands0[j2]).0@,
                doomed@.len() == idx - max_files,
                forall|t: int|
                    max_files <= t < idx ==> (#[trigger] cands0[t]).0@ == doomed@[t - max_files]@,
                forall|t: int|
                    0 <= t < doomed@.len() ==> self.path_index().spec_get(
                        (#[trigger] doomed@[t])@,
                    ) is None,
                forall|t: int|
                    0 <= t < doomed@.len() ==> (m0.path_index().spec_get((#[trigger] doomed@[t])@)
                        matches Some(ke) && self.file_cache_map().spec_get(ke.value@) is None),
                forall|p: Seq<char>|
                    !str_in(doomed@, p) ==> #[trigger] self.path_index().spec_get(p)
                        == m0.path_index().spec_get(p),
                forall|k: Seq<char>|
                    !m0.key_of_doomed(doomed@, k) ==> #[trigger] self.file_cache_map().spec_get(k)
                        == m0.file_cache_map().spec_get(k),
            decreases total - idx,
        {
            let entry = &sorted[idx];
            let p = entry.0.clone();
            let key = entry.1.clone();
            let ghost doomed_before = doomed@;
            let ghost self_before = *self;
            proof {
                assert(cand_ok(m0, dir_files@, now, cands0[idx as int]));
                assert(!str_in(doomed_before, p@)) by {
                    if str_in(doomed_before, p@) {
                        let t = choose|t: int|
                            0 <= t < doomed_before.len() && (#[trigger] doomed_before[t])@ == p@;
                        assert(cands0[max_files + t].0@ == p@);
                        assert(cands0[max_files + t].0@ != cands0[idx as int].0@);
                    }
                }
                // the reverse row for `p` is still the original one
                assert(self.path_index().spec_get(p@) == m0.path_index().spec_get(p@));
                assert(m0.path_index().spec_get(p@) matches Some(ke) && ke.value@ == key@);
            }
            self.file_path_to_key.remove(p.as_str());
            self.file_cache.remove(key.as_str());
            doomed.push(p);
            proof {
                assert(doomed@ == doomed_before.push(doomed@.last()));
                assert forall|pp: Seq<char>| !str_in(doomed@, pp) implies #[trigger] self.path_index().spec_get(pp)
                    == m0.path_index().spec_get(pp) by {
                    assert(!str_in(doomed_before, pp)) by {
                        if str_in(doomed_before, pp) {
                            let t = choose|t: int|
                                0 <= t < doomed_before.len() && (#[trigger] doomed_before[t])@
                                    == pp;
                            assert(doomed@[t]@ == pp);
                        }
                    }
                    assert(pp != doomed@.last()@) by {
                        assert(doomed@[doomed@.len() - 1] == doomed@.last());
                    }
                    assert(self_before.path_index().spec_get(pp) == m0.path_index().spec_get(pp));
                }
                assert forall|k: Seq<char>| !m0.key_of_doomed(doomed@, k) implies #[trigger] self.file_cache_map().spec_get(k)
                    == m0.file_cache_map().spec_get(k) by {
                    assert(!m0.key_of_doomed(doomed_before, k)) by {
                        if m0.key_of_doomed(doomed_before, k) {
                            let t = choose|t: int|
                                0 <= t < doomed_before.len() && (m0.path_index().spec_get(
                                    (#[trigger] doomed_before[t])@,
                                ) matches Some(ke) && ke.value@ == k);
                            assert(doomed@[t] == doomed_before[t]);
                        }
                    }
                    assert(k != key@) by {
                        assert(doomed@[doomed@.len() - 1]@ == doomed@.last()@);
                        if k == key@ {
                            assert(m0.key_of_doomed(doomed@, k));
                        }
                    }
                }
                assert forall|t: int|
                    0 <= t < doomed@.len() implies (m0.path_index().spec_get(
                    (#[trigger] doomed@[t])@,
                ) matches Some(ke) && self.file_cache_map().spec_get(ke.value@) is None) by {
                    if t < doomed@.len() - 1 {
                        assert(doomed@[t] == doomed_before[t]);
                        assert(m0.path_index().spec_get(doomed_before[t]@) matches Some(ke)
                            && self_before.file_cache_map().spec_get(ke.value@) is None);
                    }
                }
            }
            idx += 1;
        }
        proof {
            lemma_cleanup_summary(m0, *self, dir_files@, cands0, doomed@, max_files as int, now);
        }
        doomed
    }
}

/// Ties the sorted candidate list to the cleanup contract: counts,
/// dominance of the kept candidates over the doomed, and completeness.
proof fn lemma_cleanup_summary(
    m0: CacheManager,
    m1: CacheManager,
    dir: Seq<String>,
    cands: Seq<(String, String, u64)>,
    doomed: Seq<String>,
    max_files: int,
    now: u64,
)
    requires
        0 <= max_files < cands.len(),
        sorted_by_access_desc(cands),
        forall|j: int| 0 <= j < cands.len() ==> cand_ok(m0, dir, now, #[trigger] cands[j]),
        forall|j1: int, j2: int|
            0 <= j1 < j2 < cands.len() ==> (#[trigger] cands[j1]).0@ != (#[trigger] cands[j2]).0@,
        forall|t: int|
            0 <= t < dir.len() && m0.blob_candidate(dir, (#[trigger] dir[t])@, now) ==> path_among(
                cands,
                dir[t]@,
            ),
        doomed.len() == cands.len() - max_files,
        forall|t: int|
            max_files <= t < cands.len() ==> (#[trigger] cands[t]).0@ == doomed[t - max_files]@,
    ensures
        forall|i: int|
            0 <= i < doomed.len() ==> m0.blob_candidate(dir, (#[trigger] doomed[i])@, now),
        forall|i: int, j: int|
            0 <= i < j < doomed.len() ==> (#[trigger] doomed[i])@ != (#[trigger] doomed[j])@,
        forall|p: Seq<char>, q: Seq<char>|
            #![trigger m0.blob_last_access(p), m0.blob_last_access(q)]
            m0.blob_candidate(dir, p, now) && !str_in(doomed, p) && str_in(doomed, q)
                && m0.blob_candidate(dir, q, now) ==> m0.blob_last_access(p)
                >= m0.blob_last_access(q),
{
    assert forall|i: int|
        0 <= i < doomed.len() implies m0.blob_candidate(dir, (#[trigger] doomed[i])@, now) by {
        assert(cands[max_files + i].0@ == doomed[i]@);
        assert(cand_ok(m0, dir, now, cands[max_files + i]));
    }
    assert forall|i: int, j: int|
        0 <= i < j < doomed.len() implies (#[trigger] doomed[i])@ != (#[trigger] doomed[j])@ by {
        assert(cands[max_files + i].0@ == doomed[i]@);
        assert(cands[max_files + j].0@ == doomed[j]@);
    }
    assert forall|p: Seq<char>, q: Seq<char>|
        #![trigger m0.blob_last_access(p), m0.blob_last_access(q)]
        m0.blob_candidate(dir, p, now) && !str_in(doomed, p) && str_in(doomed, q)
            && m0.blob_candidate(dir, q, now) implies m0.blob_last_access(p)
        >= m0.blob_last_access(q) by {
        // p is a candidate, so it was collected; since it is not doomed it
        // sits in the kept prefix of the sorted list.
        let tp = choose|t: int| 0 <= t < dir.len() && dir[t]@ == p;
        assert(path_among(cands, p));
        let a = choose|a: int| 0 <= a < cands.len() && (#[trigger] cands[a]).0@ == p;
        assert(a < max_files) by {
            if a >= max_files {
                assert(doomed[a - max_files]@ == p);
                assert(str_in(doomed, p));
            }
        }
        // q is doomed, so it sits in the removed suffix.
        let b0 = choose|b0: int| 0 <= b0 < doomed.len() && (#[trigger] doomed[b0])@ == q;
        let b = max_files + b0;
        assert(cands[b].0@ == q);
        assert(cands[a].2 >= cands[b].2);
        assert(cand_ok(m0, dir, now, cands[a]));
        assert(cand_ok(m0, dir, now, cands[b]));
    }
}

/// TTL honesty: an entry written at `t0` expires at `t0 + ttl`, so a read
/// at any later `t1 > t0 + ttl` finds it dead and returns absent. The
/// hypothesis on the stored entry is exactly what `set_repo_info` at `t0`
/// ensures for its key.
pub proof fn lemma_ttl_honesty_repo_info(
    m: CacheManager,
    owner: Seq<char>,
    repo: Seq<char>,
    t0: u64,
    t1: u64,
)
    requires
        t0 + m.ttl() <= u64::MAX,
        m.repo_info_mem().spec_get(repo_info_key_spec(owner, repo)) matches Some(e) ==> e.expires_at
            == t0 + m.ttl(),
        t1 > t0 + m.ttl(),
    ensures
        m.spec_get_repo_info(owner, repo, t1) is None,
{
}

/// TTL honesty for release lists; see `lemma_ttl_honesty_repo_info`.
pub proof fn lemma_ttl_honesty_releases(
    m: CacheManager,
    owner: Seq<char>,
    repo: Seq<char>,
    t0: u64,
    t1: u64,
)
    requires
        t0 + m.ttl() <= u64::MAX,
        m.releases_mem().spec_get(releases_key_spec(owner, repo)) matches Some(e) ==> e.expires_at
            == t0 + m.ttl(),
        t1 > t0 + m.ttl(),
    ensures
        m.spec_get_releases(owner, repo, t1) is None,
{
}

/// TTL honesty for latest releases; see `lemma_ttl_honesty_repo_info`.
pub proof fn lemma_ttl_honesty_latest_release(
    m: CacheManager,
    owner: Seq<char>,
    repo: Seq<char>,
    t0: u64,
    t1: u64,
)
    requires
        t0 + m.ttl() <= u64::MAX,
        m.latest_release_mem().spec_get(latest_release_key_spec(owner, repo)) matches Some(e)
            ==> e.expires_at == t0 + m.ttl(),
        t1 > t0 + m.ttl(),
    ensures
        m.spec_get_latest_release(owner, repo, t1) is None,
{
}

/// Snapshot round-trip at the shadow: serializing keeps the entries live
/// at snapshot time `t0`, and loading at a later `t1` keeps what is still
/// live then — so under every fingerprint, of each kind, the loaded store
/// equals the original shadow restricted to its entries live at `t1`. The
/// round trip loses exactly the entries that expired in between.
pub proof fn lemma_snapshot_round_trip_shadow(m: CacheManager, t0: u64, t1: u64, k: Seq<char>)
    requires
        m.wf(),
        t0 <= t1,
    ensures
        crate::ttl_map::live_seq_get(
            m.shadow_repo_info_map().entries_seq().filter(crate::ttl_map::live_pred(t0)),
            k,
            t1,
        ) == crate::ttl_map::live_seq_get(m.shadow_repo_info_map().entries_seq(), k, t1),
        crate::ttl_map::live_seq_get(
            m.shadow_releases_map().entries_seq().filter(crate::ttl_map::live_pred(t0)),
            k,
            t1,
        ) == crate::ttl_map::live_seq_get(m.shadow_releases_map().entries_seq(), k, t1),
        crate::ttl_map::live_seq_get(
            m.shadow_latest_release_map().entries_seq().filter(crate::ttl_map::live_pred(t0)),
            k,
            t1,
        ) == crate::ttl_map::live_seq_get(m.shadow_latest_release_map().entries_seq(), k, t1),
{
    crate::ttl_map::lemma_snapshot_round_trip(m.shadow_repo_info_map().entries_seq(), t0, t1, k);
    crate::ttl_map::lemma_snapshot_round_trip(m.shadow_releases_map().entries_seq(), t0, t1, k);
    crate::ttl_map::lemma_snapshot_round_trip(
        m.shadow_latest_release_map().entries_seq(),
        t0,
        t1,
        k,
    );
}

/// Enabled-off opacity: while caching is disabled every read returns
/// absent, whatever the stores hold — and a disabled `set` leaves the
/// manager unchanged, so no sequence of `set`s can make a read succeed.
pub proof fn lemma_disabled_opaque(m: CacheManager, owner: Seq<char>, repo: Seq<char>, now: u64)
    requires
        !m.spec_enabled(),
    ensures
        m.spec_get_repo_info(owner, repo, now) is None,
        m.spec_get_releases(owner, repo, now) is None,
        m.spec_get_latest_release(owner, repo, now) is None,
{
}

} // verus!
