//! The decision cores of the request handlers: parsing `"owner/repo"`
//! slugs, choosing which record kinds a batch query asks for, and shaping
//! batch results. The HTTP framing and the upstream requests around them
//! live outside the library.

use vstd::prelude::*;
use crate::models::{HealthResponse, RepoInfo, ReleaseInfo, LatestReleaseInfo, RepoBatchResult};

verus! {

/// How many times `ch` occurs in `s`.
pub open spec fn count_char(s: Seq<char>, ch: char) -> int
    decreases s.len(),
{
    if s.len() == 0 {
        0
    } else {
        count_char(s.drop_last(), ch) + if s.last() == ch {
            1int
        } else {
            0int
        }
    }
}

/// A count of zero means no occurrence.
pub proof fn lemma_count_zero(s: Seq<char>, ch: char)
    ensures
        (count_char(s, ch) == 0) <==> (forall|i: int| 0 <= i < s.len() ==> s[i] != ch),
    decreases s.len(),
{
    if s.len() > 0 {
        lemma_count_zero(s.drop_last(), ch);
        assert(count_char(s.drop_last(), ch) >= 0) by {
            lemma_count_nonneg(s.drop_last(), ch);
        }
        if count_char(s, ch) == 0 {
            assert forall|i: int| 0 <= i < s.len() implies s[i] != ch by {
                if i < s.len() - 1 {
                    assert(s.drop_last()[i] == s[i]);
                }
            }
        } else {
            if forall|i: int| 0 <= i < s.len() ==> s[i] != ch {
                assert(s.last() != ch);
                assert forall|i: int| 0 <= i < s.drop_last().len() implies s.drop_last()[i]
                    != ch by {
                    assert(s[i] == s.drop_last()[i]);
                }
            }
        }
    }
}

/// Counts never go negative.
pub proof fn lemma_count_nonneg(s: Seq<char>, ch: char)
    ensures
        count_char(s, ch) >= 0,
    decreases s.len(),
{
    if s.len() > 0 {
        lemma_count_nonneg(s.drop_last(), ch);
    }
}

/// A valid repository slug: exactly one `/`, with a nonempty owner before
/// it and a nonempty name after it.
pub open spec fn valid_slug(s: Seq<char>) -> bool {
    &&& count_char(s, '/') == 1
    &&& s.len() >= 1
    &&& s.first() != '/'
    &&& s.last() != '/'
}

/// Splits a `"owner/repo"` slug into its owner and repository name.
/// Succeeds exactly on strings with a single `/` that neither leads nor
/// trails, and then returns the two nonempty, slash-free halves.
pub fn parse_repo(repo_str: &str) -> (r: Option<(String, String)>)
    ensures
        (r is Some) <==> valid_slug(repo_str@),
        r matches Some(pair) ==> pair.0@ + seq!['/'] + pair.1@ == repo_str@ && pair.0@.len() >= 1
            && pair.1@.len() >= 1 && count_char(pair.0@, '/') == 0 && count_char(pair.1@, '/')
            == 0,
{
    let n = repo_str.unicode_len();
    let mut slashes: usize = 0;
    let mut first_slash: usize = 0;
    let mut i: usize = 0;
    while i < n
        invariant
            n == repo_str@.len(),
            i <= n,
            slashes == count_char(repo_str@.take(i as int), '/'),
            slashes <= i,
            slashes > 0 ==> first_slash < i && repo_str@[first_slash as int] == '/',
        decreases n - i,
    {
        proof {
            assert(repo_str@.take(i as int + 1).drop_last() =~= repo_str@.take(i as int));
            assert(repo_str@.take(i as int + 1).last() == repo_str@[i as int]);
        }
        if repo_str.get_char(i) == '/' {
            if slashes == 0 {
                first_slash = i;
            }
            slashes += 1;
        }
        i += 1;
    }
    proof {
        assert(repo_str@.take(n as int) =~= repo_str@);
    }
    if slashes != 1 || first_slash == 0 || first_slash == n - 1 {
        proof {
            if slashes == 1 {
                if first_slash == 0 {
                    assert(repo_str@.first() == '/');
                }
                if first_slash == n - 1 {
                    assert(repo_str@.last() == '/');
                }
            }
        }
        return None;
    }
    let owner = repo_str.substring_char(0, first_slash);
    let name = repo_str.substring_char(first_slash + 1, n);
    proof {
        let s = repo_str@;
        let fs = first_slash as int;
        assert(owner@ + seq!['/'] + name@ =~= s);
        // a single slash leaves both halves slash-free
        assert forall|j: int| 0 <= j < s.len() && j != fs implies s[j] != '/' by {
            if s[j] == '/' {
                lemma_count_two(s, fs, j);
            }
        }
        assert(count_char(owner@, '/') == 0) by {
            lemma_count_zero(owner@, '/');
        }
        assert(count_char(name@, '/') == 0) by {
            lemma_count_zero(name@, '/');
        }
        assert(s.first() != '/');
        assert(s.last() != '/');
    }
    Some((String::from_str(owner), String::from_str(name)))
}

/// Two distinct occurrences force a count of at least two.
proof fn lemma_count_two(s: Seq<char>, i: int, j: int)
    requires
        0 <= i < s.len(),
        0 <= j < s.len(),
        i != j,
        s[i] == '/',
        s[j] == '/',
    ensures
        count_char(s, '/') >= 2,
    decreases s.len(),
{
    lemma_count_nonneg(s.drop_last(), '/');
    if i == s.len() - 1 || j == s.len() - 1 {
        let other = if i == s.len() - 1 {
            j
        } else {
            i
        };
        assert(s.drop_last()[other] == s[other]);
        lemma_count_one(s.drop_last(), other);
    } else {
        assert(s.drop_last()[i] == s[i]);
        assert(s.drop_last()[j] == s[j]);
        lemma_count_two(s.drop_last(), i, j);
    }
}

/// One occurrence forces a count of at least one.
proof fn lemma_count_one(s: Seq<char>, i: int)
    requires
        0 <= i < s.len(),
        s[i] == '/',
    ensures
        count_char(s, '/') >= 1,
    decreases s.len(),
{
    lemma_count_nonneg(s.drop_last(), '/');
    if i < s.len() - 1 {
        assert(s.drop_last()[i] == s[i]);
        lemma_count_one(s.drop_last(), i);
    }
}

/// Whether a batch query asks for a record kind: an empty field list asks
/// for everything.
pub open spec fn field_requested(fields: Seq<String>, name: Seq<char>) -> bool {
    fields.len() == 0 || exists|i: int| 0 <= i < fields.len() && (#[trigger] fields[i])@ == name
}

fn fields_contain(fields: &Vec<String>, name: &String) -> (r: bool)
    ensures
        r == exists|i: int| 0 <= i < fields@.len() && (#[trigger] fields@[i])@ == name@,
{
    let n = fields.len();
    let mut i: usize = 0;
    while i < n
        invariant
            n == fields@.len(),
            i <= n,
            forall|j: int| 0 <= j < i ==> (#[trigger] fields@[j])@ != name@,
        decreases n - i,
    {
        if fields[i] == *name {
            return true;
        }
        i += 1;
    }
    false
}

/// Which record kinds a batch query asks for: repository info, release
/// list, latest release — all three when the field list is empty.
pub fn fields_selected(fields: &Vec<String>) -> (r: (bool, bool, bool))
    ensures
        r.0 == field_requested(fields@, "repo_info"@),
        r.1 == field_requested(fields@, "releases"@),
        r.2 == field_requested(fields@, "latest_release"@),
{
    if fields.len() == 0 {
        return (true, true, true);
    }
    let want_repo_info = fields_contain(fields, &String::from_str("repo_info"));
    let want_releases = fields_contain(fields, &String::from_str("releases"));
    let want_latest = fields_contain(fields, &String::from_str("latest_release"));
    (want_repo_info, want_releases, want_latest)
}

/// The error text of a failed batch entry: the failed parts, joined by
/// `"; "`, built front to back.
pub open spec fn batch_error_msg(
    miss_repo_info: bool,
    miss_releases: bool,
    miss_latest: bool,
) -> Seq<char> {
    let first = if miss_repo_info {
        "\u{4ed3}\u{5e93}\u{4fe1}\u{606f}\u{83b7}\u{53d6}\u{5931}\u{8d25}"@
    } else {
        Seq::empty()
    };
    let second = if miss_releases {
        if first.len() > 0 {
            first + "; "@ + "releases \u{83b7}\u{53d6}\u{5931}\u{8d25}"@
        } else {
            "releases \u{83b7}\u{53d6}\u{5931}\u{8d25}"@
        }
    } else {
        first
    };
    if miss_latest {
        if second.len() > 0 {
            second + "; "@ + "\u{6700}\u{65b0} release \u{83b7}\u{53d6}\u{5931}\u{8d25}"@
        } else {
            "\u{6700}\u{65b0} release \u{83b7}\u{53d6}\u{5931}\u{8d25}"@
        }
    } else {
        second
    }
}

/// Shapes one repository's batch outcome: success exactly when every
/// requested kind was obtained, with the failed parts named in the error.
pub fn assemble_batch_result(
    repo_str: &str,
    want_repo_info: bool,
    want_releases: bool,
    want_latest: bool,
    repo_info: Option<RepoInfo>,
    releases: Option<Vec<ReleaseInfo>>,
    latest_release: Option<LatestReleaseInfo>,
) -> (r: RepoBatchResult)
    ensures
        r.repo@ == repo_str@,
        r.success == !((want_repo_info && repo_info is None) || (want_releases && releases is None)
            || (want_latest && latest_release is None)),
        (r.error is Some) <==> !r.success,
        r.error matches Some(m) ==> m@ == batch_error_msg(
            want_repo_info && repo_info is None,
            want_releases && releases is None,
            want_latest && latest_release is None,
        ),
        r.repo_info == repo_info,
        r.releases == releases,
        r.latest_release == latest_release,
{
    let miss_repo_info = want_repo_info && repo_info.is_none();
    let miss_releases = want_releases && releases.is_none();
    let miss_latest = want_latest && latest_release.is_none();
    let has_error = miss_repo_info || miss_releases || miss_latest;
    let error: Option<String> = if has_error {
        let mut msg = String::new();
        if miss_repo_info {
            msg.append("\u{4ed3}\u{5e93}\u{4fe1}\u{606f}\u{83b7}\u{53d6}\u{5931}\u{8d25}");
        }
        if miss_releases {
            if msg.as_str().unicode_len() > 0 {
                msg.append("; ");
            }
            msg.append("releases \u{83b7}\u{53d6}\u{5931}\u{8d25}");
        }
        if miss_latest {
            if msg.as_str().unicode_len() > 0 {
                msg.append("; ");
            }
            msg.append("\u{6700}\u{65b0} release \u{83b7}\u{53d6}\u{5931}\u{8d25}");
        }
        proof {
            reveal_strlit("\u{4ed3}\u{5e93}\u{4fe1}\u{606f}\u{83b7}\u{53d6}\u{5931}\u{8d25}");
            reveal_strlit("releases \u{83b7}\u{53d6}\u{5931}\u{8d25}");
            reveal_strlit("\u{6700}\u{65b0} release \u{83b7}\u{53d6}\u{5931}\u{8d25}");
            assert(msg@ =~= batch_error_msg(miss_repo_info, miss_releases, miss_latest));
        }
        Some(msg)
    } else {
        None
    };
    RepoBatchResult {
        repo: String::from_str(repo_str),
        success: !has_error,
        error,
        repo_info,
        releases,
        latest_release,
    }
}

/// The outcome of a batch entry whose slug could not be parsed.
pub fn invalid_repo_result(repo_str: &str) -> (r: RepoBatchResult)
    ensures
        r.repo@ == repo_str@,
        !r.success,
        r.error matches Some(m) && m@
            == "\u{4ed3}\u{5e93}\u{683c}\u{5f0f}\u{9519}\u{8bef}\u{ff0c}\u{5e94}\u{4e3a} 'owner/repo'"@,
        r.repo_info is None,
        r.releases is None,
        r.latest_release is None,
{
    RepoBatchResult {
        repo: String::from_str(repo_str),
        success: false,
        error: Some(
            String::from_str(
                "\u{4ed3}\u{5e93}\u{683c}\u{5f0f}\u{9519}\u{8bef}\u{ff0c}\u{5e94}\u{4e3a} 'owner/repo'",
            ),
        ),
        repo_info: None,
        releases: None,
        latest_release: None,
    }
}

/// The health payload: a fixed status and service name around the running
/// version.
pub fn health_response(version: String) -> (r: HealthResponse)
    ensures
        r.status@ == "ok"@,
        r.service@ == "GitHub API \u{4fe1}\u{606f}\u{6536}\u{96c6}\u{670d}\u{52a1}"@,
        r.version == version,
{
    HealthResponse {
        status: String::from_str("ok"),
        service: String::from_str("GitHub API \u{4fe1}\u{606f}\u{6536}\u{96c6}\u{670d}\u{52a1}"),
        version,
    }
}

} // verus!
