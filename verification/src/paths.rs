//! Path and filename derivation for the blob store: the presentation
//! filename taken from a URL, the blob file's name and the directory
//! layout around the snapshot file.

use vstd::prelude::*;
use crate::fingerprint::url_hash_spec;

verus! {

/// The suffix of `s` after the last occurrence of `ch`; all of `s` when
/// `ch` does not occur.
pub open spec fn suffix_after_last(s: Seq<char>, ch: char) -> Seq<char>
    decreases s.len(),
{
    if s.len() == 0 {
        s
    } else if s.last() == ch {
        Seq::empty()
    } else {
        suffix_after_last(s.drop_last(), ch).push(s.last())
    }
}

/// The prefix of `s` before the first occurrence of `ch`; all of `s` when
/// `ch` does not occur.
pub open spec fn prefix_before_first(s: Seq<char>, ch: char) -> Seq<char>
    decreases s.len(),
{
    if s.len() == 0 {
        s
    } else if s.first() == ch {
        Seq::empty()
    } else {
        seq![s.first()] + prefix_before_first(s.drop_first(), ch)
    }
}

/// With no occurrence of `ch`, the suffix is the whole string.
pub proof fn lemma_suffix_none(s: Seq<char>, ch: char)
    requires
        forall|i: int| 0 <= i < s.len() ==> s[i] != ch,
    ensures
        suffix_after_last(s, ch) == s,
    decreases s.len(),
{
    if s.len() > 0 {
        assert(s.last() != ch);
        assert forall|i: int| 0 <= i < s.drop_last().len() implies s.drop_last()[i] != ch by {
            assert(s[i] == s.drop_last()[i]);
        }
        lemma_suffix_none(s.drop_last(), ch);
        assert(suffix_after_last(s, ch) =~= s);
    }
}

/// With the last occurrence of `ch` at `i`, the suffix starts at `i + 1`.
pub proof fn lemma_suffix_at(s: Seq<char>, ch: char, i: int)
    requires
        0 <= i < s.len(),
        s[i] == ch,
        forall|j: int| i < j < s.len() ==> s[j] != ch,
    ensures
        suffix_after_last(s, ch) == s.subrange(i + 1, s.len() as int),
    decreases s.len(),
{
    if i == s.len() - 1 {
        assert(s.last() == ch);
        assert(suffix_after_last(s, ch) =~= s.subrange(i + 1, s.len() as int));
    } else {
        assert(s.last() != ch);
        let d = s.drop_last();
        assert(d[i] == ch);
        assert forall|j: int| i < j < d.len() implies d[j] != ch by {
            assert(s[j] == d[j]);
        }
        lemma_suffix_at(d, ch, i);
        assert(suffix_after_last(s, ch) =~= s.subrange(i + 1, s.len() as int));
    }
}

/// With no occurrence of `ch`, the prefix is the whole string.
pub proof fn lemma_prefix_none(s: Seq<char>, ch: char)
    requires
        forall|i: int| 0 <= i < s.len() ==> s[i] != ch,
    ensures
        prefix_before_first(s, ch) == s,
    decreases s.len(),
{
    if s.len() > 0 {
        assert(s.first() != ch);
        assert forall|i: int| 0 <= i < s.drop_first().len() implies s.drop_first()[i] != ch by {
            assert(s[i + 1] == s.drop_first()[i]);
        }
        lemma_prefix_none(s.drop_first(), ch);
        assert(prefix_before_first(s, ch) =~= s);
    }
}

/// With the first occurrence of `ch` at `i`, the prefix ends before `i`.
pub proof fn lemma_prefix_at(s: Seq<char>, ch: char, i: int)
    requires
        0 <= i < s.len(),
        s[i] == ch,
        forall|j: int| 0 <= j < i ==> s[j] != ch,
    ensures
        prefix_before_first(s, ch) == s.subrange(0, i),
    decreases s.len(),
{
    if i == 0 {
        assert(s.first() == ch);
        assert(prefix_before_first(s, ch) =~= s.subrange(0, 0));
    } else {
        assert(s.first() != ch);
        let d = s.drop_first();
        assert(d[i - 1] == ch);
        assert forall|j: int| 0 <= j < i - 1 implies d[j] != ch by {
            assert(s[j + 1] == d[j]);
        }
        lemma_prefix_at(d, ch, i - 1);
        assert(prefix_before_first(s, ch) =~= s.subrange(0, i));
    }
}

/// The presentation filename a URL yields: its last path segment, cut
/// before any query string.
pub open spec fn derive_filename_spec(url: Seq<char>) -> Seq<char> {
    prefix_before_first(suffix_after_last(url, '/'), '?')
}

/// The position of the last occurrence of `ch`, scanning by character.
fn find_last(s: &str, ch: char) -> (r: Option<usize>)
    ensures
        match r {
            Some(i) => i < s@.len() && s@[i as int] == ch && forall|j: int|
                i < j < s@.len() ==> s@[j] != ch,
            None => forall|j: int| 0 <= j < s@.len() ==> s@[j] != ch,
        },
{
    let n = s.unicode_len();
    let mut i: usize = n;
    while i > 0
        invariant
            n == s@.len(),
            i <= n,
            forall|j: int| i <= j < n ==> s@[j] != ch,
        decreases i,
    {
        i -= 1;
        if s.get_char(i) == ch {
            return Some(i);
        }
    }
    None
}

/// The position of the first occurrence of `ch`, scanning by character.
fn find_first(s: &str, ch: char) -> (r: Option<usize>)
    ensures
        match r {
            Some(i) => i < s@.len() && s@[i as int] == ch && forall|j: int|
                0 <= j < i ==> s@[j] != ch,
            None => forall|j: int| 0 <= j < s@.len() ==> s@[j] != ch,
        },
{
    let n = s.unicode_len();
    let mut i: usize = 0;
    while i < n
        invariant
            n == s@.len(),
            i <= n,
            forall|j: int| 0 <= j < i ==> s@[j] != ch,
        decreases n - i,
    {
        if s.get_char(i) == ch {
            return Some(i);
        }
        i += 1;
    }
    None
}

/// The segment of `url` after its last `/`.
fn tail_after_last_slash<'a>(url: &'a str) -> (seg: &'a str)
    ensures
        seg@ == suffix_after_last(url@, '/'),
{
    let n = url.unicode_len();
    match find_last(url, '/') {
        Some(i) => {
            proof {
                lemma_suffix_at(url@, '/', i as int);
            }
            url.substring_char(i + 1, n)
        },
        None => {
            proof {
                lemma_suffix_none(url@, '/');
                assert(url@.subrange(0, n as int) =~= url@);
            }
            url.substring_char(0, n)
        },
    }
}

/// The part of `s` before its first `?`.
fn head_before_first_query<'a>(s: &'a str) -> (r: &'a str)
    ensures
        r@ == prefix_before_first(s@, '?'),
{
    let n = s.unicode_len();
    match find_first(s, '?') {
        Some(i) => {
            proof {
                lemma_prefix_at(s@, '?', i as int);
            }
            s.substring_char(0, i)
        },
        None => {
            proof {
                lemma_prefix_none(s@, '?');
                assert(s@.subrange(0, n as int) =~= s@);
            }
            s.substring_char(0, n)
        },
    }
}

/// Derives the presentation filename from a URL: the segment after the
/// last `/`, truncated before the first `?`. It may be empty, for a URL
/// ending in `/`.
pub fn derive_filename(url: &str) -> (r: String)
    ensures
        r@ == derive_filename_spec(url@),
{
    let seg = tail_after_last_slash(url);
    let cut = head_before_first_query(seg);
    String::from_str(cut)
}

/// The extension a filename yields for the blob file: the part after the
/// last dot, or `"bin"` when there is no dot or the name only starts with
/// one.
pub open spec fn extension_spec(name: Seq<char>) -> Seq<char> {
    if exists|i: int| 0 < i < name.len() && name[i] == '.' {
        suffix_after_last(name, '.')
    } else {
        "bin"@
    }
}

/// The filename's extension, or `"bin"`: the rule of a path's extension,
/// where a name that merely starts with a dot has none.
pub fn extension_or_bin(name: &str) -> (r: String)
    ensures
        r@ == extension_spec(name@),
{
    let n = name.unicode_len();
    match find_last(name, '.') {
        Some(i) => {
            if i > 0 {
                proof {
                    lemma_suffix_at(name@, '.', i as int);
                }
                let ext = name.substring_char(i + 1, n);
                proof {
                    assert(ext@ =~= extension_spec(name@));
                }
                String::from_str(ext)
            } else {
                proof {
                    assert forall|j: int| 0 < j < name@.len() implies name@[j] != '.' by {}
                }
                String::from_str("bin")
            }
        },
        None => String::from_str("bin"),
    }
}

/// The name of the blob file for a URL: the hex SHA-256 of the URL, a dot,
/// and the extension of the URL's presentation filename.
pub open spec fn blob_file_name_spec(url: Seq<char>) -> Seq<char> {
    url_hash_spec(url) + "."@ + extension_spec(derive_filename_spec(url))
}

/// Builds the blob file's name for a URL.
pub fn blob_file_name(url: &str) -> (r: String)
    ensures
        r@ == blob_file_name_spec(url@),
{
    let filename = derive_filename(url);
    let ext = extension_or_bin(filename.as_str());
    let mut s = crate::fingerprint::url_hash(url);
    s.append(".");
    s.append(ext.as_str());
    proof {
        assert(s@ =~= blob_file_name_spec(url@));
    }
    s
}

/// A directory path joined with a file name: a `/` is inserted unless the
/// directory is empty or already ends with one.
pub open spec fn join_path_spec(dir: Seq<char>, name: Seq<char>) -> Seq<char> {
    if dir.len() == 0 {
        name
    } else if dir.last() == '/' {
        dir + name
    } else {
        dir + "/"@ + name
    }
}

pub fn join_path(dir: &str, name: &str) -> (r: String)
    ensures
        r@ == join_path_spec(dir@, name@),
{
    let n = dir.unicode_len();
    if n == 0 {
        return String::from_str(name);
    }
    let mut s = String::from_str(dir);
    if dir.get_char(n - 1) != '/' {
        s.append("/");
    }
    s.append(name);
    proof {
        assert(s@ =~= join_path_spec(dir@, name@));
    }
    s
}

/// The blob directory inferred from the snapshot file's path when none is
/// configured: `cache_files` beside the snapshot file, with the parent
/// taken as everything before the last `/` (the filesystem root when the
/// slash comes first, nothing for a bare file name), and the fixed
/// container data directory mapped to its own `cache_files`.
pub open spec fn infer_blob_dir_spec(cache_file: Seq<char>) -> Seq<char> {
    if exists|i: int| 0 <= i < cache_file.len() && cache_file[i] == '/' {
        let parent = prefix_up_to_last_slash(cache_file);
        if parent == "/app/data"@ {
            "/app/data/cache_files"@
        } else {
            join_path_spec(parent, "cache_files"@)
        }
    } else {
        "cache_files"@
    }
}

/// Everything before the last `/`, or `/` alone when the last slash leads
/// the path.
pub open spec fn prefix_up_to_last_slash(s: Seq<char>) -> Seq<char> {
    let i = last_slash_at(s);
    if i == 0 {
        "/"@
    } else {
        s.subrange(0, i)
    }
}

/// The index of the last slash (meaningful only when one exists).
pub open spec fn last_slash_at(s: Seq<char>) -> int {
    choose|i: int| 0 <= i < s.len() && s[i] == '/' && forall|j: int| i < j < s.len() ==> s[j] != '/'
}

/// Infers the blob directory from the snapshot file path.
pub fn infer_blob_dir(cache_file: &str) -> (r: String)
    ensures
        r@ == infer_blob_dir_spec(cache_file@),
{
    match find_last(cache_file, '/') {
        Some(i) => {
            proof {
                let wi = last_slash_at(cache_file@);
                assert(0 <= wi < cache_file@.len() && cache_file@[wi] == '/' && forall|j: int|
                    wi < j < cache_file@.len() ==> cache_file@[j] != '/');
                assert(wi == i as int) by {
                    if wi < i as int {
                        assert(cache_file@[i as int] == '/');
                    }
                    if wi > i as int {
                        assert(cache_file@[wi] == '/');
                    }
                }
            }
            if i == 0 {
                let mut s = String::from_str("/");
                s.append("cache_files");
                proof {
                    reveal_strlit("/");
                    reveal_strlit("/app/data");
                    assert("/"@.len() == 1);
                    assert("/app/data"@.len() == 9);
                    assert("/"@ != "/app/data"@);
                    assert("/"@.last() == '/');
                    assert(s@ =~= join_path_spec("/"@, "cache_files"@));
                }
                s
            } else {
                let parent = cache_file.substring_char(0, i);
                let special = String::from_str("/app/data");
                let is_special = String::from_str(parent) == special;
                if is_special {
                    String::from_str("/app/data/cache_files")
                } else {
                    join_path(parent, "cache_files")
                }
            }
        },
        None => {
            proof {
                assert(!(exists|i: int|
                    0 <= i < cache_file@.len() && cache_file@[i] == '/'));
            }
            String::from_str("cache_files")
        },
    }
}

} // verus!
