use vstd::prelude::*;

use crate::errors::InstallError;

verus! {

/// Relies on String::push: appends exactly the given character.
pub assume_specification[ String::push ](s: &mut String, c: char)
    ensures
        final(s)@ == old(s)@.push(c),
;

/// What becomes of one character of a repository identifier when the
/// identifier is turned into a single cache folder name.
pub open spec fn sanitized_char(c: char) -> char {
    if c == ':' || c == '/' || c == '.' {
        '_'
    } else {
        c
    }
}

/// The cache folder name derived from a repository identifier.
pub open spec fn sanitized(s: Seq<char>) -> Seq<char> {
    s.map_values(|c: char| sanitized_char(c))
}

/// The address a repository identifier is cloned from.
pub open spec fn repo_url(repo: Seq<char>) -> Seq<char> {
    "git@github.com:"@ + repo + ".git"@
}

/// Where the cached clone of a repository lives under the cache root.
pub open spec fn cache_dest(cache_dir: Seq<char>, repo: Seq<char>) -> Seq<char> {
    cache_dir + seq!['/'] + sanitized(repo)
}

/// Builds the clone address for a repository identifier.
pub fn get_url(repo: &str) -> (r: String)
    ensures
        r@ == repo_url(repo@),
{
    let mut url = String::from_str("git@github.com:");
    url.append(repo);
    url.append(".git");
    url
}

/// Makes a clean folder name from a repository identifier, replacing the
/// characters that do not belong in a single path component.
pub fn sanitize_repo_name_to_folder(url: &str) -> (r: String)
    ensures
        r@ == sanitized(url@),
{
    let n = url.unicode_len();
    let mut out = String::new();
    let mut i: usize = 0;
    while i < n
        invariant
            n == url@.len(),
            i <= n,
            out@ == url@.take(i as int).map_values(|c: char| sanitized_char(c)),
        decreases n - i,
    {
        let c = url.get_char(i);
        let d = if c == ':' || c == '/' || c == '.' {
            '_'
        } else {
            c
        };
        out.push(d);
        proof {
            assert(url@.take(i as int + 1) =~= url@.take(i as int).push(url@[i as int]));
            assert(out@ =~= url@.take(i as int + 1).map_values(|ch: char| sanitized_char(ch)));
        }
        i += 1;
    }
    proof {
        assert(url@.take(n as int) =~= url@);
    }
    out
}

/// Relies on directories::ProjectDirs::from and ProjectDirs::cache_dir: the
/// platform cache directory for this application's identifiers, or None when
/// no home directory can be determined. The outcome depends on the machine
/// and its environment, so nothing is stated of it.
#[verifier::external_body]
fn platform_cache_root() -> (r: Option<String>) {
    match directories::ProjectDirs::from("com", "amirmo76", "bforge") {
        Some(dirs) => Some(dirs.cache_dir().to_string_lossy().into_owned()),
        None => None,
    }
}

/// Where cached repositories live: a `git` folder under the platform cache
/// directory. Fails when the platform gives no cache directory.
pub fn get_cache_dir() -> (r: Result<String, InstallError>)
    ensures
        r is Ok ==> r.unwrap()@.len() >= "/git"@.len() && r.unwrap()@.subrange(
            r.unwrap()@.len() - "/git"@.len(),
            r.unwrap()@.len() as int,
        ) == "/git"@,
        r is Err ==> r.unwrap_err() == InstallError::RepositoryError,
{
    match platform_cache_root() {
        None => Err(InstallError::RepositoryError),
        Some(base) => {
            let mut p = base;
            p.append("/git");
            proof {
                assert(p@.subrange(p@.len() - "/git"@.len(), p@.len() as int) =~= "/git"@);
            }
            Ok(p)
        },
    }
}

/// How the cache is brought to hold an up-to-date copy of a repository.
pub enum CachePlan {
    /// Nothing is cached at `dest` yet: clone from `url` into it.
    Clone { url: String, dest: String },
    /// `dest` already holds a clone: fetch and hard-reset it to the remote
    /// default branch instead.
    Update { dest: String },
}

/// Decides how the cache is brought up to date for `repo`, whose clone
/// lives in a sanitized folder under `cache_dir`; `already_cached` says
/// whether that folder already exists on disk.
pub fn cache_plan(repo: &str, cache_dir: &str, already_cached: bool) -> (r: CachePlan)
    ensures
        match r {
            CachePlan::Clone { url, dest } => !already_cached && url@ == repo_url(repo@) && dest@
                == cache_dest(cache_dir@, repo@),
            CachePlan::Update { dest } => already_cached && dest@ == cache_dest(
                cache_dir@,
                repo@,
            ),
        },
{
    let folder = sanitize_repo_name_to_folder(repo);
    let mut dest = String::from_str(cache_dir);
    dest.append("/");
    dest.append(folder.as_str());
    proof {
        reveal_strlit("/");
        assert(dest@ =~= cache_dest(cache_dir@, repo@));
    }
    if already_cached {
        CachePlan::Update { dest }
    } else {
        CachePlan::Clone { url: get_url(repo), dest }
    }
}

} // verus!
