//! Files of a local model cache that are eligible to be seeded.

use std::path::PathBuf;
use vstd::prelude::*;

use crate::paths::{Base, Place};
use crate::text::{after_prefix, chars_of, has_suffix, occurs_at, text_of, views};

verus! {

/// A `.gguf` file found in a local model cache that is eligible to be seeded.
#[derive(Debug)]
pub struct SeedCandidate {
    /// `gguf://owner/repo/filename.gguf` URL for this file.
    pub gguf_url: String,
    /// Content revision — the HuggingFace commit hash from the cache directory structure.
    pub revision: String,
    /// Absolute path to the `.gguf` file on disk (symlinks resolved).
    pub file_path: PathBuf,
}

impl Clone for SeedCandidate {
    fn clone(&self) -> (copy: Self)
        ensures
            copy@ == self@,
    {
        SeedCandidate {
            gguf_url: self.gguf_url.clone(),
            revision: self.revision.clone(),
            file_path: self.file_path.clone(),
        }
    }
}

/// What a [`SeedCandidate`] says.
pub struct CandidateModel {
    pub gguf_url: Seq<char>,
    pub revision: Seq<char>,
    pub file_path: PathBuf,
}

impl View for SeedCandidate {
    type V = CandidateModel;

    open spec fn view(&self) -> CandidateModel {
        CandidateModel {
            gguf_url: self.gguf_url@,
            revision: self.revision@,
            file_path: self.file_path,
        }
    }
}

/// The entry of a snapshot: its name, and the real file behind it. A dangling
/// link, and what is no file, has none.
pub struct CacheFile {
    pub name: String,
    pub resolved: Option<PathBuf>,
}

/// A snapshot of a repository: the commit that names it, whether it is a
/// directory, and its entries.
pub struct CacheCommit {
    pub name: String,
    pub is_dir: bool,
    pub files: Vec<CacheFile>,
}

/// An entry of the cache directory: its name, and the snapshots below it.
pub struct CacheEntry {
    pub name: String,
    pub commits: Vec<CacheCommit>,
}

/// The position of the first `--` in `s`, or the length of `s` where there is none.
pub open spec fn first_hyphens(s: Seq<char>) -> int
    decreases s.len(),
{
    if s.len() == 0 || occurs_at(s, "--"@, 0) {
        0
    } else {
        1 + first_hyphens(s.drop_first())
    }
}

/// The owner and the repository that the name of a cache directory stands for:
/// what is in front of and behind the first `--` after `models--`.
pub open spec fn repo_named(dir: Seq<char>) -> Option<(Seq<char>, Seq<char>)> {
    if "models--"@.is_prefix_of(dir) {
        let rest = dir.skip("models--"@.len() as int);
        let n = first_hyphens(rest);
        if n < rest.len() {
            Some((rest.take(n), rest.skip(n + 2)))
        } else {
            None
        }
    } else {
        None
    }
}

/// The name of a file that can be seeded.
pub open spec fn is_gguf_name(name: Seq<char>) -> bool {
    ".gguf"@.is_suffix_of(name)
}

/// The URL of a file of a repository.
pub open spec fn gguf_url_of(owner: Seq<char>, repo: Seq<char>, file: Seq<char>) -> Seq<char> {
    "gguf://"@ + owner + "/"@ + repo + "/"@ + file
}

/// The candidates among the files of a snapshot.
pub open spec fn candidates_of_files(
    repo: (Seq<char>, Seq<char>),
    revision: Seq<char>,
    files: Seq<CacheFile>,
) -> Seq<CandidateModel>
    decreases files.len(),
{
    if files.len() == 0 {
        Seq::empty()
    } else {
        let before = candidates_of_files(repo, revision, files.drop_last());
        let f = files.last();
        match f.resolved {
            Some(path) if is_gguf_name(f.name@) => before.push(
                CandidateModel {
                    gguf_url: gguf_url_of(repo.0, repo.1, f.name@),
                    revision,
                    file_path: path,
                },
            ),
            _ => before,
        }
    }
}

/// The candidates among the snapshots of a repository.
pub open spec fn candidates_of_commits(
    repo: (Seq<char>, Seq<char>),
    commits: Seq<CacheCommit>,
) -> Seq<CandidateModel>
    decreases commits.len(),
{
    if commits.len() == 0 {
        Seq::empty()
    } else {
        let before = candidates_of_commits(repo, commits.drop_last());
        let c = commits.last();
        if c.is_dir {
            before + candidates_of_files(repo, c.name@, c.files@)
        } else {
            before
        }
    }
}

/// The candidates among the entries of a cache directory.
pub open spec fn candidates_of(entries: Seq<CacheEntry>) -> Seq<CandidateModel>
    decreases entries.len(),
{
    if entries.len() == 0 {
        Seq::empty()
    } else {
        let before = candidates_of(entries.drop_last());
        let e = entries.last();
        match repo_named(e.name@) {
            Some(repo) => before + candidates_of_commits(repo, e.commits@),
            None => before,
        }
    }
}

/// The candidates of a list.
pub open spec fn candidate_views(v: Seq<SeedCandidate>) -> Seq<CandidateModel> {
    v.map_values(|c: SeedCandidate| c@)
}

/// The owner and the repository that the name of a cache directory stands for.
///
/// HuggingFace encodes `owner/repo` as `owner--repo` (double-hyphen). Owner and
/// repo names cannot themselves contain `--`, so the first one separates them.
pub fn repo_of(dir: &str) -> (repo: Option<(String, String)>)
    ensures
        match repo {
            Some((owner, name)) => repo_named(dir@) == Some((owner@, name@)),
            None => repo_named(dir@) is None,
        },
{
    let rest = match after_prefix(dir, "models--") {
        Some(r) => r,
        None => {
            return None;
        },
    };
    assert(dir@.skip("models--"@.len() as int) =~= rest@);
    let v = chars_of(rest.as_str());
    let mut at: usize = 0;
    proof {
        reveal_strlit("--");
        assert(rest@.skip(0) =~= rest@);
    }
    while at < v.len()
        invariant
            "--"@ == seq!['-', '-'],
            v@ == rest@,
            at <= v.len(),
            "models--"@.is_prefix_of(dir@),
            dir@.skip("models--"@.len() as int) == rest@,
            first_hyphens(rest@) == at + first_hyphens(rest@.skip(at as int)),
        decreases v.len() - at,
    {
        let ghost tail = rest@.skip(at as int);
        if at + 1 < v.len() && v[at] == '-' && v[at + 1] == '-' {
            assert(tail.subrange(0, 2) =~= seq!['-', '-']);
            assert(occurs_at(tail, "--"@, 0));
            let owner = text_of(&v, 0, at);
            let name = text_of(&v, at + 2, v.len());
            assert(rest@.take(at as int) =~= owner@);
            assert(rest@.skip(at + 2) =~= name@);
            return Some((owner, name));
        }
        assert(!occurs_at(tail, "--"@, 0)) by {
            if occurs_at(tail, "--"@, 0) {
                let two = tail.subrange(0, 2);
                assert(two[0] == v@[at as int] && two[1] == v@[at + 1]);
            }
        }
        assert(tail.drop_first() =~= rest@.skip(at + 1));
        at += 1;
    }
    assert(rest@.skip(at as int) =~= Seq::<char>::empty());
    None
}

/// Whether a file of this name can be seeded.
pub fn is_gguf_file(name: &str) -> (yes: bool)
    ensures
        yes == is_gguf_name(name@),
{
    has_suffix(name, ".gguf")
}

/// The URL of a file of a repository.
fn gguf_url(owner: &str, repo: &str, file: &str) -> (url: String)
    ensures
        url@ == gguf_url_of(owner@, repo@, file@),
{
    let mut url = String::new();
    url.append("gguf://");
    url.append(owner);
    url.append("/");
    url.append(repo);
    url.append("/");
    url.append(file);
    assert(url@ =~= gguf_url_of(owner@, repo@, file@));
    url
}

/// Appends the candidates among the files of a snapshot.
fn scan_files(
    out: &mut Vec<SeedCandidate>,
    owner: &str,
    repo: &str,
    revision: &str,
    files: Vec<CacheFile>,
)
    ensures
        candidate_views(final(out)@) == candidate_views(old(out)@) + candidates_of_files(
            (owner@, repo@),
            revision@,
            files@,
        ),
{
    let ghost all = files@;
    let ghost before = candidate_views(out@);
    let ghost named = (owner@, repo@);
    assert(candidate_views(out@) =~= before + candidates_of_files(named, revision@, all.take(0)));
    for file in it: files
        invariant
            it.seq() == all,
            named == (owner@, repo@),
            candidate_views(out@) == before + candidates_of_files(
                named,
                revision@,
                all.take(it.index()),
            ),
    {
        let ghost next = all.take(it.index() + 1);
        assert(next.drop_last() =~= all.take(it.index()));
        assert(next.last() == file);
        let ghost so_far = candidate_views(out@);
        if is_gguf_file(file.name.as_str()) {
            if let Some(path) = file.resolved {
                let found = SeedCandidate {
                    gguf_url: gguf_url(owner, repo, file.name.as_str()),
                    revision: revision.to_owned(),
                    file_path: path,
                };
                out.push(found);
                assert(candidate_views(out@) =~= so_far.push(found@));
            }
        }
        assert(candidate_views(out@) =~= before + candidates_of_files(named, revision@, next));
    }
    assert(all.take(all.len() as int) =~= all);
}

/// Appends the candidates among the snapshots of a repository.
fn scan_commits(
    out: &mut Vec<SeedCandidate>,
    owner: &str,
    repo: &str,
    commits: Vec<CacheCommit>,
)
    ensures
        candidate_views(final(out)@) == candidate_views(old(out)@) + candidates_of_commits(
            (owner@, repo@),
            commits@,
        ),
{
    let ghost all = commits@;
    let ghost before = candidate_views(out@);
    let ghost named = (owner@, repo@);
    assert(candidate_views(out@) =~= before + candidates_of_commits(named, all.take(0)));
    for commit in it: commits
        invariant
            it.seq() == all,
            named == (owner@, repo@),
            candidate_views(out@) == before + candidates_of_commits(named, all.take(it.index())),
    {
        let ghost next = all.take(it.index() + 1);
        assert(next.drop_last() =~= all.take(it.index()));
        assert(next.last() == commit);
        if commit.is_dir {
            scan_files(out, owner, repo, commit.name.as_str(), commit.files);
        }
        assert(candidate_views(out@) =~= before + candidates_of_commits(named, next));
    }
    assert(all.take(all.len() as int) =~= all);
}

/// Scan a HuggingFace model cache directory for `.gguf` files.
///
/// The HuggingFace CLI stores model snapshots at:
/// ```text
/// {cache_dir}/models--{owner}--{repo}/snapshots/{commit}/{filename}.gguf
/// ```
/// Files in snapshots are usually symlinks into a `blobs/` sibling directory;
/// `file_path` always points at the real blob.
///
/// Every file found is returned as a [`SeedCandidate`] with the correct
/// `gguf://` URL and commit-based revision, so its P2P content key matches
/// any other peer that downloaded the same blob from HuggingFace.
pub fn scan_hf_cache(entries: Vec<CacheEntry>) -> (out: Vec<SeedCandidate>)
    ensures
        candidate_views(out@) == candidates_of(entries@),
{
    let ghost all = entries@;
    let mut out: Vec<SeedCandidate> = Vec::new();
    assert(candidate_views(out@) =~= candidates_of(all.take(0)));
    for entry in it: entries
        invariant
            it.seq() == all,
            candidate_views(out@) == candidates_of(all.take(it.index())),
    {
        let ghost next = all.take(it.index() + 1);
        assert(next.drop_last() =~= all.take(it.index()));
        assert(next.last() == entry);
        if let Some((owner, repo)) = repo_of(entry.name.as_str()) {
            scan_commits(&mut out, owner.as_str(), repo.as_str(), entry.commits);
        }
        assert(candidate_views(out@) =~= candidates_of(next));
    }
    assert(all.take(all.len() as int) =~= all);
    out
}

/// Default HuggingFace cache directory, respecting environment overrides.
///
/// Resolution order:
/// 1. `$HF_HOME/hub`
/// 2. `$XDG_CACHE_HOME/huggingface/hub`
/// 3. `~/.cache/huggingface/hub`
pub fn default_hf_cache_dir(
    hf_home: Option<PathBuf>,
    xdg_cache_home: Option<PathBuf>,
    home: Option<PathBuf>,
) -> (place: Place)
    ensures
        match (hf_home, xdg_cache_home, home) {
            (Some(d), _, _) => place.is(Base::Dir(d), seq!["hub"@]),
            (None, Some(d), _) => place.is(Base::Dir(d), seq!["huggingface"@, "hub"@]),
            (None, None, Some(d)) => place.is(
                Base::Dir(d),
                seq![".cache"@, "huggingface"@, "hub"@],
            ),
            (None, None, None) => place.is(Base::Tmp, seq!["huggingface"@, "hub"@]),
        },
{
    let mut names: Vec<String> = Vec::new();
    let base = if let Some(d) = hf_home {
        Base::Dir(d)
    } else {
        let base = match (xdg_cache_home, home) {
            (Some(d), _) => Base::Dir(d),
            (None, Some(d)) => {
                names.push(".cache".to_owned());
                Base::Dir(d)
            },
            (None, None) => Base::Tmp,
        };
        names.push("huggingface".to_owned());
        base
    };
    names.push("hub".to_owned());
    assert(hf_home is Some ==> views(names@) =~= seq!["hub"@]);
    assert(hf_home is None && (xdg_cache_home is Some || home is None) ==> views(names@) =~= seq![
        "huggingface"@,
        "hub"@,
    ]);
    assert(hf_home is None && xdg_cache_home is None && home is Some ==> views(names@) =~= seq![
        ".cache"@,
        "huggingface"@,
        "hub"@,
    ]);
    Place { base, names }
}

} // verus!
