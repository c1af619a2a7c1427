//! Laws of the scan of a model cache: it finds every file that can be seeded, and
//! nothing else.

use vstd::prelude::*;

use crate::gguf::{hf_url, is_gguf_path};
use crate::p2p::seed_import::{
    candidates_of, candidates_of_commits, candidates_of_files, first_hyphens, gguf_url_of,
    is_gguf_name, repo_named, CacheCommit, CacheEntry, CacheFile, CandidateModel,
};
use crate::text::{ascii_lower, occurs_at, occurs_in};

verus! {

/// The candidate that a file makes.
pub open spec fn candidate_of(
    repo: (Seq<char>, Seq<char>),
    commit: CacheCommit,
    file: CacheFile,
) -> CandidateModel {
    CandidateModel {
        gguf_url: gguf_url_of(repo.0, repo.1, file.name@),
        revision: commit.name@,
        file_path: file.resolved->0,
    }
}

/// The file at these positions can be seeded.
pub open spec fn can_be_seeded(entries: Seq<CacheEntry>, e: int, c: int, f: int) -> bool {
    &&& 0 <= e < entries.len()
    &&& repo_named(entries[e].name@) is Some
    &&& 0 <= c < entries[e].commits@.len()
    &&& entries[e].commits@[c].is_dir
    &&& 0 <= f < entries[e].commits@[c].files@.len()
    &&& is_gguf_name(entries[e].commits@[c].files@[f].name@)
    &&& entries[e].commits@[c].files@[f].resolved is Some
}

/// The candidate that the file at these positions makes.
pub open spec fn candidate_at(entries: Seq<CacheEntry>, e: int, c: int, f: int) -> CandidateModel {
    candidate_of(
        repo_named(entries[e].name@)->0,
        entries[e].commits@[c],
        entries[e].commits@[c].files@[f],
    )
}

/// Every file that can be seeded is found.
pub proof fn law_every_file_is_found(entries: Seq<CacheEntry>, e: int, c: int, f: int)
    requires
        can_be_seeded(entries, e, c, f),
    ensures
        candidates_of(entries).contains(candidate_at(entries, e, c, f)),
    decreases entries.len(),
{
    let last = entries.last();
    let front = entries.drop_last();
    let m = candidate_at(entries, e, c, f);
    if e == entries.len() - 1 {
        let repo = repo_named(last.name@)->0;
        lemma_found_in_commits(repo, last.commits@, c, f);
        lemma_contains_right(candidates_of(front), candidates_of_commits(repo, last.commits@), m);
    } else {
        assert(front[e] == entries[e]);
        law_every_file_is_found(front, e, c, f);
        if repo_named(last.name@) is Some {
            lemma_contains_left(
                candidates_of(front),
                candidates_of_commits(repo_named(last.name@)->0, last.commits@),
                m,
            );
        }
    }
}

/// Every file of the snapshots of a repository that can be seeded is found.
proof fn lemma_found_in_commits(
    repo: (Seq<char>, Seq<char>),
    commits: Seq<CacheCommit>,
    c: int,
    f: int,
)
    requires
        0 <= c < commits.len(),
        commits[c].is_dir,
        0 <= f < commits[c].files@.len(),
        is_gguf_name(commits[c].files@[f].name@),
        commits[c].files@[f].resolved is Some,
    ensures
        candidates_of_commits(repo, commits).contains(
            candidate_of(repo, commits[c], commits[c].files@[f]),
        ),
    decreases commits.len(),
{
    let last = commits.last();
    let front = commits.drop_last();
    let m = candidate_of(repo, commits[c], commits[c].files@[f]);
    let before = candidates_of_commits(repo, front);
    let here = candidates_of_files(repo, last.name@, last.files@);
    if c == commits.len() - 1 {
        lemma_found_in_files(repo, last, last.files@, f);
        lemma_contains_right(before, here, m);
    } else {
        assert(front[c] == commits[c]);
        lemma_found_in_commits(repo, front, c, f);
        lemma_contains_left(before, here, m);
    }
}

/// Every file of a snapshot that can be seeded is found.
proof fn lemma_found_in_files(
    repo: (Seq<char>, Seq<char>),
    commit: CacheCommit,
    files: Seq<CacheFile>,
    f: int,
)
    requires
        0 <= f < files.len(),
        is_gguf_name(files[f].name@),
        files[f].resolved is Some,
    ensures
        candidates_of_files(repo, commit.name@, files).contains(
            candidate_of(repo, commit, files[f]),
        ),
    decreases files.len(),
{
    let front = files.drop_last();
    let before = candidates_of_files(repo, commit.name@, front);
    let all = candidates_of_files(repo, commit.name@, files);
    let m = candidate_of(repo, commit, files[f]);
    if f == files.len() - 1 {
        assert(all[before.len() as int] == m);
    } else {
        assert(front[f] == files[f]);
        lemma_found_in_files(repo, commit, front, f);
        let k = choose|k: int| 0 <= k < before.len() && before[k] == m;
        assert(all[k] == m);
    }
}

/// What is in the first list is in both together.
proof fn lemma_contains_left(a: Seq<CandidateModel>, b: Seq<CandidateModel>, m: CandidateModel)
    requires
        a.contains(m),
    ensures
        (a + b).contains(m),
{
    let k = choose|k: int| 0 <= k < a.len() && a[k] == m;
    assert((a + b)[k] == m);
}

/// What is in the second list is in both together.
proof fn lemma_contains_right(a: Seq<CandidateModel>, b: Seq<CandidateModel>, m: CandidateModel)
    requires
        b.contains(m),
    ensures
        (a + b).contains(m),
{
    let k = choose|k: int| 0 <= k < b.len() && b[k] == m;
    assert((a + b)[a.len() + k] == m);
}

/// Nothing else is found: every candidate is that of a file that can be seeded.
pub proof fn law_nothing_else_is_found(entries: Seq<CacheEntry>, i: int) -> (at: (int, int, int))
    requires
        0 <= i < candidates_of(entries).len(),
    ensures
        can_be_seeded(entries, at.0, at.1, at.2),
        candidates_of(entries)[i] == candidate_at(entries, at.0, at.1, at.2),
    decreases entries.len(),
{
    let front = entries.drop_last();
    let before = candidates_of(front);
    let e = entries.len() - 1;
    if i < before.len() {
        let at = law_nothing_else_is_found(front, i);
        assert(front[at.0] == entries[at.0]);
        at
    } else {
        let repo = repo_named(entries[e].name@)->0;
        let at = lemma_source_in_commits(repo, entries[e].commits@, i - before.len());
        (e, at.0, at.1)
    }
}

/// Every candidate of the snapshots of a repository is that of a file.
proof fn lemma_source_in_commits(
    repo: (Seq<char>, Seq<char>),
    commits: Seq<CacheCommit>,
    i: int,
) -> (at: (int, int))
    requires
        0 <= i < candidates_of_commits(repo, commits).len(),
    ensures
        0 <= at.0 < commits.len(),
        commits[at.0].is_dir,
        0 <= at.1 < commits[at.0].files@.len(),
        is_gguf_name(commits[at.0].files@[at.1].name@),
        commits[at.0].files@[at.1].resolved is Some,
        candidates_of_commits(repo, commits)[i] == candidate_of(
            repo,
            commits[at.0],
            commits[at.0].files@[at.1],
        ),
    decreases commits.len(),
{
    let front = commits.drop_last();
    let before = candidates_of_commits(repo, front);
    let c = commits.len() - 1;
    if i < before.len() {
        let at = lemma_source_in_commits(repo, front, i);
        assert(front[at.0] == commits[at.0]);
        at
    } else {
        let f = lemma_source_in_files(repo, commits[c], commits[c].files@, i - before.len());
        (c, f)
    }
}

/// Every candidate of a snapshot is that of a file.
proof fn lemma_source_in_files(
    repo: (Seq<char>, Seq<char>),
    commit: CacheCommit,
    files: Seq<CacheFile>,
    i: int,
) -> (f: int)
    requires
        0 <= i < candidates_of_files(repo, commit.name@, files).len(),
    ensures
        0 <= f < files.len(),
        is_gguf_name(files[f].name@),
        files[f].resolved is Some,
        candidates_of_files(repo, commit.name@, files)[i] == candidate_of(repo, commit, files[f]),
    decreases files.len(),
{
    let front = files.drop_last();
    let before = candidates_of_files(repo, commit.name@, front);
    if i < before.len() {
        let f = lemma_source_in_files(repo, commit, front, i);
        assert(front[f] == files[f]);
        f
    } else {
        files.len() - 1
    }
}

/// A cache directory names the owner and the repository that it was made for,
/// where the owner has no double hyphen and none comes about at its end.
pub proof fn law_directory_names_its_repo(owner: Seq<char>, repo: Seq<char>)
    requires
        !occurs_in(owner + "-"@, "--"@),
    ensures
        repo_named("models--"@ + owner + "--"@ + repo) == Some((owner, repo)),
{
    let dir = "models--"@ + owner + "--"@ + repo;
    let rest = owner + "--"@ + repo;
    assert(dir =~= "models--"@ + rest);
    assert(dir.take("models--"@.len() as int) =~= "models--"@);
    assert(dir.skip("models--"@.len() as int) =~= rest);
    reveal_strlit("--");
    reveal_strlit("-");
    assert("--"@ =~= seq!['-', '-']);
    assert("-"@ =~= seq!['-']);
    lemma_first_hyphens(owner, repo);
    assert(rest.take(owner.len() as int) =~= owner);
    assert(rest.skip((owner.len() + 2) as int) =~= repo);
}

/// The first double hyphen is the one behind the owner.
proof fn lemma_first_hyphens(owner: Seq<char>, repo: Seq<char>)
    requires
        "--"@ == seq!['-', '-'],
        "-"@ == seq!['-'],
        !occurs_in(owner + "-"@, "--"@),
    ensures
        first_hyphens(owner + "--"@ + repo) == owner.len(),
    decreases owner.len(),
{
    let rest = owner + "--"@ + repo;
    if owner.len() == 0 {
        assert(rest.subrange(0, 2) =~= "--"@);
    } else {
        let marked = owner + "-"@;
        assert(!occurs_at(marked, "--"@, 0));
        if occurs_at(rest, "--"@, 0) {
            assert(rest.subrange(0, 2) =~= marked.subrange(0, 2));
            assert(occurs_at(marked, "--"@, 0));
        }
        let tail = owner.drop_first();
        assert(rest.drop_first() =~= tail + "--"@ + repo);
        assert(!occurs_in(tail + "-"@, "--"@)) by {
            if occurs_in(tail + "-"@, "--"@) {
                let at = choose|at: int| occurs_at(tail + "-"@, "--"@, at);
                assert((tail + "-"@).subrange(at, at + 2) =~= marked.subrange(at + 1, at + 3));
                assert(occurs_at(marked, "--"@, at + 1));
            }
        }
        lemma_first_hyphens(tail, repo);
    }
}

/// The URL of a file is `gguf://`, the owner, a slash, the repository, a slash, and
/// the name of the file, each character for character; so files of different names
/// in one repository have different URLs.
pub proof fn law_url_spells_the_file(
    owner: Seq<char>,
    repo: Seq<char>,
    file: Seq<char>,
    other: Seq<char>,
)
    ensures
        gguf_url_of(owner, repo, file) == seq!['g', 'g', 'u', 'f', ':', '/', '/'] + owner + seq!['/']
            + repo + seq!['/'] + file,
        gguf_url_of(owner, repo, file) == gguf_url_of(owner, repo, other) ==> file == other,
{
    reveal_strlit("gguf://");
    reveal_strlit("/");
    let front = seq!['g', 'g', 'u', 'f', ':', '/', '/'] + owner + seq!['/'] + repo + seq!['/'];
    let a = gguf_url_of(owner, repo, file);
    let b = gguf_url_of(owner, repo, other);
    assert(a =~= front + file);
    assert(b =~= front + other);
    assert(a.skip(front.len() as int) =~= file);
    assert(b.skip(front.len() as int) =~= other);
}

/// A file can be seeded if its name ends with a dot and the lower-case letters gguf.
pub proof fn law_seeded_names(name: Seq<char>)
    ensures
        is_gguf_name(name) <==> name.len() >= 5 && name.skip(name.len() - 5) == seq![
            '.',
            'g',
            'g',
            'u',
            'f',
        ],
{
    reveal_strlit(".gguf");
    assert(".gguf"@ =~= seq!['.', 'g', 'g', 'u', 'f']);
    if name.len() >= 5 {
        assert(name.skip(name.len() - 5) =~= name.subrange(name.len() - 5, name.len() as int));
    }
}

/// The owner ends at the first two hyphens: none stand in it, nor begin with its last
/// character.
pub open spec fn ends_at_first_hyphens(owner: Seq<char>) -> bool {
    forall|i: int|
        0 <= i < owner.len() && #[trigger] owner[i] == '-' ==> i + 1 < owner.len() && owner[i + 1]
            != '-'
}

/// A cache directory stands for a repository exactly if its name is `models--`, the
/// owner, two hyphens, and the repository; the owner ends at the first two hyphens.
pub proof fn law_repo_is_spelt_by_its_directory(dir: Seq<char>)
    ensures
        repo_named(dir) matches Some((owner, repo)) ==> dir == "models--"@ + owner + "--"@ + repo
            && ends_at_first_hyphens(owner),
        repo_named(dir) is None ==> forall|owner: Seq<char>, repo: Seq<char>|
            dir != #[trigger] ("models--"@ + owner + "--"@ + repo),
{
    reveal_strlit("models--");
    let rest = dir.skip(8);
    lemma_first_hyphens_at(rest);
    let n = first_hyphens(rest);
    if repo_named(dir) is Some {
        let (owner, repo) = repo_named(dir)->0;
        assert(dir.subrange(0, 8) == "models--"@);
        assert(dir =~= "models--"@ + rest);
        lemma_split_at_hyphens(rest, n);
        assert(dir =~= "models--"@ + owner + "--"@ + repo);
    } else {
        assert forall|owner: Seq<char>, repo: Seq<char>|
            dir != #[trigger] ("models--"@ + owner + "--"@ + repo) by {
            if dir == "models--"@ + owner + "--"@ + repo {
                assert(dir.subrange(0, 8) =~= "models--"@);
                assert(rest =~= owner + "--"@ + repo);
                lemma_hyphens_occur(owner, repo);
            }
        }
    }
}

/// Two hyphens between two texts occur behind the first.
proof fn lemma_hyphens_occur(owner: Seq<char>, repo: Seq<char>)
    ensures
        occurs_at(owner + "--"@ + repo, "--"@, owner.len() as int),
{
    reveal_strlit("--");
    let k = owner.len() as int;
    assert((owner + "--"@ + repo).subrange(k, k + 2) =~= "--"@);
}

/// A text is what is in front of its first two hyphens, the hyphens, and what is behind
/// them.
proof fn lemma_split_at_hyphens(rest: Seq<char>, n: int)
    requires
        0 <= n,
        occurs_at(rest, "--"@, n),
        forall|i: int| 0 <= i < n ==> !#[trigger] occurs_at(rest, "--"@, i),
    ensures
        rest == rest.take(n) + "--"@ + rest.skip(n + 2),
        ends_at_first_hyphens(rest.take(n)),
{
    reveal_strlit("--");
    assert("--"@ =~= seq!['-', '-']);
    let two = rest.subrange(n, n + 2);
    assert(two[0] == rest[n] && two[1] == rest[n + 1]);
    assert(rest =~= rest.take(n) + "--"@ + rest.skip(n + 2));
    let owner = rest.take(n);
    assert forall|i: int| 0 <= i < owner.len() && #[trigger] owner[i] == '-' implies i + 1
        < owner.len() && owner[i + 1] != '-' by {
        assert(!occurs_at(rest, "--"@, i));
        if rest[i + 1] == '-' {
            assert(rest.subrange(i, i + 2) =~= "--"@);
        }
    }
}

/// `first_hyphens` names the first position of two hyphens.
proof fn lemma_first_hyphens_at(s: Seq<char>)
    ensures
        0 <= first_hyphens(s) <= s.len(),
        first_hyphens(s) < s.len() ==> occurs_at(s, "--"@, first_hyphens(s)),
        forall|i: int| 0 <= i < first_hyphens(s) ==> !#[trigger] occurs_at(s, "--"@, i),
        first_hyphens(s) == s.len() ==> forall|i: int| !#[trigger] occurs_at(s, "--"@, i),
    decreases s.len(),
{
    reveal_strlit("--");
    if s.len() > 0 && !occurs_at(s, "--"@, 0) {
        let rest = s.drop_first();
        lemma_first_hyphens_at(rest);
        let n = first_hyphens(rest);
        assert forall|i: int| i >= 1 implies (#[trigger] occurs_at(s, "--"@, i) <==> occurs_at(
            rest,
            "--"@,
            i - 1,
        )) by {
            if i - 1 + 2 <= rest.len() {
                assert(s.subrange(i, i + 2) =~= rest.subrange(i - 1, i + 1));
            }
        }
    }
}

/// Every candidate is that of one file of the cache: its URL names the repository of
/// the directory that the file is in and the file, its revision is the commit that
/// the file is in, and its path is that of the real file.
pub proof fn law_candidate_is_of_its_file(entries: Seq<CacheEntry>, i: int) -> (at: (int, int, int))
    requires
        0 <= i < candidates_of(entries).len(),
    ensures
        0 <= at.0 < entries.len(),
        0 <= at.1 < entries[at.0].commits@.len(),
        0 <= at.2 < entries[at.0].commits@[at.1].files@.len(),
        ({
            let commit = entries[at.0].commits@[at.1];
            let file = commit.files@[at.2];
            let found = candidates_of(entries)[i];
            &&& commit.is_dir
            &&& is_gguf_name(file.name@)
            &&& file.resolved == Some(found.file_path)
            &&& found.revision == commit.name@
            &&& repo_named(entries[at.0].name@) matches Some((owner, repo)) && found.gguf_url
                == seq!['g', 'g', 'u', 'f', ':', '/', '/'] + owner + seq!['/'] + repo + seq!['/']
                + file.name@
        }),
{
    let at = law_nothing_else_is_found(entries, i);
    let (owner, repo) = repo_named(entries[at.0].name@)->0;
    let file = entries[at.0].commits@[at.1].files@[at.2];
    law_url_spells_the_file(owner, repo, file.name@, file.name@);
    at
}

/// Every file with a seedable name and a real file behind it, in a commit directory
/// of a directory that stands for a repository, makes a candidate with its path, its
/// commit, and its URL.
pub proof fn law_file_makes_a_candidate(entries: Seq<CacheEntry>, e: int, c: int, f: int)
    requires
        0 <= e < entries.len(),
        repo_named(entries[e].name@) is Some,
        0 <= c < entries[e].commits@.len(),
        entries[e].commits@[c].is_dir,
        0 <= f < entries[e].commits@[c].files@.len(),
        is_gguf_name(entries[e].commits@[c].files@[f].name@),
        entries[e].commits@[c].files@[f].resolved is Some,
    ensures
        ({
            let (owner, repo) = repo_named(entries[e].name@)->0;
            let file = entries[e].commits@[c].files@[f];
            candidates_of(entries).contains(
                CandidateModel {
                    gguf_url: seq!['g', 'g', 'u', 'f', ':', '/', '/'] + owner + seq!['/'] + repo
                        + seq!['/'] + file.name@,
                    revision: entries[e].commits@[c].name@,
                    file_path: file.resolved->0,
                },
            )
        }),
{
    let (owner, repo) = repo_named(entries[e].name@)->0;
    let file = entries[e].commits@[c].files@[f];
    law_every_file_is_found(entries, e, c, f);
    law_url_spells_the_file(owner, repo, file.name@, file.name@);
}

/// The scan goes through the directories one by one, so it finds in two lists of them
/// what it finds in the first, and then what it finds in the second.
pub proof fn law_scan_goes_in_order(a: Seq<CacheEntry>, b: Seq<CacheEntry>)
    ensures
        candidates_of(a + b) == candidates_of(a) + candidates_of(b),
    decreases b.len(),
{
    if b.len() == 0 {
        assert(a + b =~= a);
        assert(candidates_of(a) + candidates_of(b) =~= candidates_of(a));
    } else {
        assert((a + b).drop_last() =~= a + b.drop_last());
        assert((a + b).last() == b.last());
        law_scan_goes_in_order(a, b.drop_last());
        assert(candidates_of(a + b) =~= candidates_of(a) + candidates_of(b));
    }
}

/// So it goes through the commits of a directory, and through the files of a commit.
pub proof fn law_scan_goes_in_order_below(
    repo: (Seq<char>, Seq<char>),
    revision: Seq<char>,
    commits_a: Seq<CacheCommit>,
    commits_b: Seq<CacheCommit>,
    files_a: Seq<CacheFile>,
    files_b: Seq<CacheFile>,
)
    ensures
        candidates_of_commits(repo, commits_a + commits_b) == candidates_of_commits(repo, commits_a)
            + candidates_of_commits(repo, commits_b),
        candidates_of_files(repo, revision, files_a + files_b) == candidates_of_files(
            repo,
            revision,
            files_a,
        ) + candidates_of_files(repo, revision, files_b),
    decreases commits_b.len() + files_b.len(),
{
    let none_c = Seq::<CacheCommit>::empty();
    let none_f = Seq::<CacheFile>::empty();
    if commits_b.len() == 0 {
        assert(commits_a + commits_b =~= commits_a);
        assert(candidates_of_commits(repo, commits_a) + candidates_of_commits(repo, commits_b)
            =~= candidates_of_commits(repo, commits_a));
    } else {
        assert((commits_a + commits_b).drop_last() =~= commits_a + commits_b.drop_last());
        law_scan_goes_in_order_below(
            repo,
            revision,
            commits_a,
            commits_b.drop_last(),
            none_f,
            none_f,
        );
        assert(candidates_of_commits(repo, commits_a + commits_b) =~= candidates_of_commits(
            repo,
            commits_a,
        ) + candidates_of_commits(repo, commits_b));
    }
    if files_b.len() == 0 {
        assert(files_a + files_b =~= files_a);
        assert(candidates_of_files(repo, revision, files_a) + candidates_of_files(
            repo,
            revision,
            files_b,
        ) =~= candidates_of_files(repo, revision, files_a));
    } else {
        assert((files_a + files_b).drop_last() =~= files_a + files_b.drop_last());
        law_scan_goes_in_order_below(repo, revision, none_c, none_c, files_a, files_b.drop_last());
        assert(candidates_of_files(repo, revision, files_a + files_b) =~= candidates_of_files(
            repo,
            revision,
            files_a,
        ) + candidates_of_files(repo, revision, files_b));
    }
}

/// The scan finds each file once: one directory with one commit has as many
/// candidates as the commit has files that can be seeded, in their order.
pub proof fn law_each_file_is_found_once(entry: CacheEntry, files: Seq<CacheFile>)
    requires
        repo_named(entry.name@) is Some,
        entry.commits@.len() == 1,
        entry.commits@[0].is_dir,
        entry.commits@[0].files@ == files,
    ensures
        ({
            let (owner, repo) = repo_named(entry.name@)->0;
            let seeded = files.filter(|f: CacheFile| is_gguf_name(f.name@) && f.resolved is Some);
            let found = candidates_of(seq![entry]);
            &&& found.len() == seeded.len()
            &&& forall|i: int|
                0 <= i < found.len() ==> (#[trigger] found[i]).file_path == seeded[i].resolved->0
                    && found[i].gguf_url == gguf_url_of(owner, repo, seeded[i].name@)
                    && found[i].revision == entry.commits@[0].name@
        }),
{
    let repo = repo_named(entry.name@)->0;
    let commit = entry.commits@[0];
    reveal_with_fuel(candidates_of, 2);
    reveal_with_fuel(candidates_of_commits, 2);
    assert(seq![entry].drop_last() =~= Seq::<CacheEntry>::empty());
    assert(entry.commits@.drop_last() =~= Seq::<CacheCommit>::empty());
    let of_files = candidates_of_files(repo, commit.name@, files);
    assert(candidates_of_commits(repo, entry.commits@) =~= of_files);
    assert(candidates_of(seq![entry]) =~= of_files);
    lemma_files_found_once(repo, commit.name@, files);
}

/// The files of a snapshot are found one by one.
proof fn lemma_files_found_once(
    repo: (Seq<char>, Seq<char>),
    revision: Seq<char>,
    files: Seq<CacheFile>,
)
    ensures
        ({
            let seeded = files.filter(|f: CacheFile| is_gguf_name(f.name@) && f.resolved is Some);
            let found = candidates_of_files(repo, revision, files);
            &&& found.len() == seeded.len()
            &&& forall|i: int|
                0 <= i < found.len() ==> (#[trigger] found[i]).file_path == seeded[i].resolved->0
                    && found[i].gguf_url == gguf_url_of(repo.0, repo.1, seeded[i].name@)
                    && found[i].revision == revision
        }),
    decreases files.len(),
{
    reveal(Seq::filter);
    if files.len() > 0 {
        lemma_files_found_once(repo, revision, files.drop_last());
    }
}

/// Every candidate's URL is one that the GGUF backend rewrites, and names a GGUF
/// file.
pub proof fn law_candidates_are_gguf(entries: Seq<CacheEntry>, i: int)
    requires
        0 <= i < candidates_of(entries).len(),
    ensures
        hf_url(candidates_of(entries)[i].gguf_url) is Some,
        is_gguf_path(candidates_of(entries)[i].gguf_url),
{
    let at = law_nothing_else_is_found(entries, i);
    let repo = repo_named(entries[at.0].name@)->0;
    let name = entries[at.0].commits@[at.1].files@[at.2].name@;
    let url = gguf_url_of(repo.0, repo.1, name);
    reveal_strlit("gguf://");
    reveal_strlit("gguf");
    reveal_strlit("://");
    reveal_strlit(".gguf");
    let prefix = "gguf"@ + "://"@;
    assert(prefix =~= "gguf://"@);
    assert(url.subrange(0, 7) =~= "gguf://"@);
    let lower = ascii_lower(url);
    let n = url.len() - 5;
    let m = name.len() - 5;
    assert(name.subrange(m, m + 5) =~= ".gguf"@);
    assert forall|k: int| 0 <= k < 5 implies lower[n + k] == ".gguf"@[k] by {
        assert(url[n + k] == name[m + k]);
        assert(name.subrange(m, m + 5)[k] == name[m + k]);
    }
    assert(lower.subrange(n, n + 5) =~= ".gguf"@);
}

} // verus!
