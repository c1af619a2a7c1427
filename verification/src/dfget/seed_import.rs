//! `dfget seed-import`: what it says of the files of a local model cache that it
//! registers as seeds.

use vstd::prelude::*;

use crate::p2p::content_key::{content_key, content_key_text};
use crate::p2p::seed_import::SeedCandidate;
use crate::text::{chars_of, decimal, push_decimal, push_range, views};
use crate::tracker::routes::is_content_key;

verus! {

/// What came of a candidate.
pub enum Outcome {
    /// Nothing was written; this is how the path of the file is shown.
    DryRun(String),
    /// The seed is registered.
    Registered,
    /// The seed could not be registered, for this reason.
    Failed(String),
}

/// The number of outcomes that are no failures.
pub open spec fn registered(outcomes: Seq<Outcome>) -> nat
    decreases outcomes.len(),
{
    if outcomes.len() == 0 {
        0
    } else {
        registered(outcomes.drop_last()) + if outcomes.last() is Failed {
            0nat
        } else {
            1nat
        }
    }
}

/// The key that peers find a candidate's file under.
pub fn candidate_key(candidate: &SeedCandidate) -> (key: String)
    ensures
        key@ == content_key_text(candidate.gguf_url@, candidate.revision@, None),
        is_content_key(key@),
{
    content_key(candidate.gguf_url.as_str(), candidate.revision.as_str(), None)
}

/// What is to be done about a candidate.
pub enum ImportStep {
    /// Show it under this key, and write nothing.
    Show { shown_key: String },
    /// Register it as a seed under this key.
    Register { key: String },
}

/// What is to be done about a candidate: a dry run registers nothing, any other run
/// registers every candidate.
pub fn import_step(dry_run: bool, candidate: &SeedCandidate) -> (step: ImportStep)
    ensures
        step is Show <==> dry_run,
        !dry_run ==> step is Register && step->key@ == content_key_text(
            candidate.gguf_url@,
            candidate.revision@,
            None,
        ) && is_content_key(step->key@),
        dry_run ==> step->shown_key@ == content_key_text(
            candidate.gguf_url@,
            candidate.revision@,
            None,
        ) && is_content_key(step->shown_key@),
{
    let key = candidate_key(candidate);
    if dry_run {
        ImportStep::Show { shown_key: key }
    } else {
        ImportStep::Register { key }
    }
}

/// What is said first.
pub fn scanning_text(dir: &str) -> (text: String)
    ensures
        text@ == "Scanning "@ + dir@ + " …"@,
{
    let mut text = String::new();
    text.append("Scanning ");
    text.append(dir);
    text.append(" …");
    assert(text@ =~= "Scanning "@ + dir@ + " …"@);
    text
}

/// What is said of the number of candidates.
pub open spec fn found_line(dir: Seq<char>, candidates: nat) -> Seq<char> {
    if candidates == 0 {
        "No .gguf files found in "@ + dir
    } else {
        "Found "@ + decimal(candidates) + " .gguf file(s):\n"@
    }
}

/// What is said of the number of candidates.
pub fn found_text(dir: &str, candidates: usize) -> (text: String)
    ensures
        text@ == found_line(dir@, candidates as nat),
{
    let mut text = String::new();
    if candidates == 0 {
        text.append("No .gguf files found in ");
        text.append(dir);
    } else {
        text.append("Found ");
        push_decimal(&mut text, candidates as u64);
        text.append(" .gguf file(s):\n");
    }
    assert(text@ =~= found_line(dir@, candidates as nat));
    text
}

/// What is said of a candidate.
pub open spec fn outcome_line(
    url: Seq<char>,
    revision: Seq<char>,
    key: Seq<char>,
    outcome: Outcome,
) -> Seq<char> {
    match outcome {
        Outcome::DryRun(path) => "  [dry-run] "@ + url + "\n    rev:  "@ + revision
            + "\n    path: "@ + path@ + "\n    key:  "@ + key.take(8) + "…\n"@,
        Outcome::Registered => "  ✓ "@ + url + " ("@ + key.take(8) + "…)"@,
        Outcome::Failed(e) => "  ✗ "@ + url + ": "@ + e@,
    }
}

/// What is said of a candidate with this key.
pub fn outcome_text(candidate: &SeedCandidate, key: &str, outcome: &Outcome) -> (text: String)
    requires
        is_content_key(key@),
    ensures
        text@ == outcome_line(candidate.gguf_url@, candidate.revision@, key@, *outcome),
{
    let v = chars_of(key);
    assert(v@.subrange(0, 8) =~= key@.take(8));
    let mut text = String::new();
    match outcome {
        Outcome::DryRun(path) => {
            text.append("  [dry-run] ");
            text.append(candidate.gguf_url.as_str());
            text.append("\n    rev:  ");
            text.append(candidate.revision.as_str());
            text.append("\n    path: ");
            text.append(path.as_str());
            text.append("\n    key:  ");
            push_range(&mut text, &v, 0, 8);
            text.append("…\n");
        },
        Outcome::Registered => {
            text.append("  ✓ ");
            text.append(candidate.gguf_url.as_str());
            text.append(" (");
            push_range(&mut text, &v, 0, 8);
            text.append("…)");
        },
        Outcome::Failed(e) => {
            text.append("  ✗ ");
            text.append(candidate.gguf_url.as_str());
            text.append(": ");
            text.append(e.as_str());
        },
    }
    assert(text@ =~= outcome_line(candidate.gguf_url@, candidate.revision@, key@, *outcome));
    text
}

/// The last lines: how many seeds are registered and how many could not be, and
/// where the manifests are.
pub open spec fn summary_lines(dry_run: bool, ok: nat, failed: nat, dir: Seq<char>) -> Seq<
    Seq<char>,
> {
    if dry_run {
        seq![
            ""@,
            decimal(ok) + " file(s) would be registered (--dry-run, nothing written)"@,
        ]
    } else {
        seq![
            ""@,
            decimal(ok) + " seed(s) registered"@ + if failed > 0 {
                ", "@ + decimal(failed) + " failed"@
            } else {
                Seq::empty()
            },
        ] + if ok > 0 {
            seq![
                "\nManifests written to "@ + dir,
                "A running dfdaemon will pick them up within ~30 seconds and begin announcing."@,
            ]
        } else {
            Seq::empty()
        }
    }
}

/// The last lines, given what came of the candidates and how the registry
/// directory is shown.
pub fn summary(dry_run: bool, outcomes: &Vec<Outcome>, dir: &str) -> (lines: Vec<String>)
    ensures
        views(lines@) == summary_lines(
            dry_run,
            registered(outcomes@),
            (outcomes.len() - registered(outcomes@)) as nat,
            dir@,
        ),
{
    let ghost s = outcomes@;
    let mut ok: usize = 0;
    for i in 0..outcomes.len()
        invariant
            s == outcomes@,
            ok <= i,
            ok == registered(s.take(i as int)),
    {
        assert(s.take(i + 1).drop_last() =~= s.take(i as int));
        match outcomes[i] {
            Outcome::Failed(_) => {},
            _ => {
                ok += 1;
            },
        }
    }
    assert(s.take(s.len() as int) =~= s);
    let failed: usize = outcomes.len() - ok;
    let mut lines: Vec<String> = Vec::new();
    lines.push("".to_owned());
    let mut line = String::new();
    push_decimal(&mut line, ok as u64);
    if dry_run {
        line.append(" file(s) would be registered (--dry-run, nothing written)");
        assert(line@ =~= decimal(ok as nat)
            + " file(s) would be registered (--dry-run, nothing written)"@);
        lines.push(line);
    } else {
        line.append(" seed(s) registered");
        if failed > 0 {
            line.append(", ");
            push_decimal(&mut line, failed as u64);
            line.append(" failed");
        }
        assert(line@ =~= decimal(ok as nat) + " seed(s) registered"@ + if failed > 0 {
            ", "@ + decimal(failed as nat) + " failed"@
        } else {
            Seq::empty()
        });
        lines.push(line);
        if ok > 0 {
            let mut place = String::new();
            place.append("\nManifests written to ");
            place.append(dir);
            assert(place@ =~= "\nManifests written to "@ + dir@);
            lines.push(place);
            lines.push(
                "A running dfdaemon will pick them up within ~30 seconds and begin announcing.".to_owned(),
            );
        }
    }
    assert(views(lines@) =~= summary_lines(dry_run, ok as nat, failed as nat, dir@));
    lines
}

/// What is summed up: every candidate counts once, as registered or as failed, in
/// whatever order they come.
pub proof fn law_every_outcome_counts_once(a: Seq<Outcome>, b: Seq<Outcome>, o: Outcome)
    ensures
        registered(Seq::empty()) == 0,
        registered(seq![o]) == if o is Failed {
            0nat
        } else {
            1nat
        },
        registered(a + b) == registered(a) + registered(b),
        registered(a) <= a.len(),
    decreases a.len() + b.len(),
{
    assert(seq![o].drop_last() =~= Seq::<Outcome>::empty());
    reveal_with_fuel(registered, 2);
    if b.len() > 0 {
        assert((a + b).drop_last() =~= a + b.drop_last());
        assert((a + b).last() == b.last());
        law_every_outcome_counts_once(a, b.drop_last(), o);
    } else {
        assert(a + b =~= a);
        if a.len() > 0 {
            law_every_outcome_counts_once(a.drop_last(), b, o);
        }
    }
}

/// What is said of a candidate names its URL in every case, the beginning of its key
/// unless it failed, the reason where it failed, and, where nothing was written, its
/// revision and its path.
pub proof fn law_outcome_names_its_candidate(
    url: Seq<char>,
    revision: Seq<char>,
    key: Seq<char>,
    path: String,
    reason: String,
)
    ensures
        outcome_line(url, revision, key, Outcome::DryRun(path)) == "  [dry-run] "@ + url
            + "\n    rev:  "@ + revision + "\n    path: "@ + path@ + "\n    key:  "@ + key.take(8)
            + "…\n"@,
        outcome_line(url, revision, key, Outcome::Registered) == "  ✓ "@ + url + " ("@ + key.take(8)
            + "…)"@,
        outcome_line(url, revision, key, Outcome::Failed(reason)) == "  ✗ "@ + url + ": "@
            + reason@,
{
}

/// The last lines: an empty one, then how many were or would be registered, and how
/// many failed if any did; where something was written, also where to.
pub proof fn law_last_lines(dry_run: bool, ok: nat, failed: nat, dir: Seq<char>)
    ensures
        ({
            let lines = summary_lines(dry_run, ok, failed, dir);
            &&& lines.len() == if !dry_run && ok > 0 {
                4nat
            } else {
                2nat
            }
            &&& lines[0].len() == 0
            &&& dry_run ==> lines[1] == decimal(ok)
                + " file(s) would be registered (--dry-run, nothing written)"@
            &&& !dry_run && failed == 0 ==> lines[1] == decimal(ok) + " seed(s) registered"@
            &&& !dry_run && failed > 0 ==> lines[1] == decimal(ok) + " seed(s) registered"@ + (", "@
                + decimal(failed) + " failed"@)
            &&& !dry_run && ok > 0 ==> lines[2] == "\nManifests written to "@ + dir
        }),
{
    reveal_strlit("");
    let lines = summary_lines(dry_run, ok, failed, dir);
    if !dry_run && failed == 0 {
        assert(lines[1] =~= decimal(ok) + " seed(s) registered"@);
    }
}

/// What is said of the scan: how many candidates were found, or that there is none in
/// the directory.
pub proof fn law_found_line(dir: Seq<char>, candidates: nat)
    ensures
        found_line(dir, 0) == "No .gguf files found in "@ + dir,
        candidates > 0 ==> found_line(dir, candidates) == "Found "@ + decimal(candidates)
            + " .gguf file(s):\n"@,
{
}

} // verus!
