//! Best-effort update / announcement notice for dfget.
//!
//! On a successful run, dfget fetches a small JSON file and, if it advertises a
//! newer version or carries an announcement, prints it to stderr. The notice can
//! never break a download: a failed fetch says nothing, a fetched notice is kept
//! so that at most one fetch happens per `CACHE_TTL_SECS`, and the check can be
//! disabled by a flag or an environment variable.

use std::path::PathBuf;
use vstd::prelude::*;

use crate::dfget::version::{is_newer, version_newer};
use crate::paths::{Base, Place};
use crate::text::{lines, lines_of, opt_view, trim, trimmed, views};

verus! {

/// URL of the published notice file.
pub const NOTICE_URL: &'static str =
    "https://raw.githubusercontent.com/JustDory/dragonfly-gguf-client/main/notice.json";

/// Version of the running binary.
pub const CURRENT_VERSION: &'static str = "1.3.12";

/// How many seconds a fetched notice is trusted before the network is asked again.
pub const CACHE_TTL_SECS: u64 = 86_400;

/// How many seconds the notice fetch may take.
pub const FETCH_TIMEOUT_SECS: u64 = 2;

/// Environment variable that disables the update check (any non-empty value).
pub const DISABLE_ENV: &'static str = "DRAGONFLY_NO_UPDATE_NOTICE";

/// Notice is the schema of the remote `notice.json`. Every field is optional so the
/// project can publish a version bump, a free-form announcement, or both.
#[derive(Debug)]
pub struct Notice {
    /// Latest released version, e.g. "1.4.0". If newer than the running binary, an
    /// upgrade hint is shown.
    pub latest_version: Option<String>,
    /// Free-form announcement shown verbatim (e.g. "v1.4 adds NAT-traversal P2P").
    pub message: Option<String>,
    /// Where users should go to learn more or upgrade.
    pub url: Option<String>,
}

/// The texts of a notice.
#[verifier::ext_equal]
pub struct NoticeModel {
    pub latest_version: Option<Seq<char>>,
    pub message: Option<Seq<char>>,
    pub url: Option<Seq<char>>,
}

impl View for Notice {
    type V = NoticeModel;

    open spec fn view(&self) -> NoticeModel {
        NoticeModel {
            latest_version: opt_view(self.latest_version),
            message: opt_view(self.message),
            url: opt_view(self.url),
        }
    }
}

impl Clone for Notice {
    fn clone(&self) -> (copy: Self)
        ensures
            copy@ == self@,
    {
        Notice {
            latest_version: self.latest_version.clone(),
            message: self.message.clone(),
            url: self.url.clone(),
        }
    }
}

impl Default for Notice {
    fn default() -> (empty: Self)
        ensures
            empty@ == (NoticeModel { latest_version: None, message: None, url: None }),
    {
        Notice { latest_version: None, message: None, url: None }
    }
}

/// CachedNotice wraps a fetched notice together with the time it was fetched so
/// that `CACHE_TTL_SECS` is honoured between runs.
#[derive(Debug)]
pub struct CachedNotice {
    pub fetched_at_secs: u64,
    pub notice: Notice,
}

impl Clone for CachedNotice {
    fn clone(&self) -> (copy: Self)
        ensures
            copy.fetched_at_secs == self.fetched_at_secs,
            copy.notice@ == self.notice@,
    {
        CachedNotice { fetched_at_secs: self.fetched_at_secs, notice: self.notice.clone() }
    }
}

/// The lines that tell of a newer version and of where to get it.
pub open spec fn upgrade_lines(latest: Option<Seq<char>>, url: Option<Seq<char>>) -> Seq<
    Seq<char>,
> {
    match latest {
        Some(v) if version_newer(v, CURRENT_VERSION@) => {
            let first = seq![
                "A new version of dfget is available: "@ + CURRENT_VERSION@ + " -> "@ + v,
            ];
            match url {
                Some(u) if trimmed(u).len() > 0 => first.push("Upgrade: "@ + trimmed(u)),
                _ => first,
            }
        },
        _ => Seq::empty(),
    }
}

/// The lines that a notice shows.
pub open spec fn notice_lines(n: NoticeModel) -> Seq<Seq<char>> {
    (match n.message {
        Some(m) => lines_of(trimmed(m)),
        None => Seq::empty(),
    }) + upgrade_lines(n.latest_version, n.url)
}

/// Builds the lines to display, if any, from a notice.
pub fn collect_lines(notice: &Notice) -> (out: Vec<String>)
    ensures
        views(out@) == notice_lines(notice@),
{
    let mut out: Vec<String> = match &notice.message {
        Some(message) => lines(trim(message.as_str()).as_str()),
        None => Vec::new(),
    };
    let ghost said = views(out@);
    assert(notice.message is None ==> said =~= Seq::<Seq<char>>::empty());
    if let Some(latest) = &notice.latest_version {
        if is_newer(latest.as_str(), CURRENT_VERSION) {
            let mut line = String::new();
            line.append("A new version of dfget is available: ");
            line.append(CURRENT_VERSION);
            line.append(" -> ");
            line.append(latest.as_str());
            assert(line@ =~= "A new version of dfget is available: "@ + CURRENT_VERSION@ + " -> "@
                + latest@);
            out.push(line);
            assert(views(out@) =~= said.push(line@));
            if let Some(url) = &notice.url {
                let url = trim(url.as_str());
                if !url.as_str().is_empty() {
                    let mut hint = String::new();
                    hint.append("Upgrade: ");
                    hint.append(url.as_str());
                    assert(hint@ =~= "Upgrade: "@ + url@);
                    out.push(hint);
                    assert(views(out@) =~= said.push(line@).push(hint@));
                }
            }
        }
    }
    assert(views(out@) =~= notice_lines(notice@));
    out
}

/// The notice as it is printed: a boxed block, coloured where it goes to a terminal.
pub open spec fn rendered(lines: Seq<Seq<char>>, terminal: bool) -> Seq<Seq<char>> {
    let on = if terminal {
        "\x1b[1;33m"@
    } else {
        ""@
    };
    let off = if terminal {
        "\x1b[0m"@
    } else {
        ""@
    };
    seq![""@, on + "╭─ dragonfly-gguf notice ─────────────────────────────╮"@ + off]
        + lines.map_values(|line: Seq<char>| on + "│"@ + off + " "@ + line) + seq![
        on + "╰─────────────────────────────────────────────────────╯"@ + off,
    ]
}

/// The text between the switches that colour it.
fn coloured(on: &str, text: &str, off: &str) -> (out: String)
    ensures
        out@ == on@ + text@ + off@,
{
    let mut out = String::new();
    out.append(on);
    out.append(text);
    out.append(off);
    assert(out@ =~= on@ + text@ + off@);
    out
}

/// Renders the notice as the lines of a boxed block, with a touch of colour on a
/// terminal.
pub fn render(lines: &Vec<String>, terminal: bool) -> (out: Vec<String>)
    ensures
        views(out@) == rendered(views(lines@), terminal),
{
    let on = if terminal {
        "\x1b[1;33m"
    } else {
        ""
    };
    let off = if terminal {
        "\x1b[0m"
    } else {
        ""
    };
    let ghost shown = views(lines@).map_values(|line: Seq<char>| on@ + "│"@ + off@ + " "@ + line);
    let mut out: Vec<String> = Vec::new();
    out.push("".to_owned());
    out.push(coloured(on, "╭─ dragonfly-gguf notice ─────────────────────────────╮", off));
    let ghost head = views(out@);
    assert(head =~= seq![
        ""@,
        on@ + "╭─ dragonfly-gguf notice ─────────────────────────────╮"@ + off@,
    ]);
    assert(views(out@) =~= head + shown.take(0));
    for i in 0..lines.len()
        invariant
            shown == views(lines@).map_values(
                |line: Seq<char>| on@ + "│"@ + off@ + " "@ + line,
            ),
            views(out@) == head + shown.take(i as int),
    {
        let mut line = coloured(on, "│", off);
        line.append(" ");
        line.append(lines[i].as_str());
        assert(line@ =~= shown[i as int]);
        let ghost before = views(out@);
        out.push(line);
        assert(views(out@) =~= before.push(line@));
        assert(views(out@) =~= head + shown.take(i + 1));
    }
    let last = coloured(on, "╰─────────────────────────────────────────────────────╯", off);
    let ghost before = views(out@);
    out.push(last);
    assert(views(out@) =~= before.push(last@));
    assert(shown.take(shown.len() as int) =~= shown);
    assert(views(out@) =~= rendered(views(lines@), terminal));
    out
}

/// Whether the environment variable, as its bytes, disables the update check.
pub fn env_disabled(value: Option<&Vec<u8>>) -> (yes: bool)
    ensures
        yes <==> (value matches Some(v) && v.len() > 0),
{
    match value {
        Some(v) => v.len() > 0,
        None => false,
    }
}

/// Where the local notice cache file is: below the home directory, or below the
/// directory for temporary files where there is no home.
pub fn cache_path(home: Option<PathBuf>) -> (place: Place)
    ensures
        match home {
            Some(h) => place.is(
                Base::Dir(h),
                seq![".cache"@, "dragonfly"@, "gguf-update-notice.json"@],
            ),
            None => place.is(Base::MachineTemp, seq!["gguf-update-notice.json"@]),
        },
{
    let mut names: Vec<String> = Vec::new();
    let base = match home {
        Some(h) => {
            names.push(".cache".to_owned());
            names.push("dragonfly".to_owned());
            Base::Dir(h)
        },
        None => Base::MachineTemp,
    };
    names.push("gguf-update-notice.json".to_owned());
    assert(home is Some ==> views(names@) =~= seq![
        ".cache"@,
        "dragonfly"@,
        "gguf-update-notice.json"@,
    ]);
    assert(home is None ==> views(names@) =~= seq!["gguf-update-notice.json"@]);
    Place { base, names }
}

/// A notice that was fetched at `fetched` may still be shown at `now`.
pub open spec fn is_fresh(fetched: u64, now: u64) -> bool {
    now - fetched <= CACHE_TTL_SECS
}

/// The cached notice, where there is one and it is still within `CACHE_TTL_SECS`.
pub fn fresh_cache(cached: Option<CachedNotice>, now: u64) -> (notice: Option<Notice>)
    ensures
        match cached {
            Some(c) => notice == if is_fresh(c.fetched_at_secs, now) {
                Some(c.notice)
            } else {
                None
            },
            None => notice is None,
        },
{
    match cached {
        Some(c) => if now.saturating_sub(c.fetched_at_secs) <= CACHE_TTL_SECS {
            Some(c.notice)
        } else {
            None
        },
        None => None,
    }
}

/// What the update check does next.
pub enum NoticeStep {
    /// Nothing more.
    Stop,
    /// Fetch the notice.
    Fetch,
    /// Show these lines.
    Show(Vec<String>),
}

/// The step shows the lines of the notice, or stops where it has none.
pub open spec fn shows(step: NoticeStep, n: NoticeModel) -> bool {
    match step {
        NoticeStep::Show(lines) => views(lines@) == notice_lines(n) && lines.len() > 0,
        NoticeStep::Stop => notice_lines(n).len() == 0,
        NoticeStep::Fetch => false,
    }
}

/// Shows a notice, where it has something to say.
fn show(notice: &Notice) -> (step: NoticeStep)
    ensures
        shows(step, notice@),
{
    let lines = collect_lines(notice);
    assert(views(lines@).len() == lines.len());
    if lines.len() == 0 {
        NoticeStep::Stop
    } else {
        NoticeStep::Show(lines)
    }
}

/// The first step of the update check: nothing where a flag or the environment
/// disables it, the cached notice while it is fresh, and a fetch otherwise.
pub fn first_step(
    disabled: bool,
    env_value: Option<&Vec<u8>>,
    cached: Option<CachedNotice>,
    now: u64,
) -> (step: NoticeStep)
    ensures
        disabled || (env_value matches Some(v) && v.len() > 0) ==> step is Stop,
        !disabled && !(env_value matches Some(v) && v.len() > 0) ==> match cached {
            Some(c) => if is_fresh(c.fetched_at_secs, now) {
                shows(step, c.notice@)
            } else {
                step is Fetch
            },
            None => step is Fetch,
        },
{
    if disabled || env_disabled(env_value) {
        return NoticeStep::Stop;
    }
    match fresh_cache(cached, now) {
        Some(notice) => show(&notice),
        None => NoticeStep::Fetch,
    }
}

/// The step after a fetch at second `now`, and what to keep in the cache: a notice
/// that came is kept and shown, a failed fetch says nothing.
pub fn after_fetch(fetched: Option<Notice>, now: u64) -> (next: (
    NoticeStep,
    Option<CachedNotice>,
))
    ensures
        match fetched {
            Some(n) => shows(next.0, n@) && (next.1 matches Some(c) && c.fetched_at_secs == now
                && c.notice@ == n@),
            None => next.0 is Stop && next.1 is None,
        },
{
    match fetched {
        Some(notice) => {
            let step = show(&notice);
            (step, Some(CachedNotice { fetched_at_secs: now, notice }))
        },
        None => (NoticeStep::Stop, None),
    }
}

/// A notice that was fetched at `fetched` is shown without another fetch until
/// `CACHE_TTL_SECS` have passed, also by a clock that was set back; after that it
/// is not.
pub proof fn law_one_fetch_per_ttl(fetched: u64, now: u64)
    ensures
        now <= fetched + CACHE_TTL_SECS ==> is_fresh(fetched, now),
        now > fetched + CACHE_TTL_SECS ==> !is_fresh(fetched, now),
{
}

/// A notice without a message shows nothing unless its version is newer.
pub proof fn law_silent_unless_newer(n: NoticeModel)
    requires
        n.message is None || trimmed(n.message->0).len() == 0,
        n.latest_version is None || !version_newer(n.latest_version->0, CURRENT_VERSION@),
    ensures
        notice_lines(n).len() == 0,
{
}

/// A notice shows its message first, line by line and without the white space around
/// it, and then, where its version is newer than the running one, which version that
/// is, and where to get it if it says so.
pub proof fn law_what_a_notice_shows(n: NoticeModel)
    ensures
        ({
            let said: Seq<Seq<char>> = if n.message is Some {
                lines_of(trimmed(n.message->0))
            } else {
                Seq::empty()
            };
            let newer = n.latest_version is Some && version_newer(n.latest_version->0, "1.3.12"@);
            let link = n.url is Some && trimmed(n.url->0).len() > 0;
            let shown = notice_lines(n);
            &&& shown.take(said.len() as int) == said
            &&& shown.len() == said.len() + if newer && link {
                2nat
            } else if newer {
                1nat
            } else {
                0nat
            }
            &&& newer ==> shown[said.len() as int]
                == "A new version of dfget is available: 1.3.12 -> "@ + n.latest_version->0
            &&& newer && link ==> shown[said.len() as int + 1] == "Upgrade: "@ + trimmed(n.url->0)
        }),
{
    let said: Seq<Seq<char>> = if n.message is Some {
        lines_of(trimmed(n.message->0))
    } else {
        Seq::empty()
    };
    let shown = notice_lines(n);
    assert(shown =~= said + upgrade_lines(n.latest_version, n.url));
    assert(shown.take(said.len() as int) =~= said);
    if n.latest_version is Some {
        let v = n.latest_version->0;
        reveal_strlit("A new version of dfget is available: ");
        reveal_strlit("1.3.12");
        reveal_strlit(" -> ");
        reveal_strlit("A new version of dfget is available: 1.3.12 -> ");
        assert("A new version of dfget is available: "@ + "1.3.12"@ + " -> "@
            =~= "A new version of dfget is available: 1.3.12 -> "@);
    }
}

/// A printed notice is a box around its lines: an empty line, the top, each line
/// behind a bar and a space, in their order, and the bottom; plain where it does not
/// go to a terminal, and with the box in colour where it does.
pub proof fn law_box_around_the_lines(lines: Seq<Seq<char>>, terminal: bool)
    ensures
        ({
            let out = rendered(lines, terminal);
            let n = lines.len() as int;
            &&& out.len() == n + 3
            &&& out[0].len() == 0
            &&& forall|i: int|
                0 <= i < n ==> #[trigger] out[i + 2] == if terminal {
                    "\x1b[1;33m│\x1b[0m "@ + lines[i]
                } else {
                    "│ "@ + lines[i]
                }
            &&& !terminal ==> out[1] == "╭─ dragonfly-gguf notice ─────────────────────────────╮"@
                && out[n + 2] == "╰─────────────────────────────────────────────────────╯"@
            &&& terminal ==> out[1]
                == "\x1b[1;33m"@ + "╭─ dragonfly-gguf notice ─────────────────────────────╮"@
                + "\x1b[0m"@ && out[n + 2]
                == "\x1b[1;33m"@ + "╰─────────────────────────────────────────────────────╯"@
                + "\x1b[0m"@
        }),
{
    reveal_strlit("");
    reveal_strlit("\x1b[1;33m");
    reveal_strlit("\x1b[0m");
    reveal_strlit("│");
    reveal_strlit(" ");
    reveal_strlit("│ ");
    reveal_strlit("\x1b[1;33m│\x1b[0m ");
    let (on, off) = if terminal {
        ("\x1b[1;33m"@, "\x1b[0m"@)
    } else {
        (""@, ""@)
    };
    let bar = if terminal {
        "\x1b[1;33m│\x1b[0m "@
    } else {
        "│ "@
    };
    let out = rendered(lines, terminal);
    assert(on + "│"@ + off + " "@ =~= bar);
    assert forall|i: int| 0 <= i < lines.len() implies #[trigger] out[i + 2] == bar + lines[i] by {
        assert(out[i + 2] == on + "│"@ + off + " "@ + lines[i]);
    }
    if !terminal {
        let top = "╭─ dragonfly-gguf notice ─────────────────────────────╮"@;
        let bottom = "╰─────────────────────────────────────────────────────╯"@;
        assert(""@ + top + ""@ =~= top);
        assert(""@ + bottom + ""@ =~= bottom);
    }
}

/// A cached notice is good for 86400 seconds after it was fetched, the last of them
/// too.
pub proof fn law_cache_is_good_for_a_day(fetched: u64, now: u64)
    ensures
        is_fresh(fetched, now) <==> now <= fetched + 86_400,
{
}

/// A notice that has something to say is shown, with all its lines, and one that has
/// not is not; neither asks for another fetch.
pub proof fn law_notice_is_shown(step: NoticeStep, n: NoticeModel)
    requires
        shows(step, n),
    ensures
        step is Show <==> notice_lines(n).len() > 0,
        step is Stop <==> notice_lines(n).len() == 0,
        step matches NoticeStep::Show(lines) ==> views(lines@) == notice_lines(n),
{
    if let NoticeStep::Show(lines) = step {
        assert(views(lines@).len() == lines@.len());
    }
}

} // verus!
