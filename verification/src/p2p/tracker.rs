//! Client of the tracker: the requests that it takes and what its replies mean.

use vstd::prelude::*;

use crate::text::{ascii_lower, chars_of, lower_ascii, opt_str_view, opt_view, text_of};
use crate::tracker::routes::{AnnounceBody, LeaveBody};
use crate::tracker::store::MetaModel;

verus! {

/// The tracker that clients use unless they are told another.
pub const DEFAULT_TRACKER_URL: &'static str = "https://tracker.dragonfly-gguf.dev";

/// A peer that the tracker names as a provider of a file.
#[derive(Debug)]
pub struct PeerEntry {
    pub node_id: String,
    pub addr_info: String,
    pub last_seen: u64,
}

impl Clone for PeerEntry {
    fn clone(&self) -> (copy: Self)
        ensures
            copy.node_id@ == self.node_id@,
            copy.addr_info@ == self.addr_info@,
            copy.last_seen == self.last_seen,
    {
        PeerEntry {
            node_id: self.node_id.clone(),
            addr_info: self.addr_info.clone(),
            last_seen: self.last_seen,
        }
    }
}

/// Optional content metadata sent with an announce so the tracker (and any
/// registry UI on top of it) can describe what a content key actually is —
/// keys are one-way hashes, so this is the only self-describing channel.
/// All fields are optional; older trackers ignore unknown announce fields,
/// so sending metadata is always safe.
#[derive(Debug)]
pub struct FileMeta {
    pub filename: Option<String>,
    pub format: Option<String>,
    pub size: Option<u64>,
}

impl Clone for FileMeta {
    fn clone(&self) -> (copy: Self)
        ensures
            copy@ == self@,
    {
        FileMeta {
            filename: self.filename.clone(),
            format: self.format.clone(),
            size: self.size,
        }
    }
}

impl View for FileMeta {
    type V = MetaModel;

    open spec fn view(&self) -> MetaModel {
        MetaModel {
            filename: opt_view(self.filename),
            format: opt_view(self.format),
            size: self.size,
        }
    }
}

impl Default for FileMeta {
    fn default() -> (empty: Self)
        ensures
            empty@ == (MetaModel { filename: None, format: None, size: None }),
    {
        FileMeta { filename: None, format: None, size: None }
    }
}

impl FileMeta {
    /// Derives metadata from a local file: name and lowercased extension from
    /// the path, size from the filesystem (best-effort). What of it cannot be had
    /// as text, or at all, is left out.
    pub fn from_path(name: Option<&str>, extension: Option<&str>, size: Option<u64>) -> (meta: Self)
        ensures
            meta@ == (MetaModel {
                filename: opt_str_view(name),
                format: match extension {
                    Some(e) => Some(ascii_lower(e@)),
                    None => None,
                },
                size,
            }),
    {
        FileMeta {
            filename: match name {
                Some(n) => Some(n.to_owned()),
                None => None,
            },
            format: match extension {
                Some(e) => Some(lower_ascii(e)),
                None => None,
            },
            size,
        }
    }
}

/// A text without the slashes at its end.
pub open spec fn without_slashes(s: Seq<char>) -> Seq<char>
    decreases s.len(),
{
    if s.len() > 0 && s.last() == '/' {
        without_slashes(s.drop_last())
    } else {
        s
    }
}

/// A tracker, by its URL.
pub struct TrackerClient {
    url: String,
}

impl TrackerClient {
    /// The URL that the paths of the requests are appended to.
    pub closed spec fn base(self) -> Seq<char> {
        self.url@
    }

    /// A client of the tracker at `url`.
    pub fn new(url: String) -> (client: Self)
        ensures
            client.base() == without_slashes(url@),
    {
        let v = chars_of(url.as_str());
        let mut to: usize = v.len();
        assert(url@.take(to as int) =~= url@);
        while to > 0 && v[to - 1] == '/'
            invariant
                v@ == url@,
                to <= v.len(),
                without_slashes(url@) == without_slashes(url@.take(to as int)),
            decreases to,
        {
            assert(url@.take(to as int).drop_last() =~= url@.take(to - 1));
            to -= 1;
        }
        assert(url@.take(to as int) =~= v@.subrange(0, to as int));
        TrackerClient { url: text_of(&v, 0, to) }
    }

    /// The tracker's URL with a path behind it.
    fn at(&self, path: &str) -> (url: String)
        ensures
            url@ == self.base() + path@,
    {
        let mut url = String::new();
        url.append(self.url.as_str());
        url.append(path);
        assert(url@ =~= self.base() + path@);
        url
    }

    /// The URL to get the providers of a key from.
    pub fn get_peers(&self, content_key: &str) -> (url: String)
        ensures
            url@ == self.base() + "/peers?content_key="@ + content_key@,
    {
        let mut url = self.at("/peers?content_key=");
        url.append(content_key);
        url
    }

    /// The URL and the body to announce a file with.
    pub fn announce(&self, content_key: &str, node_id: &str, addr_info: &str) -> (request: (
        String,
        AnnounceBody,
    ))
        ensures
            request.0@ == self.base() + "/announce"@,
            request.1@.content_key == content_key@,
            request.1@.node_id == node_id@,
            request.1@.addr_info == addr_info@,
            request.1@.meta == (MetaModel { filename: None, format: None, size: None }),
    {
        self.announce_with_meta(content_key, node_id, addr_info, None)
    }

    /// The URL and the body to announce a file with, with optional content metadata
    /// (filename, format, size) so the tracker can list what this peer is actually
    /// seeding.
    pub fn announce_with_meta(
        &self,
        content_key: &str,
        node_id: &str,
        addr_info: &str,
        meta: Option<&FileMeta>,
    ) -> (request: (String, AnnounceBody))
        ensures
            request.0@ == self.base() + "/announce"@,
            request.1@.content_key == content_key@,
            request.1@.node_id == node_id@,
            request.1@.addr_info == addr_info@,
            request.1@.meta == match meta {
                Some(m) => m@,
                None => MetaModel { filename: None, format: None, size: None },
            },
    {
        let (filename, format, size) = match meta {
            Some(m) => (m.filename.clone(), m.format.clone(), m.size),
            None => (None, None, None),
        };
        let body = AnnounceBody {
            content_key: content_key.to_owned(),
            node_id: node_id.to_owned(),
            addr_info: addr_info.to_owned(),
            filename,
            format,
            size,
        };
        (self.at("/announce"), body)
    }

    /// The URL and the body to leave the providers of a key with.
    pub fn leave(&self, content_key: &str, node_id: &str) -> (request: (String, LeaveBody))
        ensures
            request.0@ == self.base() + "/leave"@,
            request.1.content_key@ == content_key@,
            request.1.node_id@ == node_id@,
    {
        let body = LeaveBody { content_key: content_key.to_owned(), node_id: node_id.to_owned() };
        (self.at("/leave"), body)
    }
}

/// A status code of success.
pub open spec fn is_success(status: u16) -> bool {
    200 <= status < 300
}

/// The outcome of a request by the status of its reply: an error that starts with
/// `complaint` and shows the status, unless the status is one of success.
fn outcome(status: u16, shown: &str, complaint: &str) -> (result: Result<(), String>)
    ensures
        result is Ok <==> is_success(status),
        result matches Err(m) ==> m@ == complaint@ + shown@,
{
    if 200 <= status && status < 300 {
        Ok(())
    } else {
        let mut message = String::new();
        message.append(complaint);
        message.append(shown);
        assert(message@ =~= complaint@ + shown@);
        Err(message)
    }
}

/// Whether the tracker answered the question for providers, by the status of its
/// reply and the way the status is shown.
pub fn peers_outcome(status: u16, shown: &str) -> (result: Result<(), String>)
    ensures
        result is Ok <==> is_success(status),
        result matches Err(m) ==> m@ == "tracker returned "@ + shown@,
{
    outcome(status, shown, "tracker returned ")
}

/// Whether the tracker took the announce, by the status of its reply and the way
/// the status is shown.
pub fn announce_outcome(status: u16, shown: &str) -> (result: Result<(), String>)
    ensures
        result is Ok <==> is_success(status),
        result matches Err(m) ==> m@ == "announce failed: "@ + shown@,
{
    outcome(status, shown, "announce failed: ")
}

/// A status is one of success exactly from 200 up to 299.
pub proof fn law_success(status: u16)
    ensures
        is_success(status) <==> status / 100 == 2,
{
}

/// The base of a client is the beginning of the given URL, and what is cut off are
/// slashes.
pub proof fn law_only_slashes_are_cut(url: Seq<char>)
    ensures
        ({
            let n = without_slashes(url).len();
            &&& n <= url.len()
            &&& without_slashes(url) == url.take(n as int)
            &&& forall|i: int| n <= i < url.len() ==> #[trigger] url[i] == '/'
            &&& n > 0 ==> url[n - 1] != '/'
        }),
    decreases url.len(),
{
    if url.len() > 0 && url.last() == '/' {
        let front = url.drop_last();
        law_only_slashes_are_cut(front);
        let n = without_slashes(url).len();
        assert(front.take(n as int) =~= url.take(n as int));
        assert forall|i: int| n <= i < url.len() implies #[trigger] url[i] == '/' by {
            if i < front.len() {
                assert(front[i] == url[i]);
            }
        }
        if n > 0 {
            assert(front[n - 1] == url[n - 1]);
        }
    } else {
        assert(url.take(url.len() as int) =~= url);
    }
}

/// The base of a client never ends with a slash, and is the given URL up to
/// slashes at its end.
pub proof fn law_base_ends_without_slash(url: Seq<char>)
    ensures
        without_slashes(url).len() == 0 || without_slashes(url).last() != '/',
        without_slashes(url + seq!['/']) == without_slashes(url),
    decreases url.len(),
{
    assert((url + seq!['/']).drop_last() =~= url);
    if url.len() > 0 && url.last() == '/' {
        law_base_ends_without_slash(url.drop_last());
    }
}

} // verus!
