//! Download from peers: how a peer is dialled, and in which order peers are tried.

use vstd::prelude::*;

use crate::p2p::tracker::PeerEntry;

verus! {

/// The identity of an endpoint.
#[verifier::external_type_specification]
#[verifier::external_body]
pub struct ExEndpointId(iroh::EndpointId);

/// The identity of an endpoint and the addresses to reach it under.
#[verifier::external_type_specification]
#[verifier::external_body]
pub struct ExEndpointAddr(iroh::EndpointAddr);

/// Why a text is no identity of an endpoint.
#[verifier::external_type_specification]
#[verifier::external_body]
pub struct ExKeyParsingError(iroh::KeyParsingError);

/// The endpoint that a text identifies, as iroh reads it; none for other texts.
pub uninterp spec fn endpoint_id(text: Seq<char>) -> Option<iroh::EndpointId>;

/// `EndpointId::from_str` of iroh reads the identity of an endpoint from its hex or
/// base32 form. Which identity it is, and whether the text is one, depends on the
/// text alone.
#[verifier::external_body]
fn parse_endpoint_id(text: &str) -> (id: Result<iroh::EndpointId, iroh::KeyParsingError>)
    ensures
        match id {
            Ok(i) => endpoint_id(text@) == Some(i),
            Err(_) => endpoint_id(text@) is None,
        },
{
    text.parse()
}

/// The address that a JSON text holds, as serde_json reads it; none for other
/// texts.
pub uninterp spec fn endpoint_addr(text: Seq<char>) -> Option<iroh::EndpointAddr>;

/// `serde_json::from_str` of serde_json reads the address of an endpoint from JSON.
/// Which address it is, and whether the text is one, depends on the text alone.
#[verifier::external_body]
fn parse_endpoint_addr(text: &str) -> (addr: Option<iroh::EndpointAddr>)
    ensures
        addr == endpoint_addr(text@),
{
    serde_json::from_str::<iroh::EndpointAddr>(text).ok()
}

/// How a peer is dialled.
pub enum Dial {
    /// By its addresses, without a lookup.
    Addr(iroh::EndpointAddr),
    /// By its identity, whose addresses are looked up.
    Id(iroh::EndpointId),
}

/// How to dial a peer, given what its announce reads as: its addresses are used
/// where there are some, so that no lookup is needed; a peer without an identity
/// is not dialled at all.
pub fn dial_by(
    id: Result<iroh::EndpointId, iroh::KeyParsingError>,
    addr: Option<iroh::EndpointAddr>,
) -> (dial: Result<Dial, iroh::KeyParsingError>)
    ensures
        match id {
            Ok(i) => dial == Ok::<Dial, iroh::KeyParsingError>(
                match addr {
                    Some(a) => Dial::Addr(a),
                    None => Dial::Id(i),
                },
            ),
            Err(e) => dial == Err::<Dial, iroh::KeyParsingError>(e),
        },
{
    match id {
        Ok(i) => Ok(
            match addr {
                Some(a) => Dial::Addr(a),
                None => Dial::Id(i),
            },
        ),
        Err(e) => Err(e),
    }
}

/// How to dial a peer.
pub fn dial(peer: &PeerEntry) -> (dial: Result<Dial, iroh::KeyParsingError>)
    ensures
        match endpoint_id(peer.node_id@) {
            Some(i) => dial == Ok::<Dial, iroh::KeyParsingError>(
                match endpoint_addr(peer.addr_info@) {
                    Some(a) => Dial::Addr(a),
                    None => Dial::Id(i),
                },
            ),
            None => dial is Err,
        },
{
    dial_by(
        parse_endpoint_id(peer.node_id.as_str()),
        parse_endpoint_addr(peer.addr_info.as_str()),
    )
}

/// What came of the question for providers: how many peers there are to try, or
/// why there is none.
pub fn providers_found(query: Result<usize, String>) -> (found: Result<usize, String>)
    ensures
        match query {
            Ok(n) => if n == 0 {
                found matches Err(m) && m@ == "no P2P providers"@
            } else {
                found == query
            },
            Err(e) => found matches Err(m) && m@ == "tracker query failed: "@ + e@,
        },
{
    match query {
        Ok(n) => if n == 0 {
            Err("no P2P providers".to_owned())
        } else {
            Ok(n)
        },
        Err(e) => {
            let mut message = String::new();
            message.append("tracker query failed: ");
            message.append(e.as_str());
            assert(message@ =~= "tracker query failed: "@ + e@);
            Err(message)
        },
    }
}

/// What came of trying a peer.
pub enum Attempt {
    /// The file is there.
    Done,
    /// The peer failed, for this reason.
    Failed(String),
    /// The peer took too long.
    TimedOut,
}

/// What came of trying a peer: nothing to complain of, or an error.
pub open spec fn complaint(attempt: Attempt) -> Option<Seq<char>> {
    match attempt {
        Attempt::Done => None,
        Attempt::Failed(e) => Some(e@),
        Attempt::TimedOut => Some("timeout"@),
    }
}

/// What the download does next.
pub enum DownloadStep {
    /// Try the peer at this position of the list of providers.
    Try(usize),
    /// Nothing more, the file is there.
    Done,
    /// Nothing more, no peer is left; this is what the last one failed with.
    GiveUp(String),
}

/// What a download does next.
pub enum StepModel {
    Try(int),
    Done,
    GiveUp(Seq<char>),
}

impl View for DownloadStep {
    type V = StepModel;

    open spec fn view(&self) -> StepModel {
        match self {
            DownloadStep::Try(i) => StepModel::Try(*i as int),
            DownloadStep::Done => StepModel::Done,
            DownloadStep::GiveUp(e) => StepModel::GiveUp(e@),
        }
    }
}

/// The first step of a download from this many providers.
pub open spec fn first_step(providers: int) -> StepModel {
    if providers > 0 {
        StepModel::Try(0)
    } else {
        StepModel::GiveUp("no providers"@)
    }
}

/// The step after the peer at position `i` was tried.
pub open spec fn step_after(providers: int, i: int, complaint: Option<Seq<char>>) -> StepModel {
    match complaint {
        None => StepModel::Done,
        Some(e) => if i + 1 < providers {
            StepModel::Try(i + 1)
        } else {
            StepModel::GiveUp(e)
        },
    }
}

/// The first step of a download from this many providers.
pub fn start(providers: usize) -> (step: DownloadStep)
    ensures
        step@ == first_step(providers as int),
{
    if providers > 0 {
        DownloadStep::Try(0)
    } else {
        DownloadStep::GiveUp("no providers".to_owned())
    }
}

/// The step after the peer at position `i` was tried.
pub fn after_attempt(providers: usize, i: usize, attempt: Attempt) -> (step: DownloadStep)
    requires
        i < providers,
    ensures
        step@ == step_after(providers as int, i as int, complaint(attempt)),
{
    let error = match attempt {
        Attempt::Done => {
            return DownloadStep::Done;
        },
        Attempt::Failed(e) => e,
        Attempt::TimedOut => "timeout".to_owned(),
    };
    if i + 1 < providers {
        DownloadStep::Try(i + 1)
    } else {
        DownloadStep::GiveUp(error)
    }
}

/// Where a download stands after these attempts.
pub open spec fn run(providers: int, attempts: Seq<Option<Seq<char>>>) -> StepModel
    decreases attempts.len(),
{
    if attempts.len() == 0 {
        first_step(providers)
    } else {
        match run(providers, attempts.drop_last()) {
            StepModel::Try(i) => step_after(providers, i, attempts.last()),
            ended => ended,
        }
    }
}

/// While peers fail, they are tried one by one in the order of the list, each
/// once; when the last one has failed, the download fails with its error, or for
/// want of providers where there were none.
pub proof fn law_peers_are_tried_in_order(providers: int, attempts: Seq<Option<Seq<char>>>)
    requires
        attempts.len() <= providers,
        forall|i: int| 0 <= i < attempts.len() ==> (#[trigger] attempts[i]) is Some,
    ensures
        attempts.len() < providers ==> run(providers, attempts) == StepModel::Try(
            attempts.len() as int,
        ),
        attempts.len() == providers && providers > 0 ==> run(providers, attempts)
            == StepModel::GiveUp(attempts.last()->0),
        providers == 0 ==> run(providers, attempts) == StepModel::GiveUp("no providers"@),
    decreases attempts.len(),
{
    if attempts.len() > 0 {
        let before = attempts.drop_last();
        assert forall|i: int| 0 <= i < before.len() implies (#[trigger] before[i]) is Some by {
            assert(before[i] == attempts[i]);
        }
        law_peers_are_tried_in_order(providers, before);
    }
}

/// What is complained of: nothing where the file is there, the peer's own error where
/// it failed, and a timeout where it took too long.
pub proof fn law_complaints(error: String)
    ensures
        complaint(Attempt::Done) is None,
        complaint(Attempt::Failed(error)) == Some(error@),
        complaint(Attempt::TimedOut) == Some("timeout"@),
{
}

/// The first peer that delivers ends the download with success, whatever the
/// peers before it did; nothing after it is tried.
pub proof fn law_first_success_ends(
    providers: int,
    failed: Seq<Option<Seq<char>>>,
    later: Seq<Option<Seq<char>>>,
)
    requires
        failed.len() < providers,
        forall|i: int| 0 <= i < failed.len() ==> (#[trigger] failed[i]) is Some,
    ensures
        run(providers, failed.push(None) + later) == StepModel::Done,
    decreases later.len(),
{
    let attempts = failed.push(None) + later;
    if later.len() == 0 {
        assert(attempts.drop_last() =~= failed);
        assert(attempts.last() is None);
        law_peers_are_tried_in_order(providers, failed);
    } else {
        assert(attempts.drop_last() =~= failed.push(None) + later.drop_last());
        law_first_success_ends(providers, failed, later.drop_last());
    }
}

} // verus!
