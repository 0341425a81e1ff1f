//! Where requests meet the replicated log: who may write, where a write is
//! sent instead, and what a write that was handed to the log is answered.

use std::collections::HashMap;

use vstd::prelude::*;

use crate::apiserver::command::{ApplyOutcome, ApplyOutcomeView, ObjectView, Object};
use crate::apiserver::handlers;
use crate::apiserver::handlers::{outcome_to_result, ApiError, ApiErrorView};
use crate::raft::log::NodeId;
use crate::text;

verus! {

/// The path that the replicas send their messages to.
pub const RAFT_MESSAGE_PATH: &'static str = "/raft/message";

/// How long a write waits for its command to be committed, in seconds.
pub const WRITE_TIMEOUT_SECS: u64 = 5;

/// The addresses of the other replicas, as texts.
pub open spec fn addresses(peer_apis: Map<NodeId, String>) -> Map<NodeId, Seq<char>> {
    peer_apis.map_values(|url: String| url@)
}

/// Whether a replica may take a write, and where the write belongs if not.
pub open spec fn write_allowed(
    id: NodeId,
    leader: Option<NodeId>,
    peers: Map<NodeId, Seq<char>>,
) -> Result<(), ApiErrorView> {
    match leader {
        Some(l) => if l == id {
            Ok(())
        } else if peers.contains_key(l) {
            Err(ApiErrorView::Redirect(peers[l]))
        } else {
            Err(ApiErrorView::Internal("unknown leader "@ + text::decimal_chars(l as nat)))
        },
        None => Err(ApiErrorView::Internal("no leader elected yet; retry"@)),
    }
}

/// Lets a write pass on the leader only. A request that reads before it writes
/// goes through here first, so that it reads on the leader.
pub fn ensure_leader(
    id: NodeId,
    leader: Option<NodeId>,
    peer_apis: &HashMap<NodeId, String>,
) -> (r: Result<(), ApiError>)
    ensures
        match r {
            Ok(_) => write_allowed(id, leader, addresses(peer_apis@)) is Ok,
            Err(e) => write_allowed(id, leader, addresses(peer_apis@)) == Err::<(), ApiErrorView>(
                e.deep_view(),
            ),
        },
{
    broadcast use vstd::std_specs::hash::group_hash_axioms;

    match leader {
        Some(l) => {
            if l == id {
                return Ok(());
            }
            match peer_apis.get(&l) {
                Some(url) => Err(ApiError::Redirect(url.as_str().to_owned())),
                None => {
                    let mut m = "unknown leader ".to_owned();
                    text::push_decimal(&mut m, l);
                    Err(ApiError::Internal(m))
                },
            }
        },
        None => Err(ApiError::Internal("no leader elected yet; retry".to_owned())),
    }
}

/// What a write is answered, given the verdict on its command, or none where
/// it did not come in time.
pub open spec fn write_answer(outcome: Option<ApplyOutcomeView>) -> Result<
    ObjectView,
    ApiErrorView,
> {
    match outcome {
        Some(out) => handlers::result_of_outcome(out),
        None => Err(ApiErrorView::Internal("write timed out (not committed)"@)),
    }
}

/// Answers a write that was handed to the log.
pub fn answer_write(outcome: Option<ApplyOutcome>) -> (r: Result<Object, ApiError>)
    ensures
        handlers::answer_of(r) == write_answer(outcome.deep_view()),
{
    match outcome {
        Some(out) => outcome_to_result(out),
        None => Err(ApiError::Internal("write timed out (not committed)".to_owned())),
    }
}

pub open spec fn slashes(s: Seq<char>) -> nat {
    s.filter(|c: char| c == '/').len()
}

/// Where a redirect points: an address without a path, that is with exactly
/// two slashes, gets the path that was asked for; any other is left alone.
pub open spec fn redirected(base: Seq<char>, path_and_query: Seq<char>) -> Seq<char> {
    if slashes(base) == 2 {
        base + path_and_query
    } else {
        base
    }
}

/// Completes the address of a redirect with the path that was asked for.
pub fn redirect_location(base: &str, path_and_query: &str) -> (url: String)
    ensures
        url@ == redirected(base@, path_and_query@),
{
    let chars = text::chars_of(base);
    let mut count: usize = 0;
    proof {
        reveal(Seq::filter);
        assert(base@.take(0) =~= Seq::<char>::empty());
    }
    for i in 0..chars.len()
        invariant
            chars@ == base@,
            count == slashes(base@.take(i as int)),
            count <= i,
    {
        proof {
            reveal(Seq::filter);
            assert(base@.take(i + 1).drop_last() =~= base@.take(i as int));
        }
        if chars[i] == '/' {
            count = count + 1;
        }
    }
    assert(base@.take(chars@.len() as int) =~= base@);
    let mut url = base.to_owned();
    if count == 2 {
        url.append(path_and_query);
    }
    url
}

/// Why a list of replicas cannot be read.
#[derive(Debug, Clone, PartialEq)]
pub enum PeerError {
    /// An entry that is not of the form `id=url`.
    Malformed(String),
    /// An entry whose id is no number.
    BadId(String),
}

pub enum PeerErrorView {
    Malformed(Seq<char>),
    BadId(Seq<char>),
}

impl DeepView for PeerError {
    type V = PeerErrorView;

    open spec fn deep_view(&self) -> PeerErrorView {
        match self {
            PeerError::Malformed(s) => PeerErrorView::Malformed(s@),
            PeerError::BadId(s) => PeerErrorView::BadId(s@),
        }
    }
}

impl PeerError {
    /// The error in words.
    pub fn message(&self) -> (s: String)
        ensures
            s@ == (match self.deep_view() {
                PeerErrorView::Malformed(part) => "bad peer entry "@ + text::quoted_chars(part)
                    + " (want id=url)"@,
                PeerErrorView::BadId(id) => text::number_error_chars(id),
            }),
    {
        match self {
            PeerError::Malformed(part) => {
                let mut s = "bad peer entry ".to_owned();
                s.append(text::quoted(part.as_str()).as_str());
                s.append(" (want id=url)");
                s
            },
            PeerError::BadId(id) => text::number_error(id.as_str()),
        }
    }
}

/// The replicas that a list of entries names, or what is wrong with the first
/// bad entry. Empty entries are passed over; of two entries for one id the
/// later one stands.
pub open spec fn peers_of(parts: Seq<Seq<char>>) -> Result<Map<NodeId, Seq<char>>, PeerErrorView>
    decreases parts.len(),
{
    if parts.len() == 0 {
        Ok(Map::empty())
    } else {
        match peers_of(parts.drop_last()) {
            Err(e) => Err(e),
            Ok(peers) => if parts.last().len() == 0 {
                Ok(peers)
            } else {
                match text::halves(parts.last(), '=') {
                    None => Err(PeerErrorView::Malformed(parts.last())),
                    Some((id, url)) => match text::parsed_u64(id) {
                        None => Err(PeerErrorView::BadId(id)),
                        Some(n) => Ok(peers.insert(n, url)),
                    },
                }
            },
        }
    }
}

proof fn first_error_stands(parts: Seq<Seq<char>>, k: int)
    requires
        0 <= k <= parts.len(),
        peers_of(parts.take(k)) is Err,
    ensures
        peers_of(parts) == peers_of(parts.take(k)),
    decreases parts.len() - k,
{
    if k == parts.len() {
        assert(parts.take(k) =~= parts);
    } else {
        assert(parts.take(k + 1).drop_last() =~= parts.take(k));
        first_error_stands(parts, k + 1);
    }
}

/// Reads a list of replicas, `id=url` entries that commas separate.
pub fn parse_peers(s: &str) -> (r: Result<HashMap<NodeId, String>, PeerError>)
    ensures
        match r {
            Ok(peers) => peers_of(text::pieces(s@, ',')) == Ok::<
                Map<NodeId, Seq<char>>,
                PeerErrorView,
            >(addresses(peers@)),
            Err(e) => peers_of(text::pieces(s@, ',')) == Err::<
                Map<NodeId, Seq<char>>,
                PeerErrorView,
            >(e.deep_view()),
        },
{
    broadcast use vstd::std_specs::hash::group_hash_axioms;

    let parts = text::split(s, ',');
    let ghost pieces = parts.deep_view();
    let mut peers: HashMap<NodeId, String> = HashMap::new();
    assert(pieces.take(0) =~= Seq::<Seq<char>>::empty());
    assert(addresses(peers@) =~= Map::<NodeId, Seq<char>>::empty());
    for i in 0..parts.len()
        invariant
            pieces == parts.deep_view(),
            pieces == text::pieces(s@, ','),
            peers_of(pieces.take(i as int)) == Ok::<Map<NodeId, Seq<char>>, PeerErrorView>(
                addresses(peers@),
            ),
    {
        broadcast use vstd::std_specs::hash::group_hash_axioms;

        let part = parts[i].as_str();
        proof {
            assert(pieces.take(i + 1).drop_last() =~= pieces.take(i as int));
            assert(pieces.take(i + 1).last() == part@);
        }
        if !part.is_empty() {
            match text::split_once(part, '=') {
                None => {
                    proof {
                        first_error_stands(pieces, i + 1);
                    }
                    return Err(PeerError::Malformed(part.to_owned()));
                },
                Some((id, url)) => match text::parse_u64(id.as_str()) {
                    None => {
                        proof {
                            first_error_stands(pieces, i + 1);
                        }
                        return Err(PeerError::BadId(id));
                    },
                    Some(n) => {
                        let ghost before = peers@;
                        peers.insert(n, url);
                        assert(addresses(peers@) =~= addresses(before).insert(n, url@));
                    },
                },
            }
        }
    }
    assert(pieces.take(pieces.len() as int) =~= pieces);
    Ok(peers)
}

} // verus!
