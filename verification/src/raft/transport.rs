//! How Raft messages leave the process. Fire-and-forget by design: Raft never
//! blocks on a reply, which comes back later as an ordinary message.

use vstd::prelude::*;

use crate::raft::log::NodeId;
use crate::raft::message::Message;
use crate::text;

verus! {

pub trait Transport: Send + Sync + 'static {
    /// Best-effort delivery. Losing a message is fine: heartbeats are sent
    /// again and elections are run again.
    fn send(&self, to: NodeId, msg: Message);
}

pub open spec fn message_url_chars(base: Seq<char>, from: NodeId) -> Seq<char> {
    base + "/raft/message?from="@ + text::decimal_chars(from as nat)
}

/// Where a message of a node is posted to at a peer.
pub fn message_url(base: &str, from: NodeId) -> (url: String)
    ensures
        url@ == message_url_chars(base@, from),
{
    let mut url = base.to_owned();
    url.append("/raft/message?from=");
    text::push_decimal(&mut url, from);
    url
}

} // verus!
