//! The logical message surface: what replicas say to each other and what
//! clients ask.  Only the contents matter here; the wire encoding is the
//! transport collaborator's business.

use vstd::prelude::*;

verus! {

/// One replicated key/value mutation, tagged with the txid it was assigned
/// and the term under which it was proposed.
pub struct LogEntry {
    pub txid: u64,
    pub term: u64,
    pub key: Vec<u8>,
    pub value: Vec<u8>,
}

impl LogEntry {
    /// Two entries carry the same data.
    pub open spec fn same(self, other: LogEntry) -> bool {
        &&& self.txid == other.txid
        &&& self.term == other.term
        &&& self.key@ == other.key@
        &&& self.value@ == other.value@
    }

    /// An exact copy of the entry.
    pub fn duplicate(&self) -> (r: LogEntry)
        ensures
            r.same(*self),
    {
        LogEntry {
            txid: self.txid,
            term: self.term,
            key: clone_bytes(&self.key),
            value: clone_bytes(&self.value),
        }
    }
}

/// An exact copy of a byte string.
pub fn clone_bytes(v: &Vec<u8>) -> (r: Vec<u8>)
    ensures
        r@ == v@,
{
    let mut r: Vec<u8> = Vec::new();
    let mut i: usize = 0;
    while i < v.len()
        invariant
            i <= v.len(),
            r@ =~= v@.subrange(0, i as int),
        decreases v.len() - i,
    {
        r.push(v[i]);
        i = i + 1;
    }
    proof {
        assert(r@ =~= v@);
    }
    r
}

/// A leadership/lease request: the candidate's term, its highest committed
/// txid, and the term under which that txid was committed.
#[derive(Clone, Copy, PartialEq, Eq, Structural, Debug)]
pub struct VoteReq {
    pub term: u64,
    pub max_txid: u64,
    pub last_tx_term: u64,
}

/// The voter's answer: grant or reject, and the term it speaks for.
#[derive(Clone, Copy, PartialEq, Eq, Structural, Debug)]
pub struct VoteRes {
    pub term: u64,
    pub success: bool,
}

/// A batch of entries replicated from the leader to a follower.
pub struct AppendBatch {
    pub batch_id: u64,
    pub from_txid: u64,
    pub from_term: u64,
    pub entries: Vec<LogEntry>,
}

/// The body of a message between replicas of one range.
pub enum PeerMsgBody {
    VoteReq(VoteReq),
    VoteRes(VoteRes),
    Append(AppendBatch),
    AppendAck { batch_id: u64 },
    /// A follower found a gap before the batch and asks to be resynced
    /// from the txid it reports.
    ResyncReq { from_txid: u64 },
}

/// A message between replicas: which range it concerns, who sent it, and the body.
pub struct PeerMsg {
    pub range_prefix: Vec<u8>,
    pub from_id: String,
    pub from_addr: String,
    pub body: PeerMsgBody,
}

/// A client request.
pub enum CliReq {
    Get { key: Vec<u8> },
    Put { key: Vec<u8>, value: Vec<u8> },
    /// The bootstrap probe: has this node seen the meta range?
    HaveMetaReq,
}

/// A reply to a client.
pub enum CliRes {
    GetRes { success: bool, value: Option<Vec<u8>>, txid: u64 },
    SetRes { success: bool, txid: u64 },
    /// The receiving replica is not the leader: `target` is the followed
    /// leader's address, or `None` when no leader is known.
    Redirect { success: bool, target: Option<String> },
    HaveMetaRes { has_seen_meta: bool },
}

/// What a message carries.
pub enum Payload {
    Peer(PeerMsg),
    Cli(CliReq),
    CliResp(CliRes),
}

/// One request/response/broadcast unit.  `address == None` means
/// "broadcast to all known peers"; `session` is the correlation id.
pub struct Envelope {
    pub address: Option<String>,
    pub session: u64,
    pub payload: Payload,
}

} // verus!
