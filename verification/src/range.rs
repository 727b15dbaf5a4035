//! A Range binds one `[lower, upper)` key interval to its consensus state
//! machine and its quorum log.  It decides every transition; sending the
//! envelopes it produces, and applying the entries it commits, is the
//! transport's and the storage collaborator's work.

use vstd::prelude::*;

use crate::consensus::{add_vote, grants, Consensus};
use crate::keys::{lex_le, lex_lt};
use crate::log::{acks_after, AckedLog};
use crate::msg::{
    clone_bytes, AppendBatch, Envelope, LogEntry, Payload, PeerMsg, PeerMsgBody, VoteReq, VoteRes,
};
use crate::LEASE_DURATION_MS;

verus! {

/// `env` is a message from this replica of this range: from the right
/// sender, with the right routing prefix, to the given destination.
pub open spec fn peer_env(
    env: Envelope,
    to: Option<Seq<char>>,
    prefix: Seq<u8>,
    from_id: Seq<char>,
    from_addr: Seq<char>,
) -> bool {
    &&& match (env.address, to) {
        (Option::None, Option::None) => true,
        (Option::Some(a), Option::Some(t)) => a@ == t,
        _ => false,
    }
    &&& match env.payload {
        Payload::Peer(pm) => pm.range_prefix@ == prefix && pm.from_id@ == from_id && pm.from_addr@
            == from_addr,
        _ => false,
    }
}

/// The peer-message body carried by `env`.
pub open spec fn body_of(env: Envelope) -> PeerMsgBody
    recommends
        env.payload is Peer,
{
    match env.payload {
        Payload::Peer(pm) => pm.body,
        _ => PeerMsgBody::AppendAck { batch_id: 0 },
    }
}

/// What became of an append batch at a follower.
#[derive(Clone, Copy, PartialEq, Eq, Structural, Debug)]
pub enum AppendOutcome {
    /// The sender is not the leader this replica follows: ignored.
    NotFollowing {},
    /// A gap before the batch: the sender is asked to resync from `upto`,
    /// the highest txid this replica holds.
    Resync { upto: u64 },
    /// Entered and acknowledged.
    Acked { batch_id: u64 },
}

/// One Range: a key interval, its election state, and its replication log.
pub struct Range {
    /// Inclusive lower key bound, and this range's routing prefix.
    pub lower: Vec<u8>,
    /// Exclusive upper key bound.
    pub upper: Vec<u8>,
    /// This replica's id within the range's replica group.
    pub id: String,
    /// This replica's own peer address.
    pub local_addr: String,
    /// The addresses of every replica of this range, this one included.
    pub peers: Vec<String>,
    /// The election/lease state machine.
    pub consensus: Consensus,
    /// The quorum-acknowledged log.
    pub log: AckedLog,
    /// The next txid this replica would assign as leader; above everything
    /// the log has seen.
    pub next_txid: u64,
}

impl Range {
    pub open spec fn wf(self) -> bool {
        &&& lex_lt(self.lower@, self.upper@)
        &&& self.peers@.len() >= 1
        &&& self.consensus.wf()
        &&& self.log.wf()
        &&& self.next_txid > self.log.last_committed_txid
        &&& forall|i: int|
            0 <= i < self.log.pending@.len() ==> (#[trigger] self.log.pending@[i]).entry.txid
                < self.next_txid
    }

    /// The keys this range owns.
    pub open spec fn contains_key(self, k: Seq<u8>) -> bool {
        lex_le(self.lower@, k) && lex_lt(k, self.upper@)
    }

    /// The bounds and identity never change; only election and log state do.
    pub open spec fn same_shape(self, other: Range) -> bool {
        &&& self.lower == other.lower
        &&& self.upper == other.upper
        &&& self.id == other.id
        &&& self.local_addr == other.local_addr
        &&& self.peers == other.peers
    }

    /// A fresh replica of the range `[lower, upper)`, not participating in
    /// any election, with an empty log committing at quorum
    /// `floor(peers/2) + 1`.
    pub fn initial(
        id: String,
        local_addr: String,
        lower: Vec<u8>,
        upper: Vec<u8>,
        peers: Vec<String>,
    ) -> (r: Range)
        requires
            lex_lt(lower@, upper@),
            peers@.len() >= 1,
        ensures
            r.wf(),
            r.lower == lower,
            r.upper == upper,
            r.id == id,
            r.local_addr == local_addr,
            r.peers == peers,
            r.consensus.state.is_init(),
            r.consensus.max_term_seen == 0,
            r.log.quorum == peers@.len() / 2 + 1,
            r.log.committed@.len() == 0,
            r.log.pending@.len() == 0,
            r.log.last_committed_txid == 0,
            r.next_txid == 1,
    {
        let quorum = peers.len() / 2 + 1;
        Range {
            lower,
            upper,
            id,
            local_addr,
            peers,
            consensus: Consensus::new(),
            log: AckedLog::new(quorum),
            next_txid: 1,
        }
    }

    /// A broadcast envelope carrying this body, stamped with this range's
    /// prefix and this replica's identity.
    fn broadcast(&self, body: PeerMsgBody) -> (env: Envelope)
        ensures
            peer_env(env, Option::None, self.lower@, self.id@, self.local_addr@),
            body_of(env) == body,
            env.session == 0,
    {
        Envelope {
            address: Option::None,
            session: 0,
            payload: Payload::Peer(
                PeerMsg {
                    range_prefix: clone_bytes(&self.lower),
                    from_id: self.id.clone(),
                    from_addr: self.local_addr.clone(),
                    body,
                },
            ),
        }
    }

    /// A reply envelope to one peer carrying this body.
    fn reply_to(&self, to: &String, session: u64, body: PeerMsgBody) -> (env: Envelope)
        ensures
            peer_env(env, Option::Some(to@), self.lower@, self.id@, self.local_addr@),
            body_of(env) == body,
            env.session == session,
    {
        Envelope {
            address: Option::Some(to.clone()),
            session,
            payload: Payload::Peer(
                PeerMsg {
                    range_prefix: clone_bytes(&self.lower),
                    from_id: self.id.clone(),
                    from_addr: self.local_addr.clone(),
                    body,
                },
            ),
        }
    }

    /// The periodic tick: drive the election state machine with this log's
    /// committed history, and broadcast whatever lease request it asks for.
    pub fn cron(&mut self, now: u64) -> (out: Option<Envelope>)
        requires
            old(self).wf(),
            now <= u64::MAX - LEASE_DURATION_MS,
            old(self).consensus.max_term_seen < u64::MAX,
        ensures
            final(self).wf(),
            final(self).same_shape(*old(self)),
            final(self).log == old(self).log,
            final(self).next_txid == old(self).next_txid,
            // a valid followership waits
            old(self).consensus.state.valid_follower(now) ==> final(self).consensus == old(self).consensus && out is None,
            // a standing leadership or candidacy rebroadcasts unchanged
            old(self).consensus.state.valid_leader(now) || old(self).consensus.state.valid_candidate(
                now,
            ) ==> final(self).consensus == old(self).consensus,
            // anything lapsed starts a candidacy one term above everything seen
            !(old(self).consensus.state.valid_leader(now) || old(self).consensus.state.valid_candidate(now) || old(self).consensus.state.valid_follower(now))
                ==> {
                &&& final(self).consensus.state.is_candidate()
                &&& final(self).consensus.state.term_of() == old(self).consensus.max_term_seen + 1
                &&& final(self).consensus.state.until_of() == now + LEASE_DURATION_MS
                &&& final(self).consensus.state.need_of() == old(self).peers@.len() / 2 + 1
                &&& final(self).consensus.state.votes() =~= Seq::<Seq<char>>::empty()
            },
            // whenever it does not wait, it broadcasts its term and committed
            // history as a vote/lease request
            !(old(self).consensus.state.valid_follower(now)) ==> (out matches Some(env) && {
                &&& peer_env(
                    env,
                    Option::None,
                    old(self).lower@,
                    old(self).id@,
                    old(self).local_addr@,
                )
                &&& body_of(env) == PeerMsgBody::VoteReq(
                    VoteReq {
                        term: final(self).consensus.state.term_of(),
                        max_txid: old(self).log.last_committed_txid,
                        last_tx_term: old(self).log.last_committed_term,
                    },
                )
            }),
    {
        let npeers = self.peers.len();
        let max_txid = self.log.last_committed_txid;
        let last_tx_term = self.log.last_committed_term;
        let bcast = self.consensus.on_cron(now, npeers, max_txid, last_tx_term);
        match bcast {
            Option::Some(v) => Option::Some(self.broadcast(PeerMsgBody::VoteReq(v))),
            Option::None => Option::None,
        }
    }

    /// As the valid leader, assign the next txid to this write, enter it in
    /// the log, acknowledge it ourselves (the self-ack counts toward quorum),
    /// and produce the append broadcast that replicates it to the peers.
    /// Returns the txid, the broadcast, and whatever the self-ack committed.
    pub fn propose_write(&mut self, now: u64, key: Vec<u8>, value: Vec<u8>) -> (r: (
        u64,
        Envelope,
        Vec<LogEntry>,
    ))
        requires
            old(self).wf(),
            old(self).consensus.state.valid_leader(now),
            old(self).next_txid < u64::MAX,
        ensures
            final(self).wf(),
            final(self).same_shape(*old(self)),
            final(self).consensus == old(self).consensus,
            r.0 == old(self).next_txid,
            final(self).next_txid == old(self).next_txid + 1,
            // the broadcast replicates exactly this entry under the leader's term
            peer_env(r.1, Option::None, old(self).lower@, old(self).id@, old(self).local_addr@),
            (body_of(r.1) matches PeerMsgBody::Append(b) && {
                &&& b.batch_id == r.0
                &&& b.from_txid == r.0
                &&& b.from_term == old(self).consensus.state.term_of()
                &&& b.entries@.len() == 1
                &&& b.entries@[0].txid == r.0
                &&& b.entries@[0].term == old(self).consensus.state.term_of()
                &&& b.entries@[0].key@ == key@
                &&& b.entries@[0].value@ == value@
            }),
            // the entry is in the log: still pending, or — the self-ack being
            // a full quorum — committed as the new high-water mark
            final(self).log.has_pending(r.0) || final(self).log.last_committed_txid == r.0,
            old(self).log.quorum > 1 ==> final(self).log.has_pending(r.0),
            // a lone replica with nothing else pending commits its own write
            // on the spot
            old(self).log.quorum == 1 && old(self).log.pending@.len() == 0 ==> final(self).log.last_committed_txid == r.0 && r.2@.len() == 1,
            // committed grows only by entries that reached quorum
            final(self).log.committed@.len() == old(self).log.committed@.len() + r.2@.len(),
            forall|i: int|
                0 <= i < old(self).log.committed@.len() ==> #[trigger] final(self).log.committed@[i]
                    == old(self).log.committed@[i],
            forall|j: int|
                0 <= j < r.2@.len() ==> (#[trigger] r.2@[j]).same(
                    final(self).log.committed@[old(self).log.committed@.len() + j],
                ),
    {
        let txid = self.next_txid;
        let term = match &self.consensus.state {
            crate::consensus::ConsensusState::Leader { term, .. } => *term,
            _ => 0,
        };
        let entry = LogEntry { txid, term, key, value };
        let entry2 = entry.duplicate();
        let ghost ge = entry;
        proof {
            if self.log.has_pending(txid) {
                let i = choose|i: int|
                    0 <= i < self.log.pending_txids().len() && self.log.pending_txids()[i] == txid;
                assert(self.log.pending@[i].entry.txid == txid);
                assert(false);
            }
        }
        let ghost po = self.log.pending@;
        self.log.propose(entry);
        let ghost k = choose|k: int|
            crate::log::inserted_at(po, self.log.pending@, k, ge);
        proof {
            crate::log::lemma_inserted_preserves(po, self.log.pending@, k, ge);
            // the new entry sits at the end: everything older is smaller
            if k < po.len() {
                assert(self.log.pending@[k + 1] == po[k as int]);
                assert(self.log.pending@[k].entry.txid < self.log.pending@[k + 1].entry.txid);
                assert(false);
            }
            assert(k == po.len());
        }
        let ghost lmid = self.log;
        let newly = self.log.ack(txid, &self.id);
        proof {
            assert(lmid.pending@[k].entry == ge);
            assert(lmid.pending@.len() == k + 1);
            // entries committed by the self-ack form a prefix; ours is last
            if newly@.len() == lmid.pending@.len() {
                // everything committed, ours last: it is the high-water mark
                let j = newly@.len() - 1;
                assert(self.log.committed@[lmid.committed@.len() + j] == lmid.pending@[j].entry);
                assert(self.log.committed@.last().txid == txid);
            } else {
                assert(newly@.len() <= k);
                assert((self.log.pending@[k - newly@.len()]).entry == lmid.pending@[k].entry);
                assert(self.log.pending_txids()[k - newly@.len()] == txid);
            }
            if self.log.quorum > 1 && newly@.len() == lmid.pending@.len() {
                // our entry has only the self-ack: no quorum beyond one
                let j = lmid.pending@.len() - 1;
                assert(acks_after(lmid.pending@[j], txid, self.id@).len() >= self.log.quorum);
                assert(crate::log::acks_of(lmid.pending@[j]) =~= Seq::<Seq<char>>::empty());
                assert(acks_after(lmid.pending@[j], txid, self.id@).len() == 1);
                assert(false);
            }
        }
        self.next_txid = txid + 1;
        proof {
            // the log still sits below the next txid
            assert forall|i: int| 0 <= i < self.log.pending@.len() implies (
            #[trigger] self.log.pending@[i]).entry.txid < self.next_txid by {
                assert(self.log.pending@[i].entry == lmid.pending@[i + newly@.len()].entry);
                if i + newly@.len() < k {
                    assert(lmid.pending@[i + newly@.len()].entry.txid
                        < lmid.pending@[k].entry.txid);
                }
            }
            if newly@.len() > 0 {
                let j = newly@.len() - 1;
                assert(self.log.committed@[lmid.committed@.len() + j] == lmid.pending@[j].entry);
                assert(self.log.committed@.last() == lmid.pending@[j].entry);
                assert(self.log.last_committed_txid == lmid.pending@[j].entry.txid);
                assert(lmid.pending@[j].entry.txid <= txid);
            } else {
                assert(self.log.committed@ =~= lmid.committed@);
            }
        }
        let mut es: Vec<LogEntry> = Vec::new();
        es.push(entry2);
        let batch = AppendBatch { batch_id: txid, from_txid: txid, from_term: term, entries: es };
        let env = self.broadcast(PeerMsgBody::Append(batch));
        (txid, env, newly)
    }

    /// Accept an append batch from the leader this replica currently
    /// follows: enter its entries into pending, in order, and acknowledge
    /// the batch.  A gap between what this replica has seen and the batch's
    /// start asks for a resync instead of accepting out-of-order entries;
    /// a batch from anyone else is ignored.
    pub fn handle_append(&mut self, now: u64, batch: AppendBatch, from_id: &String) -> (out:
        AppendOutcome)
        requires
            old(self).wf(),
            forall|j: int| 0 <= j < batch.entries@.len() ==> (#[trigger] batch.entries@[j]).txid < u64::MAX,
        ensures
            final(self).wf(),
            final(self).same_shape(*old(self)),
            final(self).consensus == old(self).consensus,
            final(self).log.committed == old(self).log.committed,
            final(self).log.last_committed_txid == old(self).log.last_committed_txid,
            final(self).log.quorum == old(self).log.quorum,
            // only the currently followed leader is accepted
            !(old(self).consensus.state.valid_follower(now) && old(self).consensus.state.follower_id() == from_id@) ==> *final(self) == *old(self) && out
                == (AppendOutcome::NotFollowing {  }),
            // a gap asks for a resync from the highest txid this replica holds
            old(self).consensus.state.valid_follower(now) && old(self).consensus.state.follower_id()
                == from_id@ && batch.from_txid > old(self).log.max_seen_txid() + 1 ==> *final(self)
                == *old(self) && out == (AppendOutcome::Resync {
                upto: old(self).log.max_seen_txid(),
            }),
            // otherwise every entry of the batch is entered and acknowledged
            old(self).consensus.state.valid_follower(now) && old(self).consensus.state.follower_id()
                == from_id@ && batch.from_txid <= old(self).log.max_seen_txid() + 1 ==> {
                &&& out == (AppendOutcome::Acked { batch_id: batch.batch_id })
                &&& forall|j: int|
                    0 <= j < batch.entries@.len() ==> final(self).log.has_pending(
                        (#[trigger] batch.entries@[j]).txid,
                    ) || batch.entries@[j].txid <= old(self).log.last_committed_txid
                &&& forall|t: u64| old(self).log.has_pending(t) ==> final(self).log.has_pending(t)
            },
    {
        let following = match &self.consensus.state {
            crate::consensus::ConsensusState::Follower { id, until, .. } => now < *until && *id
                == *from_id,
            _ => false,
        };
        if !following {
            return AppendOutcome::NotFollowing {  };
        }
        let ms = self.log.max_seen();
        if batch.from_txid > ms && batch.from_txid - ms > 1 {
            return AppendOutcome::Resync { upto: ms };
        }
        let n = batch.entries.len();
        let mut idx: usize = 0;
        while idx < n
            invariant
                n == batch.entries@.len(),
                idx <= n,
                forall|j: int| 0 <= j < n ==> (#[trigger] batch.entries@[j]).txid < u64::MAX,
                self.log.wf(),
                self.same_shape(*old(self)),
                self.consensus == old(self).consensus,
                self.log.committed == old(self).log.committed,
                self.log.last_committed_txid == old(self).log.last_committed_txid,
                self.log.last_committed_term == old(self).log.last_committed_term,
                self.log.quorum == old(self).log.quorum,
                self.next_txid >= old(self).next_txid,
                self.next_txid > self.log.last_committed_txid,
                forall|i: int|
                    0 <= i < self.log.pending@.len() ==> (
                    #[trigger] self.log.pending@[i]).entry.txid < self.next_txid,
                forall|t: u64| old(self).log.has_pending(t) ==> self.log.has_pending(t),
                forall|j: int|
                    0 <= j < idx ==> self.log.has_pending((#[trigger] batch.entries@[j]).txid)
                        || batch.entries@[j].txid <= old(self).log.last_committed_txid,
            decreases n - idx,
        {
            let etx = batch.entries[idx].txid;
            if etx >= self.next_txid {
                self.next_txid = etx + 1;
            }
            let e = batch.entries[idx].duplicate();
            let ghost ge = e;
            let ghost po = self.log.pending@;
            let ghost lpre = self.log;
            self.log.propose(e);
            proof {
                if !lpre.has_pending(etx) && etx > lpre.last_committed_txid {
                    let k = choose|k: int|
                        crate::log::inserted_at(po, self.log.pending@, k, ge);
                    crate::log::lemma_inserted_preserves(po, self.log.pending@, k, ge);
                    assert forall|i: int| 0 <= i < self.log.pending@.len() implies (
                    #[trigger] self.log.pending@[i]).entry.txid < self.next_txid by {
                        if i < k {
                            assert(self.log.pending@[i] == po[i]);
                        } else if i > k {
                            assert(self.log.pending@[i] == po[i - 1]);
                        }
                    }
                    assert(self.log.has_pending(etx));
                }
            }
            idx = idx + 1;
        }
        AppendOutcome::Acked { batch_id: batch.batch_id }
    }

    /// Leader side: count one replica's acknowledgment of a batch toward the
    /// batch's txid, returning copies of whatever newly committed — each
    /// handed to the learner exactly once.
    pub fn handle_append_ack(&mut self, batch_id: u64, from_id: &String) -> (newly: Vec<LogEntry>)
        requires
            old(self).wf(),
        ensures
            final(self).wf(),
            final(self).same_shape(*old(self)),
            final(self).consensus == old(self).consensus,
            final(self).next_txid == old(self).next_txid,
            final(self).log.quorum == old(self).log.quorum,
            final(self).log.last_committed_txid >= old(self).log.last_committed_txid,
            final(self).log.committed@.len() == old(self).log.committed@.len() + newly@.len(),
            forall|i: int|
                0 <= i < old(self).log.committed@.len() ==> #[trigger] final(self).log.committed@[i]
                    == old(self).log.committed@[i],
            forall|j: int|
                0 <= j < newly@.len() ==> (#[trigger] newly@[j]).same(
                    old(self).log.pending@[j].entry,
                ),
            // nothing commits without a quorum of distinct acknowledgments
            forall|j: int|
                0 <= j < newly@.len() ==> acks_after(
                    #[trigger] old(self).log.pending@[j],
                    batch_id,
                    from_id@,
                ).len() >= old(self).log.quorum,
            // ... and reaching quorum commits: no quorum-complete head remains
            final(self).log.pending@.len() > 0 ==> crate::log::acks_of(
                final(self).log.pending@[0],
            ).len() < old(self).log.quorum,
            // the rest stays pending, the acked entry carrying the one new
            // ack and nothing else (a duplicate ack changes nothing)
            final(self).log.pending@.len() + newly@.len() == old(self).log.pending@.len(),
            forall|j: int|
                0 <= j < final(self).log.pending@.len() ==> (#[trigger] final(self).log.pending@[j]).entry == old(self).log.pending@[j + newly@.len()].entry
                    && crate::log::acks_of(final(self).log.pending@[j]) =~= acks_after(
                    old(self).log.pending@[j + newly@.len()],
                    batch_id,
                    from_id@,
                ),
    {
        let ghost lpre = self.log;
        let newly = self.log.ack(batch_id, from_id);
        proof {
            assert forall|i: int| 0 <= i < self.log.pending@.len() implies (
            #[trigger] self.log.pending@[i]).entry.txid < self.next_txid by {
                assert(self.log.pending@[i].entry == lpre.pending@[i + newly@.len()].entry);
            }
            if newly@.len() > 0 {
                let j = newly@.len() - 1;
                assert(self.log.committed@[lpre.committed@.len() + j] == lpre.pending@[j].entry);
                assert(self.log.committed@.last() == lpre.pending@[j].entry);
            } else {
                assert(self.log.committed@ =~= lpre.committed@);
                if self.log.committed@.len() > 0 {
                    assert(self.log.committed@.last() == lpre.committed@.last());
                }
            }
        }
        newly
    }

    /// Dispatch one peer message to the right handler: answer vote requests,
    /// count vote responses and batch acknowledgments, enter appends, and
    /// replay committed history for a lagging follower.  Returns the reply
    /// envelopes and whatever newly committed for the learner.
    pub fn handle_peer(&mut self, now: u64, msg: PeerMsg, session: u64) -> (r: (
        Vec<Envelope>,
        Vec<LogEntry>,
    ))
        requires
            old(self).wf(),
            now <= u64::MAX - LEASE_DURATION_MS,
            (msg.body matches PeerMsgBody::Append(b) ==> forall|j: int|
                0 <= j < b.entries@.len() ==> (#[trigger] b.entries@[j]).txid < u64::MAX),
        ensures
            final(self).wf(),
            final(self).same_shape(*old(self)),
            // a vote request is answered to the sender, granted exactly by
            // the vote-granting rule over this replica's committed history
            (msg.body matches PeerMsgBody::VoteReq(v) ==> {
                &&& final(self).log == old(self).log
                &&& final(self).next_txid == old(self).next_txid
                &&& r.1@.len() == 0
                &&& r.0@.len() == 1
                &&& peer_env(
                    r.0@[0],
                    Option::Some(msg.from_addr@),
                    old(self).lower@,
                    old(self).id@,
                    old(self).local_addr@,
                )
                &&& r.0@[0].session == session
                &&& (body_of(r.0@[0]) matches PeerMsgBody::VoteRes(res) && {
                    &&& res.success == grants(
                        old(self).consensus.state,
                        now,
                        v,
                        msg.from_id@,
                        old(self).id@,
                        old(self).log.last_committed_txid,
                        old(self).log.last_committed_term,
                    )
                    &&& (res.success ==> res.term == v.term)
                    &&& (!res.success ==> res.term == old(self).consensus.state.term_of())
                    // a grant to a peer leaves this replica its follower,
                    // lease freshly extended; a rejection changes nothing;
                    // a self-addressed request changes nothing
                    &&& (res.success && msg.from_id@ != old(self).id@ ==> {
                        &&& final(self).consensus.state.is_follower()
                        &&& final(self).consensus.state.follower_id() == msg.from_id@
                        &&& final(self).consensus.state.until_of() == now + LEASE_DURATION_MS
                    })
                    &&& (!res.success ==> final(self).consensus == old(self).consensus)
                    &&& (msg.from_id@ == old(self).id@ ==> final(self).consensus == old(self).consensus)
                    // followership stays exclusive: afterwards the followed
                    // leader is the old one or the sender, nobody else
                    &&& (final(self).consensus.state.is_follower() ==> final(self).consensus.state.follower_id() == old(self).consensus.state.follower_id()
                        || final(self).consensus.state.follower_id() == msg.from_id@)
                })
            }),
            // a vote response is counted: a rejection abandons a valid
            // candidacy, a quorum of grants wins or extends the lease, and a
            // standing leadership is never cut short
            (msg.body matches PeerMsgBody::VoteRes(v) ==> {
                &&& final(self).log == old(self).log
                &&& final(self).next_txid == old(self).next_txid
                &&& r.0@.len() == 0
                &&& r.1@.len() == 0
                &&& (old(self).consensus.state.valid_candidate(now) && !v.success ==> final(self).consensus.state.is_init())
                &&& (old(self).consensus.state.valid_candidate(now) && v.success && v.term == old(self).consensus.state.term_of() ==> ({
                    let v2 = add_vote(old(self).consensus.state.votes(), msg.from_id@);
                    &&& final(self).consensus.state.term_of() == old(self).consensus.state.term_of()
                    &&& final(self).consensus.state.need_of() == old(self).consensus.state.need_of()
                    &&& final(self).consensus.state.until_of() == old(self).consensus.state.until_of()
                    &&& (v2.len() >= old(self).consensus.state.need_of() ==> final(self).consensus.state.is_leader() && final(self).consensus.state.votes() =~= Seq::<Seq<char>>::empty())
                    &&& (v2.len() < old(self).consensus.state.need_of() ==> final(self).consensus.state.is_candidate() && final(self).consensus.state.votes() =~= v2)
                }))
                &&& (old(self).consensus.state.is_leader() ==> final(self).consensus.state.is_leader() && final(self).consensus.state.term_of() == old(self).consensus.state.term_of() && final(self).consensus.state.until_of() >= old(self).consensus.state.until_of())
                // anything else is an anomaly and changes nothing
                &&& ({
                    let was_candidate = old(self).consensus.state.valid_candidate(now);
                    let was_leader = old(self).consensus.state.valid_leader(now);
                    let matching = v.term == old(self).consensus.state.term_of();
                    !((was_candidate && !v.success) || (was_candidate && v.success && matching) || (
                    was_leader && v.success && matching)) ==> final(self).consensus == old(self).consensus
                })
            }),
            // an append is entered and acknowledged, asks for a resync on a
            // gap, and is ignored from anyone but the followed leader
            (msg.body matches PeerMsgBody::Append(b) ==> {
                &&& final(self).consensus == old(self).consensus
                &&& final(self).log.committed == old(self).log.committed
                &&& final(self).log.last_committed_txid == old(self).log.last_committed_txid
                &&& r.1@.len() == 0
                &&& (!(old(self).consensus.state.valid_follower(now) && old(self).consensus.state.follower_id() == msg.from_id@) ==> *final(self) == *old(self)
                    && r.0@.len() == 0)
                &&& (old(self).consensus.state.valid_follower(now) && old(self).consensus.state.follower_id() == msg.from_id@ && b.from_txid <= old(self).log.max_seen_txid() + 1 ==> {
                    &&& r.0@.len() == 1
                    &&& peer_env(
                        r.0@[0],
                        Option::Some(msg.from_addr@),
                        old(self).lower@,
                        old(self).id@,
                        old(self).local_addr@,
                    )
                    &&& body_of(r.0@[0]) == (PeerMsgBody::AppendAck { batch_id: b.batch_id })
                    &&& forall|j: int|
                        0 <= j < b.entries@.len() ==> final(self).log.has_pending(
                            (#[trigger] b.entries@[j]).txid,
                        ) || b.entries@[j].txid <= old(self).log.last_committed_txid
                    &&& forall|t: u64|
                        old(self).log.has_pending(t) ==> final(self).log.has_pending(t)
                })
                &&& (old(self).consensus.state.valid_follower(now) && old(self).consensus.state.follower_id() == msg.from_id@ && b.from_txid > old(self).log.max_seen_txid() + 1 ==> {
                    &&& *final(self) == *old(self)
                    &&& r.0@.len() == 1
                    &&& body_of(r.0@[0]) == (PeerMsgBody::ResyncReq {
                        from_txid: old(self).log.max_seen_txid(),
                    })
                })
            }),
            // a batch acknowledgment is counted toward quorum; what it
            // committed comes back for the learner, exactly once each
            (msg.body matches PeerMsgBody::AppendAck { batch_id } ==> {
                &&& final(self).consensus == old(self).consensus
                &&& final(self).next_txid == old(self).next_txid
                &&& r.0@.len() == 0
                &&& final(self).log.last_committed_txid >= old(self).log.last_committed_txid
                &&& final(self).log.committed@.len() == old(self).log.committed@.len()
                    + r.1@.len()
                &&& forall|i: int|
                    0 <= i < old(self).log.committed@.len() ==> #[trigger] final(self).log.committed@[i] == old(self).log.committed@[i]
                &&& forall|j: int|
                    0 <= j < r.1@.len() ==> (#[trigger] r.1@[j]).same(
                        old(self).log.pending@[j].entry,
                    )
                &&& forall|j: int|
                    0 <= j < r.1@.len() ==> acks_after(
                        #[trigger] old(self).log.pending@[j],
                        batch_id,
                        msg.from_id@,
                    ).len() >= old(self).log.quorum
                // reaching quorum commits: no quorum-complete head remains
                &&& (final(self).log.pending@.len() > 0 ==> crate::log::acks_of(
                    final(self).log.pending@[0],
                ).len() < old(self).log.quorum)
                // the rest stays pending with exactly the one ack recorded
                &&& final(self).log.pending@.len() + r.1@.len() == old(self).log.pending@.len()
                &&& forall|j: int|
                    0 <= j < final(self).log.pending@.len() ==> (#[trigger] final(self).log.pending@[j]).entry == old(self).log.pending@[j + r.1@.len()].entry
                        && crate::log::acks_of(final(self).log.pending@[j]) =~= acks_after(
                        old(self).log.pending@[j + r.1@.len()],
                        batch_id,
                        msg.from_id@,
                    )
            }),
            // a resync request is served from committed history by a valid
            // leader, and otherwise ignored
            (msg.body matches PeerMsgBody::ResyncReq { from_txid } ==> {
                &&& *final(self) == *old(self)
                &&& r.1@.len() == 0
                &&& r.0@.len() <= 1
                &&& (r.0@.len() == 1 ==> old(self).consensus.state.valid_leader(now)
                    && (body_of(r.0@[0]) matches PeerMsgBody::Append(b) && {
                    &&& b.entries@.len() >= 1
                    &&& b.from_txid == from_txid + 1
                    &&& forall|j: int|
                        0 <= j < b.entries@.len() ==> (#[trigger] b.entries@[j]).same(
                            old(self).log.committed@[old(self).log.committed@.len()
                                - b.entries@.len() + j],
                        )
                }))
                // a valid leader with committed history past the requested
                // txid owes the replay
                &&& (old(self).consensus.state.valid_leader(now) && from_txid < u64::MAX && (
                exists|j: int|
                    0 <= j < old(self).log.committed@.len() && (
                    #[trigger] old(self).log.committed@[j]).txid > from_txid) ==> r.0@.len() == 1)
            }),
    {
        match msg.body {
            PeerMsgBody::VoteReq(v) => {
                let lmt = self.log.last_committed_txid;
                let ltt = self.log.last_committed_term;
                let resp = self.consensus.on_vote_request(
                    now,
                    v,
                    &msg.from_id,
                    &msg.from_addr,
                    session,
                    &self.id,
                    lmt,
                    ltt,
                );
                let env = self.reply_to(&msg.from_addr, session, PeerMsgBody::VoteRes(resp));
                let mut outs: Vec<Envelope> = Vec::new();
                outs.push(env);
                (outs, Vec::new())
            },
            PeerMsgBody::VoteRes(v) => {
                self.consensus.on_vote_response(now, v.term, v.success, &msg.from_id);
                (Vec::new(), Vec::new())
            },
            PeerMsgBody::Append(b) => {
                let out = self.handle_append(now, b, &msg.from_id);
                match out {
                    AppendOutcome::NotFollowing {  } => (Vec::new(), Vec::new()),
                    AppendOutcome::Resync { upto } => {
                        let env = self.reply_to(
                            &msg.from_addr,
                            session,
                            PeerMsgBody::ResyncReq { from_txid: upto },
                        );
                        let mut outs: Vec<Envelope> = Vec::new();
                        outs.push(env);
                        (outs, Vec::new())
                    },
                    AppendOutcome::Acked { batch_id } => {
                        let env = self.reply_to(
                            &msg.from_addr,
                            session,
                            PeerMsgBody::AppendAck { batch_id },
                        );
                        let mut outs: Vec<Envelope> = Vec::new();
                        outs.push(env);
                        (outs, Vec::new())
                    },
                }
            },
            PeerMsgBody::AppendAck { batch_id } => {
                let newly = self.handle_append_ack(batch_id, &msg.from_id);
                (Vec::new(), newly)
            },
            PeerMsgBody::ResyncReq { from_txid } => {
                let is_leader = match &self.consensus.state {
                    crate::consensus::ConsensusState::Leader { until, .. } => now < *until,
                    _ => false,
                };
                if !is_leader || from_txid == u64::MAX {
                    return (Vec::new(), Vec::new());
                }
                let es = self.log.committed_since(from_txid);
                if es.len() == 0 {
                    return (Vec::new(), Vec::new());
                }
                let term = match &self.consensus.state {
                    crate::consensus::ConsensusState::Leader { term, .. } => *term,
                    _ => 0,
                };
                let batch = AppendBatch {
                    batch_id: from_txid + 1,
                    from_txid: from_txid + 1,
                    from_term: term,
                    entries: es,
                };
                let env = self.reply_to(&msg.from_addr, session, PeerMsgBody::Append(batch));
                let mut outs: Vec<Envelope> = Vec::new();
                outs.push(env);
                (outs, Vec::new())
            },
        }
    }
}

} // verus!
