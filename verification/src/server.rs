//! The Server owns every Range of this process and routes: peer messages by
//! their range prefix, client requests by key.  Its invariant is the
//! partition: ranges are sorted and never overlap, so every key has at most
//! one owner — and exactly one wherever the ranges cover contiguously.

use vstd::prelude::*;

use crate::bootstrap::{meta_prefix, meta_prefix_spec, replica_addresses, Meta};
use crate::ident::fresh_peer_id;
use crate::keys::{
    bytes_eq, is_prefix, key_is_prefix, key_le, key_lt, lemma_lex_irrefl, lemma_lex_le_lt_trans,
    lemma_lex_lt_le_trans, lemma_prefix_below_upper, lex_le, lex_lt, prefix_upper, upper_bound,
};
use crate::msg::{CliReq, CliRes, Envelope, LogEntry, Payload};
use crate::range::Range;

verus! {

/// Two ranges claim some key in common.
pub open spec fn overlaps(a: Range, b: Range) -> bool {
    !(lex_le(a.upper@, b.lower@) || lex_le(b.upper@, a.lower@))
}

/// `pn` is `po` with `x` inserted at position `k`.
pub open spec fn inserted_range(po: Seq<Range>, pn: Seq<Range>, k: int, x: Range) -> bool {
    &&& 0 <= k <= po.len()
    &&& pn.len() == po.len() + 1
    &&& pn[k] == x
    &&& forall|j: int| 0 <= j < k ==> pn[j] == po[j]
    &&& forall|j: int| k <= j < po.len() ==> pn[j + 1] == po[j]
}

/// The Server: this process's identity, its bootstrap flag, and every Range
/// it owns, sorted by lower bound and pairwise disjoint.
pub struct Server {
    /// This process's stable replica id.
    pub id: String,
    /// The address peers reach this process at.
    pub local_peer_addr: String,
    /// The address clients reach this process at.
    pub local_cli_addr: String,
    /// Whether this node has seen the meta range — what the bootstrap probe
    /// answers.
    pub has_seen_meta: bool,
    /// Every range of this process, sorted by lower bound, non-overlapping.
    pub ranges: Vec<Range>,
}

impl Server {
    pub open spec fn wf(self) -> bool {
        &&& forall|i: int| 0 <= i < self.ranges@.len() ==> (#[trigger] self.ranges@[i]).wf()
        &&& forall|i: int, j: int|
            0 <= i < j < self.ranges@.len() ==> lex_le(
                (#[trigger] self.ranges@[i]).upper@,
                (#[trigger] self.ranges@[j]).lower@,
            )
    }

    /// A fresh server with no ranges and a newly generated id.
    pub fn new(local_peer_addr: String, local_cli_addr: String) -> (r: Server)
        ensures
            r.wf(),
            r.ranges@.len() == 0,
            !r.has_seen_meta,
            r.local_peer_addr == local_peer_addr,
            r.local_cli_addr == local_cli_addr,
            r.id@.len() == 36,
    {
        Server {
            id: fresh_peer_id(),
            local_peer_addr,
            local_cli_addr,
            has_seen_meta: false,
            ranges: Vec::new(),
        }
    }

    /// Add a range to the partition.  A range overlapping any existing one is
    /// rejected and handed back — never silently tolerated.
    pub fn add_range(&mut self, r: Range) -> (res: Result<(), Range>)
        requires
            old(self).wf(),
            r.wf(),
        ensures
            final(self).wf(),
            final(self).id == old(self).id,
            final(self).local_peer_addr == old(self).local_peer_addr,
            final(self).local_cli_addr == old(self).local_cli_addr,
            final(self).has_seen_meta == old(self).has_seen_meta,
            // accepted exactly when it overlaps nothing
            res is Ok <==> forall|j: int|
                0 <= j < old(self).ranges@.len() ==> !overlaps(#[trigger] old(self).ranges@[j], r),
            res is Ok ==> exists|k: int|
                #[trigger] inserted_range(old(self).ranges@, final(self).ranges@, k, r),
            res matches Err(back) ==> *final(self) == *old(self) && back == r,
    {
        // reject any overlap
        let mut i: usize = 0;
        while i < self.ranges.len()
            invariant
                *self == *old(self),
                self.wf(),
                i <= self.ranges@.len(),
                forall|j: int| 0 <= j < i ==> !overlaps(#[trigger] self.ranges@[j], r),
            decreases self.ranges@.len() - i,
        {
            let sep = key_le(&self.ranges[i].upper, &r.lower) || key_le(&r.upper, &self.ranges[i].lower);
            if !sep {
                return Result::Err(r);
            }
            i = i + 1;
        }
        // find the insertion point: the first range wholly above r
        let mut k: usize = 0;
        while k < self.ranges.len() && !key_le(&r.upper, &self.ranges[k].lower)
            invariant
                *self == *old(self),
                self.wf(),
                r.wf(),
                k <= self.ranges@.len(),
                forall|j: int| 0 <= j < self.ranges@.len() ==> !overlaps(#[trigger] self.ranges@[j], r),
                forall|j: int| 0 <= j < k ==> lex_le((#[trigger] self.ranges@[j]).upper@, r.lower@),
            decreases self.ranges@.len() - k,
        {
            k = k + 1;
        }
        let ghost po = self.ranges@;
        let ghost kk = k as int;
        self.ranges.insert(k, r);
        proof {
            assert(self.ranges@ =~= po.insert(kk, r));
            assert(inserted_range(po, self.ranges@, kk, r));
            // sortedness: below the insertion point everything ends at or
            // before r; above, r ends at or before everything
            assert forall|a: int, b: int| 0 <= a < b < self.ranges@.len() implies lex_le(
                (#[trigger] self.ranges@[a]).upper@,
                (#[trigger] self.ranges@[b]).lower@,
            ) by {
                if a < kk && b == kk {
                    assert(self.ranges@[a] == po[a]);
                } else if a == kk && b > kk {
                    assert(self.ranges@[b] == po[b - 1]);
                    if b - 1 > kk - 1 + 1 {
                        // r.upper <= po[kk].lower <= po[kk].upper <= po[b-1].lower
                        assert(lex_le(r.upper@, po[kk].lower@));
                        assert(lex_lt(po[kk].lower@, po[kk].upper@));
                        assert(lex_le(po[kk].upper@, po[b - 1].lower@));
                        lemma_lex_le_lt_trans(r.upper@, po[kk].lower@, po[kk].upper@);
                        lemma_lex_lt_le_trans(r.upper@, po[kk].upper@, po[b - 1].lower@);
                    }
                } else if a < kk && b < kk {
                    assert(self.ranges@[a] == po[a]);
                    assert(self.ranges@[b] == po[b]);
                } else if a > kk && b > kk {
                    assert(self.ranges@[a] == po[a - 1]);
                    assert(self.ranges@[b] == po[b - 1]);
                }
            }
        }
        Result::Ok(())
    }

    /// The unique range owning `key`, if any: the partition invariant makes
    /// more than one match impossible.
    pub fn range_for_key(&self, key: &Vec<u8>) -> (r: Option<&Range>)
        requires
            self.wf(),
        ensures
            match r {
                Option::Some(rg) => rg.contains_key(key@) && exists|i: int|
                    0 <= i < self.ranges@.len() && self.ranges@[i] == *rg,
                Option::None => forall|i: int|
                    0 <= i < self.ranges@.len() ==> !(#[trigger] self.ranges@[i]).contains_key(key@),
            },
    {
        let mut i: usize = 0;
        while i < self.ranges.len()
            invariant
                i <= self.ranges@.len(),
                forall|j: int|
                    0 <= j < i ==> !(#[trigger] self.ranges@[j]).contains_key(key@),
            decreases self.ranges@.len() - i,
        {
            if key_le(&self.ranges[i].lower, key) && key_lt(key, &self.ranges[i].upper) {
                proof {
                    assert(self.ranges@[i as int].contains_key(key@));
                }
                return Option::Some(&self.ranges[i]);
            }
            i = i + 1;
        }
        Option::None
    }

    /// The index of the unique range owning `key`, for callers that go on to
    /// mutate it.
    pub fn range_for_key_mut(&mut self, key: &Vec<u8>) -> (r: Option<usize>)
        requires
            old(self).wf(),
        ensures
            *final(self) == *old(self),
            match r {
                Option::Some(i) => i < old(self).ranges@.len() && old(self).ranges@[
                    i as int
                ].contains_key(key@),
                Option::None => forall|i: int|
                    0 <= i < old(self).ranges@.len() ==> !(#[trigger] old(self).ranges@[i]).contains_key(key@),
            },
    {
        let mut i: usize = 0;
        while i < self.ranges.len()
            invariant
                i <= self.ranges@.len(),
                forall|j: int|
                    0 <= j < i ==> !(#[trigger] self.ranges@[j]).contains_key(key@),
            decreases self.ranges@.len() - i,
        {
            if key_le(&self.ranges[i].lower, key) && key_lt(key, &self.ranges[i].upper) {
                return Option::Some(i);
            }
            i = i + 1;
        }
        Option::None
    }

    /// The range a client key routes to: the longest lower bound prefixing it.
    fn find_cli_range(&self, key: &Vec<u8>) -> (r: Option<usize>)
        ensures
            match r {
                Option::Some(m) => m < self.ranges@.len() && m == last_prefix_match(
                    self.ranges@,
                    key@,
                ),
                Option::None => last_prefix_match(self.ranges@, key@) == -1,
            },
    {
        let mut i: usize = 0;
        let mut found: Option<usize> = Option::None;
        while i < self.ranges.len()
            invariant
                i <= self.ranges@.len(),
                match found {
                    Option::Some(f) => f < i && is_prefix(self.ranges@[f as int].lower@, key@)
                        && forall|j: int|
                        f < j < i ==> !is_prefix((#[trigger] self.ranges@[j]).lower@, key@),
                    Option::None => forall|j: int|
                        0 <= j < i ==> !is_prefix((#[trigger] self.ranges@[j]).lower@, key@),
                },
            decreases self.ranges@.len() - i,
        {
            if key_is_prefix(&self.ranges[i].lower, key) {
                found = Option::Some(i);
            }
            i = i + 1;
        }
        proof {
            match found {
                Option::Some(f) => lemma_last_match_found(self.ranges@, key@, f as int),
                Option::None => lemma_last_match_none(self.ranges@, key@),
            }
        }
        found
    }

    /// Route one client request by key to its owning range: the valid leader
    /// serves it — a read is handed to storage, a write proposed and
    /// replicated — and anyone else answers with a redirect to the followed
    /// leader, or a failure when none is known or no range owns the key.
    pub fn handle_cli(&mut self, now: u64, env: Envelope) -> (out: CliOutcome)
        requires
            old(self).wf(),
            now <= u64::MAX - crate::LEASE_DURATION_MS,
        ensures
            final(self).wf(),
            final(self).id == old(self).id,
            final(self).local_peer_addr == old(self).local_peer_addr,
            final(self).local_cli_addr == old(self).local_cli_addr,
            final(self).has_seen_meta == old(self).has_seen_meta,
            final(self).ranges@.len() == old(self).ranges@.len(),
            forall|j: int|
                0 <= j < old(self).ranges@.len() ==> (#[trigger] final(self).ranges@[j]).same_shape(
                    old(self).ranges@[j],
                ),
            // anything that is no client request is answered with a failure
            !(env.payload is Cli) ==> *final(self) == *old(self) && reply_fail(
                out,
                env.address,
                env.session,
            ),
            // the bootstrap probe is answered from the meta flag
            (env.payload matches Payload::Cli(CliReq::HaveMetaReq) ==> *final(self) == *old(self)
                && reply_have_meta(out, env.address, env.session, old(self).has_seen_meta)),
            // a read: served by the valid leader, redirected by a valid
            // follower, failed by anyone else or without an owner
            (env.payload matches Payload::Cli(CliReq::Get { key }) ==> ({
                let m = last_prefix_match(old(self).ranges@, key@);
                &&& (m == -1 ==> *final(self) == *old(self) && reply_fail(
                    out,
                    env.address,
                    env.session,
                ))
                &&& (m >= 0 ==> ({
                    let rg = old(self).ranges@[m];
                    &&& (rg.consensus.state.valid_leader(now) ==> *final(self) == *old(self) && (
                    out matches CliOutcome::ServeGet { lower, key: k2, session, address } && {
                        &&& lower@ == rg.lower@
                        &&& k2@ == key@
                        &&& session == env.session
                        &&& address == env.address
                    }))
                    &&& (!rg.consensus.state.valid_leader(now)
                        && rg.consensus.state.valid_follower(now) ==> *final(self) == *old(self)
                        && reply_redirect(
                        out,
                        env.address,
                        env.session,
                        rg.consensus.state.follower_addr(),
                    ))
                    &&& (!rg.consensus.state.valid_leader(now)
                        && !rg.consensus.state.valid_follower(now) ==> *final(self) == *old(self)
                        && reply_fail(out, env.address, env.session))
                }))
            })),
            // a write: proposed by the valid leader under the next txid and
            // entered in its log; otherwise as a read
            (env.payload matches Payload::Cli(CliReq::Put { key, value }) ==> ({
                let m = last_prefix_match(old(self).ranges@, key@);
                &&& (m == -1 ==> *final(self) == *old(self) && reply_fail(
                    out,
                    env.address,
                    env.session,
                ))
                &&& (m >= 0 ==> ({
                    let rg = old(self).ranges@[m];
                    &&& (rg.consensus.state.valid_leader(now) && rg.next_txid < u64::MAX ==> {
                        &&& (out matches CliOutcome::Proposed { txid, bcast, newly, session } && {
                            &&& txid == rg.next_txid
                            &&& session == env.session
                            // the broadcast replicates exactly this entry
                            // under the leader's term, to every peer
                            &&& crate::range::peer_env(
                                bcast,
                                Option::None,
                                rg.lower@,
                                rg.id@,
                                rg.local_addr@,
                            )
                            &&& (crate::range::body_of(bcast)
                                matches crate::msg::PeerMsgBody::Append(b) && {
                                &&& b.batch_id == txid
                                &&& b.from_txid == txid
                                &&& b.from_term == rg.consensus.state.term_of()
                                &&& b.entries@.len() == 1
                                &&& b.entries@[0].txid == txid
                                &&& b.entries@[0].term == rg.consensus.state.term_of()
                                &&& b.entries@[0].key@ == key@
                                &&& b.entries@[0].value@ == value@
                            })
                            // what the self-ack committed comes back for the
                            // learner, once each, appended to committed
                            &&& final(self).ranges@[m].log.committed@.len()
                                == rg.log.committed@.len() + newly@.len()
                            &&& (forall|j: int|
                                0 <= j < rg.log.committed@.len() ==> #[trigger] final(self).ranges@[m].log.committed@[j] == rg.log.committed@[j])
                            &&& (forall|j: int|
                                0 <= j < newly@.len() ==> (#[trigger] newly@[j]).same(
                                    final(self).ranges@[m].log.committed@[rg.log.committed@.len()
                                        + j],
                                ))
                            &&& (rg.log.quorum == 1 && rg.log.pending@.len() == 0 ==> final(self).ranges@[m].log.last_committed_txid == txid && newly@.len() == 1)
                        })
                        &&& (forall|j: int|
                            0 <= j < old(self).ranges@.len() && j != m ==> #[trigger] final(self).ranges@[j] == old(self).ranges@[j])
                        &&& (final(self).ranges@[m].log.has_pending(rg.next_txid) || final(self).ranges@[m].log.last_committed_txid == rg.next_txid)
                        &&& (rg.log.quorum > 1 ==> final(self).ranges@[m].log.has_pending(
                            rg.next_txid,
                        ))
                        &&& final(self).ranges@[m].consensus == rg.consensus
                        &&& final(self).ranges@[m].next_txid == rg.next_txid + 1
                    })
                    &&& (rg.consensus.state.valid_leader(now) && rg.next_txid == u64::MAX
                        ==> *final(self) == *old(self) && reply_fail(out, env.address, env.session))
                    &&& (!rg.consensus.state.valid_leader(now)
                        && rg.consensus.state.valid_follower(now) ==> *final(self) == *old(self)
                        && reply_redirect(
                        out,
                        env.address,
                        env.session,
                        rg.consensus.state.follower_addr(),
                    ))
                    &&& (!rg.consensus.state.valid_leader(now)
                        && !rg.consensus.state.valid_follower(now) ==> *final(self) == *old(self)
                        && reply_fail(out, env.address, env.session))
                }))
            })),
    {
        let session = env.session;
        let address = clone_opt_string(&env.address);
        let req = match env.payload {
            Payload::Cli(r) => r,
            _ => {
                return fail_reply(address, session);
            },
        };
        match req {
            CliReq::HaveMetaReq => CliOutcome::Reply(
                Envelope {
                    address,
                    session,
                    payload: Payload::CliResp(
                        CliRes::HaveMetaRes { has_seen_meta: self.has_seen_meta },
                    ),
                },
            ),
            CliReq::Get { key } => {
                let m = match self.find_cli_range(&key) {
                    Option::None => {
                        return fail_reply(address, session);
                    },
                    Option::Some(m) => m,
                };
                let is_leader = match &self.ranges[m].consensus.state {
                    crate::consensus::ConsensusState::Leader { until, .. } => now < *until,
                    _ => false,
                };
                if is_leader {
                    let lower = crate::msg::clone_bytes(&self.ranges[m].lower);
                    return CliOutcome::ServeGet { lower, key, session, address };
                }
                match &self.ranges[m].consensus.state {
                    crate::consensus::ConsensusState::Follower { leader_addr, until, .. } if now
                        < *until => CliOutcome::Reply(
                        Envelope {
                            address,
                            session,
                            payload: Payload::CliResp(
                                CliRes::Redirect {
                                    success: true,
                                    target: Option::Some(leader_addr.clone()),
                                },
                            ),
                        },
                    ),
                    _ => fail_reply(address, session),
                }
            },
            CliReq::Put { key, value } => {
                let m = match self.find_cli_range(&key) {
                    Option::None => {
                        return fail_reply(address, session);
                    },
                    Option::Some(m) => m,
                };
                let is_leader = match &self.ranges[m].consensus.state {
                    crate::consensus::ConsensusState::Leader { until, .. } => now < *until,
                    _ => false,
                };
                if !is_leader {
                    return match &self.ranges[m].consensus.state {
                        crate::consensus::ConsensusState::Follower { leader_addr, until, .. } if now
                            < *until => CliOutcome::Reply(
                            Envelope {
                                address,
                                session,
                                payload: Payload::CliResp(
                                    CliRes::Redirect {
                                        success: true,
                                        target: Option::Some(leader_addr.clone()),
                                    },
                                ),
                            },
                        ),
                        _ => fail_reply(address, session),
                    };
                }
                if self.ranges[m].next_txid == u64::MAX {
                    return fail_reply(address, session);
                }
                let ghost po = self.ranges@;
                let mut rg = self.ranges.remove(m);
                let (txid, bcast, newly) = rg.propose_write(now, key, value);
                self.ranges.insert(m, rg);
                proof {
                    assert(self.ranges@ =~= po.update(m as int, self.ranges@[m as int]));
                    assert(self.ranges@[m as int].same_shape(po[m as int]));
                    assert forall|a: int, b: int| 0 <= a < b < self.ranges@.len() implies lex_le(
                        (#[trigger] self.ranges@[a]).upper@,
                        (#[trigger] self.ranges@[b]).lower@,
                    ) by {
                        assert(self.ranges@[a].upper == po[a].upper);
                        assert(self.ranges@[b].lower == po[b].lower);
                    }
                }
                CliOutcome::Proposed { txid, bcast, newly, session }
            },
        }
    }

    /// Route one peer message to the range it names.  A message naming no
    /// range of this process is dropped; the bootstrap probe — which reaches
    /// the peer port — is answered directly from the meta flag.
    pub fn handle_peer(&mut self, now: u64, env: Envelope) -> (r: (Vec<Envelope>, Vec<LogEntry>))
        requires
            old(self).wf(),
            now <= u64::MAX - crate::LEASE_DURATION_MS,
            (env.payload matches Payload::Peer(pm) ==> (pm.body
                matches crate::msg::PeerMsgBody::Append(b) ==> forall|j: int|
                0 <= j < b.entries@.len() ==> (#[trigger] b.entries@[j]).txid < u64::MAX)),
        ensures
            final(self).wf(),
            final(self).id == old(self).id,
            final(self).local_peer_addr == old(self).local_peer_addr,
            final(self).local_cli_addr == old(self).local_cli_addr,
            final(self).has_seen_meta == old(self).has_seen_meta,
            // the bootstrap probe is answered in place
            (env.payload matches Payload::Cli(CliReq::HaveMetaReq) ==> {
                &&& *final(self) == *old(self)
                &&& r.1@.len() == 0
                &&& r.0@.len() == 1
                &&& r.0@[0].session == env.session
                &&& r.0@[0].address == env.address
                &&& (r.0@[0].payload matches Payload::CliResp(cr) && cr == (CliRes::HaveMetaRes {
                    has_seen_meta: old(self).has_seen_meta,
                }))
            }),
            // anything else that is no peer message is dropped
            !(env.payload is Peer) && !(env.payload matches Payload::Cli(CliReq::HaveMetaReq))
                ==> *final(self) == *old(self) && r.0@.len() == 0 && r.1@.len() == 0,
            // a peer message touches only the range it names
            (env.payload matches Payload::Peer(pm) ==> {
                &&& final(self).ranges@.len() == old(self).ranges@.len()
                &&& forall|j: int|
                    0 <= j < old(self).ranges@.len() ==> (#[trigger] final(self).ranges@[j]).same_shape(
                        old(self).ranges@[j],
                    )
                &&& forall|j: int|
                    0 <= j < old(self).ranges@.len() && (#[trigger] old(self).ranges@[j]).lower@
                        != pm.range_prefix@ ==> final(self).ranges@[j] == old(self).ranges@[j]
                &&& ((forall|j: int|
                    0 <= j < old(self).ranges@.len() ==> (#[trigger] old(self).ranges@[j]).lower@
                        != pm.range_prefix@) ==> *final(self) == *old(self) && r.0@.len() == 0
                    && r.1@.len() == 0)
                // a vote request reaching its range is answered to the
                // sender, granted exactly by the vote-granting rule over
                // that range's committed history
                &&& forall|i: int|
                    0 <= i < old(self).ranges@.len() && (#[trigger] old(self).ranges@[i]).lower@
                        == pm.range_prefix@ ==> (pm.body
                        matches crate::msg::PeerMsgBody::VoteReq(v) ==> {
                        &&& r.1@.len() == 0
                        &&& r.0@.len() == 1
                        &&& r.0@[0].session == env.session
                        &&& (r.0@[0].payload matches Payload::Peer(rp) && (rp.body
                            matches crate::msg::PeerMsgBody::VoteRes(res) && {
                            &&& rp.from_addr@ == old(self).ranges@[i].local_addr@
                            &&& res.success == crate::consensus::grants(
                                old(self).ranges@[i].consensus.state,
                                now,
                                v,
                                pm.from_id@,
                                old(self).ranges@[i].id@,
                                old(self).ranges@[i].log.last_committed_txid,
                                old(self).ranges@[i].log.last_committed_term,
                            )
                            &&& (res.success ==> res.term == v.term)
                            &&& (!res.success ==> res.term == old(self).ranges@[i].consensus.state.term_of())
                        }))
                    })
                // a batch acknowledgment reaching its range commits only
                // quorum-complete entries, returned for the learner once each
                &&& forall|i: int|
                    0 <= i < old(self).ranges@.len() && (#[trigger] old(self).ranges@[i]).lower@
                        == pm.range_prefix@ ==> (pm.body
                        matches crate::msg::PeerMsgBody::AppendAck { batch_id } ==> {
                        &&& r.0@.len() == 0
                        &&& final(self).ranges@[i].log.committed@.len() == old(self).ranges@[i].log.committed@.len() + r.1@.len()
                        &&& forall|j: int|
                            0 <= j < r.1@.len() ==> (#[trigger] r.1@[j]).same(
                                old(self).ranges@[i].log.pending@[j].entry,
                            )
                        &&& forall|j: int|
                            0 <= j < r.1@.len() ==> crate::log::acks_after(
                                #[trigger] old(self).ranges@[i].log.pending@[j],
                                batch_id,
                                pm.from_id@,
                            ).len() >= old(self).ranges@[i].log.quorum
                        // the mark never decreases, committed stays in place,
                        // election state and txid counter are untouched ...
                        &&& final(self).ranges@[i].log.last_committed_txid >= old(self).ranges@[i].log.last_committed_txid
                        &&& forall|j: int|
                            0 <= j < old(self).ranges@[i].log.committed@.len() ==> #[trigger] final(self).ranges@[i].log.committed@[j] == old(self).ranges@[i].log.committed@[j]
                        &&& final(self).ranges@[i].consensus == old(self).ranges@[i].consensus
                        &&& final(self).ranges@[i].next_txid == old(self).ranges@[i].next_txid
                        // ... reaching quorum commits, and the rest stays
                        // pending with exactly the one ack recorded
                        &&& (final(self).ranges@[i].log.pending@.len() > 0 ==> crate::log::acks_of(
                            final(self).ranges@[i].log.pending@[0],
                        ).len() < old(self).ranges@[i].log.quorum)
                        &&& final(self).ranges@[i].log.pending@.len() + r.1@.len() == old(self).ranges@[i].log.pending@.len()
                        &&& forall|j: int|
                            0 <= j < final(self).ranges@[i].log.pending@.len() ==> (#[trigger] final(self).ranges@[i].log.pending@[j]).entry == old(self).ranges@[i].log.pending@[j + r.1@.len()].entry
                                && crate::log::acks_of(final(self).ranges@[i].log.pending@[j])
                                =~= crate::log::acks_after(
                                old(self).ranges@[i].log.pending@[j + r.1@.len()],
                                batch_id,
                                pm.from_id@,
                            )
                    })
                // a vote request decides the election state exactly as the
                // vote-granting rule says: a grant to a peer leaves the range
                // a follower of the sender under a fresh lease, a rejection
                // and a self-addressed request change nothing
                &&& forall|i: int|
                    0 <= i < old(self).ranges@.len() && (#[trigger] old(self).ranges@[i]).lower@
                        == pm.range_prefix@ ==> (pm.body
                        matches crate::msg::PeerMsgBody::VoteReq(v) ==> {
                        &&& final(self).ranges@[i].log == old(self).ranges@[i].log
                        &&& final(self).ranges@[i].next_txid == old(self).ranges@[i].next_txid
                        &&& (crate::consensus::grants(
                            old(self).ranges@[i].consensus.state,
                            now,
                            v,
                            pm.from_id@,
                            old(self).ranges@[i].id@,
                            old(self).ranges@[i].log.last_committed_txid,
                            old(self).ranges@[i].log.last_committed_term,
                        ) && pm.from_id@ != old(self).ranges@[i].id@ ==> {
                            &&& final(self).ranges@[i].consensus.state.is_follower()
                            &&& final(self).ranges@[i].consensus.state.follower_id()
                                == pm.from_id@
                            &&& final(self).ranges@[i].consensus.state.until_of() == now
                                + crate::LEASE_DURATION_MS
                        })
                        &&& (!crate::consensus::grants(
                            old(self).ranges@[i].consensus.state,
                            now,
                            v,
                            pm.from_id@,
                            old(self).ranges@[i].id@,
                            old(self).ranges@[i].log.last_committed_txid,
                            old(self).ranges@[i].log.last_committed_term,
                        ) ==> final(self).ranges@[i].consensus == old(self).ranges@[i].consensus)
                        &&& (pm.from_id@ == old(self).ranges@[i].id@ ==> final(self).ranges@[i].consensus == old(self).ranges@[i].consensus)
                        &&& (final(self).ranges@[i].consensus.state.is_follower() ==> final(self).ranges@[i].consensus.state.follower_id() == old(self).ranges@[i].consensus.state.follower_id() || final(self).ranges@[i].consensus.state.follower_id() == pm.from_id@)
                    })
                // a vote response is counted at the named range: a rejection
                // abandons a valid candidacy, a matching quorum grant wins,
                // a standing leadership is never cut short, and anything
                // else changes nothing
                &&& forall|i: int|
                    0 <= i < old(self).ranges@.len() && (#[trigger] old(self).ranges@[i]).lower@
                        == pm.range_prefix@ ==> (pm.body
                        matches crate::msg::PeerMsgBody::VoteRes(v) ==> {
                        &&& r.0@.len() == 0
                        &&& r.1@.len() == 0
                        &&& final(self).ranges@[i].log == old(self).ranges@[i].log
                        &&& final(self).ranges@[i].next_txid == old(self).ranges@[i].next_txid
                        &&& (old(self).ranges@[i].consensus.state.valid_candidate(now) && !v.success
                            ==> final(self).ranges@[i].consensus.state.is_init())
                        &&& (old(self).ranges@[i].consensus.state.valid_candidate(now) && v.success
                            && v.term == old(self).ranges@[i].consensus.state.term_of() ==> ({
                            let v2 = crate::consensus::add_vote(
                                old(self).ranges@[i].consensus.state.votes(),
                                pm.from_id@,
                            );
                            &&& final(self).ranges@[i].consensus.state.term_of() == old(self).ranges@[i].consensus.state.term_of()
                            &&& final(self).ranges@[i].consensus.state.until_of() == old(self).ranges@[i].consensus.state.until_of()
                            &&& (v2.len() >= old(self).ranges@[i].consensus.state.need_of()
                                ==> final(self).ranges@[i].consensus.state.is_leader())
                            &&& (v2.len() < old(self).ranges@[i].consensus.state.need_of()
                                ==> final(self).ranges@[i].consensus.state.is_candidate() && final(self).ranges@[i].consensus.state.votes() =~= v2)
                        }))
                        &&& (old(self).ranges@[i].consensus.state.is_leader() ==> {
                            &&& final(self).ranges@[i].consensus.state.is_leader()
                            &&& final(self).ranges@[i].consensus.state.term_of() == old(self).ranges@[i].consensus.state.term_of()
                            &&& final(self).ranges@[i].consensus.state.until_of() >= old(self).ranges@[i].consensus.state.until_of()
                        })
                        &&& ({
                            let was_candidate = old(self).ranges@[i].consensus.state.valid_candidate(now);
                            let was_leader = old(self).ranges@[i].consensus.state.valid_leader(now);
                            let matching = v.term == old(self).ranges@[i].consensus.state.term_of();
                            !((was_candidate && !v.success) || (was_candidate && v.success
                                && matching) || (was_leader && v.success && matching)) ==> final(self).ranges@[i].consensus == old(self).ranges@[i].consensus
                        })
                    })
                // an append at the named range: entered and acknowledged from
                // the followed leader, a resync asked for on a gap, ignored
                // from anyone else; committed history never moves here
                &&& forall|i: int|
                    0 <= i < old(self).ranges@.len() && (#[trigger] old(self).ranges@[i]).lower@
                        == pm.range_prefix@ ==> (pm.body
                        matches crate::msg::PeerMsgBody::Append(b) ==> {
                        &&& r.1@.len() == 0
                        &&& final(self).ranges@[i].consensus == old(self).ranges@[i].consensus
                        &&& final(self).ranges@[i].log.committed == old(self).ranges@[i].log.committed
                        &&& final(self).ranges@[i].log.last_committed_txid == old(self).ranges@[i].log.last_committed_txid
                        &&& (!(old(self).ranges@[i].consensus.state.valid_follower(now) && old(self).ranges@[i].consensus.state.follower_id() == pm.from_id@) ==> final(self).ranges@[i] == old(self).ranges@[i] && r.0@.len() == 0)
                        &&& (old(self).ranges@[i].consensus.state.valid_follower(now) && old(self).ranges@[i].consensus.state.follower_id() == pm.from_id@ && b.from_txid
                            <= old(self).ranges@[i].log.max_seen_txid() + 1 ==> {
                            &&& r.0@.len() == 1
                            &&& crate::range::body_of(r.0@[0]) == (
                            crate::msg::PeerMsgBody::AppendAck { batch_id: b.batch_id })
                            &&& forall|j: int|
                                0 <= j < b.entries@.len() ==> final(self).ranges@[i].log.has_pending(
                                    (#[trigger] b.entries@[j]).txid,
                                ) || b.entries@[j].txid <= old(self).ranges@[i].log.last_committed_txid
                            &&& forall|t: u64|
                                old(self).ranges@[i].log.has_pending(t) ==> final(self).ranges@[i].log.has_pending(t)
                        })
                        &&& (old(self).ranges@[i].consensus.state.valid_follower(now) && old(self).ranges@[i].consensus.state.follower_id() == pm.from_id@ && b.from_txid
                            > old(self).ranges@[i].log.max_seen_txid() + 1 ==> {
                            &&& final(self).ranges@[i] == old(self).ranges@[i]
                            &&& r.0@.len() == 1
                            &&& crate::range::body_of(r.0@[0]) == (
                            crate::msg::PeerMsgBody::ResyncReq {
                                from_txid: old(self).ranges@[i].log.max_seen_txid(),
                            })
                        })
                    })
                // a resync request at the named range changes nothing and is
                // served from committed history by a valid leader
                &&& forall|i: int|
                    0 <= i < old(self).ranges@.len() && (#[trigger] old(self).ranges@[i]).lower@
                        == pm.range_prefix@ ==> (pm.body
                        matches crate::msg::PeerMsgBody::ResyncReq { from_txid } ==> {
                        &&& final(self).ranges@[i] == old(self).ranges@[i]
                        &&& r.1@.len() == 0
                        &&& r.0@.len() <= 1
                        &&& (r.0@.len() == 1 ==> old(self).ranges@[i].consensus.state.valid_leader(
                            now,
                        ) && (crate::range::body_of(r.0@[0])
                            matches crate::msg::PeerMsgBody::Append(b) && {
                            &&& b.entries@.len() >= 1
                            &&& b.from_txid == from_txid + 1
                            &&& forall|j: int|
                                0 <= j < b.entries@.len() ==> (#[trigger] b.entries@[j]).same(
                                    old(self).ranges@[i].log.committed@[old(self).ranges@[i].log.committed@.len() - b.entries@.len() + j],
                                )
                        }))
                        &&& (old(self).ranges@[i].consensus.state.valid_leader(now) && from_txid
                            < u64::MAX && (exists|j: int|
                            0 <= j < old(self).ranges@[i].log.committed@.len() && (#[trigger] old(self).ranges@[i].log.committed@[j]).txid > from_txid) ==> r.0@.len() == 1)
                    })
            }),
    {
        let pm = match env.payload {
            Payload::Peer(pm) => pm,
            Payload::Cli(CliReq::HaveMetaReq) => {
                let address = clone_opt_string(&env.address);
                let reply = Envelope {
                    address,
                    session: env.session,
                    payload: Payload::CliResp(
                        CliRes::HaveMetaRes { has_seen_meta: self.has_seen_meta },
                    ),
                };
                let mut outs: Vec<Envelope> = Vec::new();
                outs.push(reply);
                return (outs, Vec::new());
            },
            _ => {
                return (Vec::new(), Vec::new());
            },
        };
        let mut i: usize = 0;
        let n = self.ranges.len();
        while i < n
            invariant
                *self == *old(self),
                self.wf(),
                now <= u64::MAX - crate::LEASE_DURATION_MS,
                env.payload == Payload::Peer(pm),
                (pm.body matches crate::msg::PeerMsgBody::Append(b) ==> forall|j: int|
                    0 <= j < b.entries@.len() ==> (#[trigger] b.entries@[j]).txid < u64::MAX),
                n == self.ranges@.len(),
                i <= n,
                forall|j: int|
                    0 <= j < i ==> (#[trigger] self.ranges@[j]).lower@ != pm.range_prefix@,
            decreases n - i,
        {
            if bytes_eq(&self.ranges[i].lower, &pm.range_prefix) {
                let session = env.session;
                let ghost po = self.ranges@;
                let mut rg = self.ranges.remove(i);
                let out = rg.handle_peer(now, pm, session);
                self.ranges.insert(i, rg);
                proof {
                    assert(self.ranges@ =~= po.update(i as int, self.ranges@[i as int]));
                    assert(self.ranges@[i as int].same_shape(po[i as int]));
                    assert forall|a: int, b: int| 0 <= a < b < self.ranges@.len() implies lex_le(
                        (#[trigger] self.ranges@[a]).upper@,
                        (#[trigger] self.ranges@[b]).lower@,
                    ) by {
                        assert(self.ranges@[a].upper == po[a].upper);
                        assert(self.ranges@[b].lower == po[b].lower);
                    }
                    // lower bounds are distinct, so this was the only match
                    assert forall|j: int|
                        0 <= j < po.len() && (#[trigger] po[j]).lower@ == pm.range_prefix@ implies j
                        == i by {
                        if j < i {
                            lemma_lex_lt_le_trans(po[j].lower@, po[j].upper@, po[i as int].lower@);
                            lemma_lex_irrefl(po[j].lower@);
                        }
                        if i < j {
                            lemma_lex_lt_le_trans(po[i as int].lower@, po[i as int].upper@, po[j].lower@);
                            lemma_lex_irrefl(po[j].lower@);
                        }
                    }
                }
                return out;
            }
            i = i + 1;
        }
        (Vec::new(), Vec::new())
    }

    /// Adopt cached topology: create the meta range — `[meta prefix, its
    /// upper bound)`, replicated across the replicas the topology lists —
    /// and add it to the partition.  Malformed topology, an empty replica
    /// list, or an overlap with an existing range is rejected.
    pub fn populate_meta(&mut self, cached_meta: Meta) -> (res: Result<(), PopulateError>)
        requires
            old(self).wf(),
        ensures
            final(self).wf(),
            final(self).id == old(self).id,
            final(self).local_peer_addr == old(self).local_peer_addr,
            final(self).local_cli_addr == old(self).local_cli_addr,
            // adopting the topology is what "having seen meta" means: the
            // bootstrap probe answers yes from now on, so a racing second
            // seeder observes it and aborts
            final(self).has_seen_meta == (old(self).has_seen_meta || res is Ok),
            res is Err ==> *final(self) == *old(self),
            res is Ok <==> meta_shape_ok(cached_meta) && meta_fits(old(self).ranges@),
            res is Ok ==> exists|k: int|
                0 <= k < final(self).ranges@.len() && #[trigger] inserted_range(
                    old(self).ranges@,
                    final(self).ranges@,
                    k,
                    final(self).ranges@[k],
                ) && ({
                    let rg = final(self).ranges@[k];
                    &&& rg.lower@ == meta_prefix_spec()
                    &&& rg.upper@ == prefix_upper(meta_prefix_spec())
                    &&& rg.id@ == old(self).id@
                    &&& rg.local_addr@ == old(self).local_peer_addr@
                    &&& rg.consensus.state.is_init()
                    &&& rg.log.pending@.len() == 0
                    &&& rg.log.committed@.len() == 0
                    &&& rg.peers@.len() == cached_meta.collections@[0].ranges@[0].replicas@.len()
                    &&& forall|p: int|
                        0 <= p < rg.peers@.len() ==> (#[trigger] rg.peers@[p])@
                            == cached_meta.collections@[0].ranges@[0].replicas@[p].address@
                    &&& rg.log.quorum == rg.peers@.len() / 2 + 1
                }),
    {
        let meta_key = meta_prefix();
        if cached_meta.collections.len() == 0 {
            return Result::Err(PopulateError::MalformedMeta);
        }
        if !bytes_eq(&cached_meta.collections[0].prefix, &meta_key) {
            return Result::Err(PopulateError::MalformedMeta);
        }
        if cached_meta.collections[0].ranges.len() == 0 {
            return Result::Err(PopulateError::MalformedMeta);
        }
        if !bytes_eq(&cached_meta.collections[0].ranges[0].lower, &meta_key) {
            return Result::Err(PopulateError::MalformedMeta);
        }
        if cached_meta.collections[0].ranges[0].replicas.len() == 0 {
            return Result::Err(PopulateError::MalformedMeta);
        }
        let peers = replica_addresses(&cached_meta.collections[0].ranges[0].replicas);
        proof {
            assert(crate::keys::has_non_ff(meta_prefix_spec())) by {
                assert(meta_prefix_spec()[2] != 0xff);
            }
            assert(meta_prefix_spec().subrange(0, meta_prefix_spec().len() as int) =~= meta_prefix_spec());
            assert(is_prefix(meta_prefix_spec(), meta_prefix_spec()));
            lemma_prefix_below_upper(meta_prefix_spec(), meta_prefix_spec());
        }
        let upper = upper_bound(&meta_key);
        let rg = Range::initial(
            self.id.clone(),
            self.local_peer_addr.clone(),
            meta_key,
            upper,
            peers,
        );
        match self.add_range(rg) {
            Result::Ok(()) => {
                self.has_seen_meta = true;
                Result::Ok(())
            },
            Result::Err(_) => Result::Err(PopulateError::Overlap),
        }
    }

    /// The fresh topology one node originates to seed a new cluster: one
    /// `META` collection, one range at the meta prefix, one replica per
    /// configured peer.  Persisting it — and refusing to when metadata
    /// already exists — is the storage collaborator's part.
    pub fn initialize_meta(peers: &Vec<String>) -> (m: Meta)
        ensures
            m.collections@.len() == 1,
            m.collections@[0].prefix@ == meta_prefix_spec(),
            m.collections@[0].name@ == "META"@,
            m.collections@[0].ranges@.len() == 1,
            m.collections@[0].ranges@[0].lower@ == meta_prefix_spec(),
            m.collections@[0].ranges@[0].replicas@.len() == peers@.len(),
            forall|i: int|
                0 <= i < peers@.len() ==> (
                #[trigger] m.collections@[0].ranges@[0].replicas@[i]).address@ == peers@[i]@,
            m.collections@[0].replication_factor == 3,
    {
        crate::bootstrap::initial_meta(peers)
    }
}

/// Why adopting cached topology was refused.
#[derive(Clone, Copy, PartialEq, Eq, Structural, Debug)]
pub enum PopulateError {
    /// The topology does not describe a meta collection at the meta prefix
    /// with at least one replica.
    MalformedMeta,
    /// The meta range would overlap a range this server already owns.
    Overlap,
}

/// The topology describes the meta collection this server can adopt.
pub open spec fn meta_shape_ok(m: Meta) -> bool {
    &&& m.collections@.len() > 0
    &&& m.collections@[0].prefix@ =~= meta_prefix_spec()
    &&& m.collections@[0].ranges@.len() > 0
    &&& m.collections@[0].ranges@[0].lower@ =~= meta_prefix_spec()
    &&& m.collections@[0].ranges@[0].replicas@.len() > 0
}

/// The meta range fits beside every existing range.
pub open spec fn meta_fits(rs: Seq<Range>) -> bool {
    forall|j: int|
        0 <= j < rs.len() ==> (lex_le((#[trigger] rs[j]).upper@, meta_prefix_spec()) || lex_le(
            prefix_upper(meta_prefix_spec()),
            rs[j].lower@,
        ))
}

/// The index of the longest lower bound that prefixes `key` — the last
/// match, since the ranges are sorted; `-1` when none matches.
pub open spec fn last_prefix_match(rs: Seq<Range>, key: Seq<u8>) -> int
    decreases rs.len(),
{
    if rs.len() == 0 {
        -1
    } else if is_prefix(rs.last().lower@, key) {
        rs.len() - 1
    } else {
        last_prefix_match(rs.drop_last(), key)
    }
}

proof fn lemma_last_match_found(rs: Seq<Range>, key: Seq<u8>, j: int)
    requires
        0 <= j < rs.len(),
        is_prefix(rs[j].lower@, key),
        forall|j2: int| j < j2 < rs.len() ==> !is_prefix((#[trigger] rs[j2]).lower@, key),
    ensures
        last_prefix_match(rs, key) == j,
    decreases rs.len(),
{
    if j < rs.len() - 1 {
        let prefix = rs.drop_last();
        assert(prefix[j] == rs[j]);
        assert forall|j2: int| j < j2 < prefix.len() implies !is_prefix(
            (#[trigger] prefix[j2]).lower@,
            key,
        ) by {
            assert(prefix[j2] == rs[j2]);
        }
        lemma_last_match_found(prefix, key, j);
    }
}

proof fn lemma_last_match_none(rs: Seq<Range>, key: Seq<u8>)
    requires
        forall|j: int| 0 <= j < rs.len() ==> !is_prefix((#[trigger] rs[j]).lower@, key),
    ensures
        last_prefix_match(rs, key) == -1,
    decreases rs.len(),
{
    if rs.len() > 0 {
        let prefix = rs.drop_last();
        assert forall|j: int| 0 <= j < prefix.len() implies !is_prefix(
            (#[trigger] prefix[j]).lower@,
            key,
        ) by {
            assert(prefix[j] == rs[j]);
        }
        lemma_last_match_none(prefix, key);
    }
}

/// What the server asks its caller to do with a client request.
pub enum CliOutcome {
    /// Send this reply back at once.
    Reply(Envelope),
    /// This replica leads the owning range: read `key` from storage and
    /// answer the session.
    ServeGet { lower: Vec<u8>, key: Vec<u8>, session: u64, address: Option<String> },
    /// The write was proposed under `txid`: send the broadcast, hand the
    /// newly committed entries to the learner, answer the session on commit.
    Proposed { txid: u64, bcast: Envelope, newly: Vec<LogEntry>, session: u64 },
}

/// `out` answers the session with a failure redirect: no owner or no leader.
pub open spec fn reply_fail(out: CliOutcome, address: Option<String>, session: u64) -> bool {
    out matches CliOutcome::Reply(e) && e.session == session && e.address == address
        && (e.payload matches Payload::CliResp(cr) && (cr matches CliRes::Redirect {
        success,
        target,
    } && !success && target is None))
}

/// `out` redirects the session to the leader at `addr`.
pub open spec fn reply_redirect(
    out: CliOutcome,
    address: Option<String>,
    session: u64,
    addr: Seq<char>,
) -> bool {
    out matches CliOutcome::Reply(e) && e.session == session && e.address == address
        && (e.payload matches Payload::CliResp(cr) && (cr matches CliRes::Redirect {
        success,
        target,
    } && success && (target matches Some(t) && t@ == addr)))
}

/// `out` answers the bootstrap probe with this node's meta flag.
pub open spec fn reply_have_meta(
    out: CliOutcome,
    address: Option<String>,
    session: u64,
    seen: bool,
) -> bool {
    out matches CliOutcome::Reply(e) && e.session == session && e.address == address
        && (e.payload matches Payload::CliResp(cr) && cr == (CliRes::HaveMetaRes {
        has_seen_meta: seen,
    }))
}

/// An exact copy of an optional address.
fn clone_opt_string(a: &Option<String>) -> (r: Option<String>)
    ensures
        r == *a,
{
    match a {
        Option::None => Option::None,
        Option::Some(s) => Option::Some(s.clone()),
    }
}

/// The failure redirect: the request has no owner here, or no leader stands.
fn fail_reply(address: Option<String>, session: u64) -> (out: CliOutcome)
    ensures
        reply_fail(out, address, session),
{
    CliOutcome::Reply(
        Envelope {
            address,
            session,
            payload: Payload::CliResp(
                CliRes::Redirect { success: false, target: Option::None },
            ),
        },
    )
}

/// The partition invariant, one half: under the Server's invariant no two
/// distinct ranges own the same key.
pub proof fn lemma_unique_owner(s: Server, k: Seq<u8>, i: int, j: int)
    requires
        s.wf(),
        0 <= i < s.ranges@.len(),
        0 <= j < s.ranges@.len(),
        s.ranges@[i].contains_key(k),
        s.ranges@[j].contains_key(k),
    ensures
        i == j,
{
    if i < j {
        // k < upper_i <= lower_j <= k: a cycle in a strict order
        lemma_lex_lt_le_trans(k, s.ranges@[i].upper@, s.ranges@[j].lower@);
        lemma_lex_lt_le_trans(k, s.ranges@[j].lower@, k);
        lemma_lex_irrefl(k);
    }
    if j < i {
        lemma_lex_lt_le_trans(k, s.ranges@[j].upper@, s.ranges@[i].lower@);
        lemma_lex_lt_le_trans(k, s.ranges@[i].lower@, k);
        lemma_lex_irrefl(k);
    }
}

/// The partition invariant, other half: where consecutive ranges abut, every
/// key from the first lower bound to the last upper bound has an owner — so
/// with the first, exactly one.
pub proof fn lemma_contiguous_cover(rs: Seq<Range>, k: Seq<u8>)
    requires
        rs.len() > 0,
        forall|i: int| 0 <= i < rs.len() ==> lex_lt((#[trigger] rs[i]).lower@, rs[i].upper@),
        forall|i: int| 0 < i < rs.len() ==> (#[trigger] rs[i]).lower@ =~= rs[i - 1].upper@,
        lex_le(rs[0].lower@, k),
        lex_lt(k, rs.last().upper@),
    ensures
        exists|i: int| 0 <= i < rs.len() && (#[trigger] rs[i]).contains_key(k),
    decreases rs.len(),
{
    let n = rs.len() as int;
    if lex_le(rs[n - 1].lower@, k) {
        assert(rs[n - 1].contains_key(k));
    } else {
        // k falls below the last range, so strictly inside the prefix
        assert(lex_lt(k, rs[n - 1].lower@)) by {
            if !lex_lt(k, rs[n - 1].lower@) {
                crate::keys::lemma_lex_total(rs[n - 1].lower@, k);
            }
        }
        assert(n >= 2) by {
            if n == 1 {
                lemma_lex_lt_le_trans(k, rs[0].lower@, k);
                lemma_lex_irrefl(k);
            }
        }
        let prefix = rs.drop_last();
        assert(prefix.last().upper@ =~= rs[n - 1].lower@);
        lemma_contiguous_cover(prefix, k);
        let i = choose|i: int| 0 <= i < prefix.len() && (#[trigger] prefix[i]).contains_key(k);
        assert(rs[i].contains_key(k));
    }
}

} // verus!
