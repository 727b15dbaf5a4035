//! The per-range leader-election and lease state machine.
//!
//! A replica is `Init` (no participant), a `Candidate` trying to win a
//! time-bounded lease, a `Leader` holding one, or a `Follower` of someone
//! else's.  Leadership is never held indefinitely: it lapses at `until`
//! absent a fresh quorum of grants.

use vstd::prelude::*;

use crate::msg::{VoteReq, VoteRes};
use crate::LEASE_DURATION_MS;

verus! {

/// The election/lease state of one replica of one range.
pub enum ConsensusState {
    /// Not a participant in any election.
    Init,
    /// Trying to win the lease that runs out at `until`; `need` is the quorum
    /// size and `have` the distinct peer tokens that granted this term so far.
    Candidate { term: u64, until: u64, need: usize, have: Vec<String> },
    /// Holding the lease until `until`; `have` accumulates grants toward the
    /// next renewal and is reset each time the lease is extended.
    Leader { term: u64, until: u64, need: usize, have: Vec<String> },
    /// Following the leader `id` at `leader_addr` until `until` lapses.
    Follower { term: u64, id: String, leader_addr: String, until: u64, tok: u64 },
}

/// The views of the tokens in a grant set.
pub open spec fn votes_of(have: Seq<String>) -> Seq<Seq<char>> {
    have.map_values(|x: String| x@)
}

impl ConsensusState {
    pub open spec fn is_init(self) -> bool {
        matches!(self, ConsensusState::Init)
    }

    pub open spec fn is_candidate(self) -> bool {
        matches!(self, ConsensusState::Candidate { .. })
    }

    pub open spec fn is_leader(self) -> bool {
        matches!(self, ConsensusState::Leader { .. })
    }

    pub open spec fn is_follower(self) -> bool {
        matches!(self, ConsensusState::Follower { .. })
    }

    /// The election term this state speaks for; `Init` has none and reports 0.
    pub open spec fn term_of(self) -> u64 {
        match self {
            ConsensusState::Init => 0,
            ConsensusState::Candidate { term, .. } => term,
            ConsensusState::Leader { term, .. } => term,
            ConsensusState::Follower { term, .. } => term,
        }
    }

    /// When the current lease or candidacy lapses; `Init` has none.
    pub open spec fn until_of(self) -> u64 {
        match self {
            ConsensusState::Init => 0,
            ConsensusState::Candidate { until, .. } => until,
            ConsensusState::Leader { until, .. } => until,
            ConsensusState::Follower { until, .. } => until,
        }
    }

    /// The quorum size a candidacy or leadership was started with.
    pub open spec fn need_of(self) -> usize {
        match self {
            ConsensusState::Candidate { need, .. } => need,
            ConsensusState::Leader { need, .. } => need,
            _ => 0,
        }
    }

    /// The distinct tokens that granted the current term so far.
    pub open spec fn votes(self) -> Seq<Seq<char>> {
        match self {
            ConsensusState::Candidate { have, .. } => votes_of(have@),
            ConsensusState::Leader { have, .. } => votes_of(have@),
            _ => Seq::empty(),
        }
    }

    /// The id of the followed leader, for a `Follower`.
    pub open spec fn follower_id(self) -> Seq<char> {
        match self {
            ConsensusState::Follower { id, .. } => id@,
            _ => Seq::empty(),
        }
    }

    /// The address of the followed leader, for a `Follower`.
    pub open spec fn follower_addr(self) -> Seq<char> {
        match self {
            ConsensusState::Follower { leader_addr, .. } => leader_addr@,
            _ => Seq::empty(),
        }
    }

    /// The routing token remembered from the accepted request, for a `Follower`.
    pub open spec fn follower_tok(self) -> u64 {
        match self {
            ConsensusState::Follower { tok, .. } => tok,
            _ => 0,
        }
    }

    /// A leader whose lease has not lapsed.
    pub open spec fn valid_leader(self, now: u64) -> bool {
        self.is_leader() && now < self.until_of()
    }

    /// A candidacy whose attempt window has not lapsed.
    pub open spec fn valid_candidate(self, now: u64) -> bool {
        self.is_candidate() && now < self.until_of()
    }

    /// A followership whose lease has not lapsed.
    pub open spec fn valid_follower(self, now: u64) -> bool {
        self.is_follower() && now < self.until_of()
    }

    /// Internal invariant: grant sets hold distinct tokens, and a quorum
    /// size is at least one.
    pub open spec fn wf(self) -> bool {
        match self {
            ConsensusState::Candidate { need, have, .. } => votes_of(have@).no_duplicates()
                && need >= 1,
            ConsensusState::Leader { need, have, .. } => votes_of(have@).no_duplicates()
                && need >= 1,
            _ => true,
        }
    }
}

/// A grant set after one more token: unchanged if the token already
/// granted, else extended by it.
pub open spec fn add_vote(v: Seq<Seq<char>>, s: Seq<char>) -> Seq<Seq<char>> {
    if v.contains(s) {
        v
    } else {
        v.push(s)
    }
}

/// Whether the grant set already holds this token.
pub(crate) fn contains_token(have: &Vec<String>, s: &String) -> (r: bool)
    ensures
        r == votes_of(have@).contains(s@),
{
    let mut i: usize = 0;
    while i < have.len()
        invariant
            i <= have.len(),
            forall|j: int| 0 <= j < i ==> votes_of(have@)[j] != s@,
        decreases have.len() - i,
    {
        let x = &have[i];
        if x.eq(s) {
            proof {
                assert(votes_of(have@)[i as int] == s@);
            }
            return true;
        }
        i = i + 1;
    }
    proof {
        assert forall|j: int| 0 <= j < votes_of(have@).len() implies votes_of(have@)[j] != s@ by {}
    }
    false
}

/// The log-completeness check: a voter with committed history
/// `(local_last_tx_term, local_max_txid)` may accept a requester only if the
/// requester's term covers the voter's last committed term and the
/// requester's committed history is at least as advanced as the voter's.
pub open spec fn log_ok(req: VoteReq, local_max_txid: u64, local_last_tx_term: u64) -> bool {
    &&& req.term >= local_last_tx_term
    &&& ((req.max_txid >= local_max_txid && req.last_tx_term == local_last_tx_term)
        || req.last_tx_term > local_last_tx_term)
}

/// The vote-granting rule, whole: what a voter in `state` at time `now`
/// answers to a lease request `req` from `sender_id`, given the voter's own
/// id and committed history.  `on_vote_request` grants exactly when this
/// holds.
pub open spec fn grants(
    state: ConsensusState,
    now: u64,
    req: VoteReq,
    sender_id: Seq<char>,
    self_id: Seq<char>,
    local_max_txid: u64,
    local_last_tx_term: u64,
) -> bool {
    if sender_id == self_id {
        true
    } else if state.valid_follower(now) && state.follower_id() != sender_id {
        false
    } else if state.is_follower() && state.follower_id() == sender_id {
        true
    } else {
        log_ok(req, local_max_txid, local_last_tx_term)
    }
}

/// One replica's election state together with the highest term it has seen,
/// which outlives candidacies abandoned back to `Init`.
pub struct Consensus {
    pub state: ConsensusState,
    pub max_term_seen: u64,
}

impl Consensus {
    pub open spec fn wf(self) -> bool {
        self.state.wf() && self.max_term_seen >= self.state.term_of()
    }

    /// A fresh non-participant.
    pub fn new() -> (r: Consensus)
        ensures
            r.wf(),
            r.state.is_init(),
            r.max_term_seen == 0,
    {
        Consensus { state: ConsensusState::Init, max_term_seen: 0 }
    }

    /// The periodic tick.  A standing valid leadership or candidacy
    /// (re)broadcasts its lease request; a valid followership waits; anything
    /// else — `Init` or a lapsed lease — starts a fresh candidacy one term
    /// above everything seen and broadcasts it.
    pub fn on_cron(&mut self, now: u64, npeers: usize, max_txid: u64, last_tx_term: u64) -> (bcast:
        Option<VoteReq>)
        requires
            old(self).wf(),
            now <= u64::MAX - LEASE_DURATION_MS,
            old(self).max_term_seen < u64::MAX,
        ensures
            final(self).wf(),
            old(self).state.valid_leader(now) || old(self).state.valid_candidate(now) ==> {
                &&& *final(self) == *old(self)
                &&& bcast == Some(
                    VoteReq {
                        term: old(self).state.term_of(),
                        max_txid: max_txid,
                        last_tx_term: last_tx_term,
                    },
                )
            },
            old(self).state.valid_follower(now) ==> *final(self) == *old(self) && bcast is None,
            !(old(self).state.valid_leader(now) || old(self).state.valid_candidate(now) || old(
                self,
            ).state.valid_follower(now)) ==> {
                &&& final(self).state.is_candidate()
                &&& final(self).state.term_of() == old(self).max_term_seen + 1
                &&& final(self).state.until_of() == now + LEASE_DURATION_MS
                &&& final(self).state.need_of() == npeers / 2 + 1
                &&& final(self).state.votes() =~= Seq::<Seq<char>>::empty()
                &&& final(self).max_term_seen == old(self).max_term_seen + 1
                &&& bcast == Some(
                    VoteReq {
                        term: (old(self).max_term_seen + 1) as u64,
                        max_txid: max_txid,
                        last_tx_term: last_tx_term,
                    },
                )
            },
    {
        match &self.state {
            ConsensusState::Leader { term, until, .. } if now < *until => Some(
                VoteReq { term: *term, max_txid, last_tx_term },
            ),
            ConsensusState::Candidate { term, until, .. } if now < *until => Some(
                VoteReq { term: *term, max_txid, last_tx_term },
            ),
            ConsensusState::Follower { until, .. } if now < *until => None,
            _ => {
                let t = self.max_term_seen + 1;
                self.max_term_seen = t;
                self.state = ConsensusState::Candidate {
                    term: t,
                    until: now + LEASE_DURATION_MS,
                    need: npeers / 2 + 1,
                    have: Vec::new(),
                };
                Some(VoteReq { term: t, max_txid, last_tx_term })
            },
        }
    }

    /// Note one deliberate corner of the renewal rule: a follower of the
    /// sender renews without re-running the log-completeness check even when
    /// its own lease has already lapsed — "already following" goes by the
    /// recorded leader, not by the lease.  The log-completeness law
    /// (`lemma_log_completeness`) therefore speaks of fresh grants only.
    ///
    /// Decide a lease/vote request.  Self-addressed requests are granted
    /// without a state change; a valid follower of someone else rejects and
    /// reports its term; the followed leader is renewed; anyone else is
    /// accepted as the new leader exactly when the log-completeness check
    /// passes, and rejected otherwise.
    pub fn on_vote_request(
        &mut self,
        now: u64,
        req: VoteReq,
        sender_id: &String,
        sender_addr: &String,
        tok: u64,
        self_id: &String,
        local_max_txid: u64,
        local_last_tx_term: u64,
    ) -> (resp: VoteRes)
        requires
            old(self).wf(),
            now <= u64::MAX - LEASE_DURATION_MS,
        ensures
            final(self).wf(),
            // the decision is exactly the vote-granting rule
            resp.success == grants(
                old(self).state,
                now,
                req,
                sender_id@,
                self_id@,
                local_max_txid,
                local_last_tx_term,
            ),
            // a grant to anyone not already followed and not ourselves passed
            // the log-completeness check
            resp.success && sender_id@ != self_id@ && !(old(self).state.is_follower() && old(
                self,
            ).state.follower_id() == sender_id@) ==> log_ok(req, local_max_txid, local_last_tx_term),
            // self-addressed: always granted, no state change
            sender_id@ == self_id@ ==> *final(self) == *old(self) && resp == (VoteRes {
                term: req.term,
                success: true,
            }),
            // a valid follower of a different leader rejects, reporting its term
            sender_id@ != self_id@ && old(self).state.valid_follower(now) && old(
                self,
            ).state.follower_id() != sender_id@ ==> *final(self) == *old(self) && resp == (VoteRes {
                term: old(self).state.term_of(),
                success: false,
            }),
            // the already-followed leader is granted and the lease extended
            sender_id@ != self_id@ && old(self).state.is_follower() && old(self).state.follower_id()
                == sender_id@ && !(old(self).state.valid_follower(now) && old(
                self,
            ).state.follower_id() != sender_id@) ==> {
                &&& resp == (VoteRes { term: req.term, success: true })
                &&& final(self).state.is_follower()
                &&& final(self).state.term_of() == old(self).state.term_of()
                &&& final(self).state.follower_id() == old(self).state.follower_id()
                &&& final(self).state.follower_addr() == old(self).state.follower_addr()
                &&& final(self).state.follower_tok() == old(self).state.follower_tok()
                &&& final(self).state.until_of() == now + LEASE_DURATION_MS
                &&& final(self).max_term_seen == old(self).max_term_seen
            },
            // anyone else is accepted exactly when the log check passes
            sender_id@ != self_id@ && !old(self).state.is_follower() && !(old(
                self,
            ).state.valid_follower(now)) ==> if log_ok(req, local_max_txid, local_last_tx_term) {
                &&& resp == (VoteRes { term: req.term, success: true })
                &&& final(self).state.is_follower()
                &&& final(self).state.term_of() == req.term
                &&& final(self).state.follower_id() == sender_id@
                &&& final(self).state.follower_addr() == sender_addr@
                &&& final(self).state.follower_tok() == tok
                &&& final(self).state.until_of() == now + LEASE_DURATION_MS
                &&& final(self).max_term_seen == if req.term > old(self).max_term_seen {
                    req.term
                } else {
                    old(self).max_term_seen
                }
            } else {
                &&& *final(self) == *old(self)
                &&& resp == (VoteRes { term: old(self).state.term_of(), success: false })
            },
            // a lapsed follower of a different leader is treated the same way
            sender_id@ != self_id@ && old(self).state.is_follower() && old(self).state.follower_id()
                != sender_id@ && !old(self).state.valid_follower(now) ==> if log_ok(
                req,
                local_max_txid,
                local_last_tx_term,
            ) {
                &&& resp == (VoteRes { term: req.term, success: true })
                &&& final(self).state.is_follower()
                &&& final(self).state.term_of() == req.term
                &&& final(self).state.follower_id() == sender_id@
                &&& final(self).state.follower_addr() == sender_addr@
                &&& final(self).state.follower_tok() == tok
                &&& final(self).state.until_of() == now + LEASE_DURATION_MS
            } else {
                &&& *final(self) == *old(self)
                &&& resp == (VoteRes { term: old(self).state.term_of(), success: false })
            },
            // followership is exclusive: afterwards at most one leader is
            // followed, ours or the sender
            final(self).state.is_follower() ==> final(self).state.follower_id() == old(
                self,
            ).state.follower_id() || final(self).state.follower_id() == sender_id@,
    {
        if *sender_id == *self_id {
            return VoteRes { term: req.term, success: true };
        }
        let follower_of_sender = match &self.state {
            ConsensusState::Follower { id, .. } => *id == *sender_id,
            _ => false,
        };
        let valid_follower_of_other = match &self.state {
            ConsensusState::Follower { id, until, .. } => now < *until && !(*id == *sender_id),
            _ => false,
        };
        if valid_follower_of_other {
            let t = match &self.state {
                ConsensusState::Follower { term, .. } => *term,
                _ => 0,
            };
            return VoteRes { term: t, success: false };
        }
        if follower_of_sender {
            match &mut self.state {
                ConsensusState::Follower { until, .. } => {
                    *until = now + LEASE_DURATION_MS;
                },
                _ => {},
            }
            return VoteRes { term: req.term, success: true };
        }
        let ok = req.term >= local_last_tx_term && ((req.max_txid >= local_max_txid
            && req.last_tx_term == local_last_tx_term) || req.last_tx_term > local_last_tx_term);
        if ok {
            self.state = ConsensusState::Follower {
                term: req.term,
                id: sender_id.clone(),
                leader_addr: sender_addr.clone(),
                until: now + LEASE_DURATION_MS,
                tok,
            };
            if req.term > self.max_term_seen {
                self.max_term_seen = req.term;
            }
            VoteRes { term: req.term, success: true }
        } else {
            let t = match &self.state {
                ConsensusState::Init => 0,
                ConsensusState::Candidate { term, .. } => *term,
                ConsensusState::Leader { term, .. } => *term,
                ConsensusState::Follower { term, .. } => *term,
            };
            VoteRes { term: t, success: false }
        }
    }

    /// Count a vote/lease response.  Only a valid candidacy or leadership
    /// reacts: a rejection abandons the candidacy back to `Init` (adopting a
    /// higher reported term); a grant for the matching term joins the grant
    /// set, and a full quorum either wins the lease window (candidate) or
    /// extends it (leader).  Anything else is an anomaly and changes nothing.
    pub fn on_vote_response(&mut self, now: u64, term: u64, success: bool, sender: &String)
        requires
            old(self).wf(),
            now <= u64::MAX - LEASE_DURATION_MS,
        ensures
            final(self).wf(),
            // a valid candidate is abandoned on any rejection
            old(self).state.valid_candidate(now) && !success ==> {
                &&& final(self).state.is_init()
                &&& final(self).max_term_seen == if term > old(self).max_term_seen {
                    term
                } else {
                    old(self).max_term_seen
                }
            },
            // a valid candidate counts a matching grant; a quorum wins the
            // lease window as it stands, without extending it
            old(self).state.valid_candidate(now) && success && term == old(self).state.term_of()
                ==> {
                let v2 = add_vote(old(self).state.votes(), sender@);
                &&& final(self).max_term_seen == old(self).max_term_seen
                &&& final(self).state.term_of() == old(self).state.term_of()
                &&& final(self).state.until_of() == old(self).state.until_of()
                &&& final(self).state.need_of() == old(self).state.need_of()
                &&& if v2.len() >= old(self).state.need_of() {
                    final(self).state.is_leader() && final(self).state.votes() =~= Seq::<
                        Seq<char>,
                    >::empty()
                } else {
                    final(self).state.is_candidate() && final(self).state.votes() =~= v2
                }
            },
            // a valid leader counts a matching grant; a quorum resets the
            // grant set and extends the lease
            old(self).state.valid_leader(now) && success && term == old(self).state.term_of()
                ==> {
                let v2 = add_vote(old(self).state.votes(), sender@);
                &&& final(self).max_term_seen == old(self).max_term_seen
                &&& final(self).state.is_leader()
                &&& final(self).state.term_of() == old(self).state.term_of()
                &&& final(self).state.need_of() == old(self).state.need_of()
                &&& if v2.len() >= old(self).state.need_of() {
                    &&& final(self).state.votes() =~= Seq::<Seq<char>>::empty()
                    &&& final(self).state.until_of() == if now + LEASE_DURATION_MS > old(
                        self,
                    ).state.until_of() {
                        (now + LEASE_DURATION_MS) as int
                    } else {
                        old(self).state.until_of() as int
                    }
                } else {
                    &&& final(self).state.votes() =~= v2
                    &&& final(self).state.until_of() == old(self).state.until_of()
                }
            },
            // every other combination is an anomaly: no state transition
            ({
                let was_candidate = old(self).state.valid_candidate(now);
                let was_leader = old(self).state.valid_leader(now);
                let matching = term == old(self).state.term_of();
                !((was_candidate && !success) || (was_candidate && success && matching) || (
                was_leader && success && matching)) ==> *final(self) == *old(self)
            }),
            // a leader stays leader here, its term fixed and its lease never
            // shortened ...
            old(self).state.is_leader() ==> {
                &&& final(self).state.is_leader()
                &&& final(self).state.term_of() == old(self).state.term_of()
                &&& final(self).state.need_of() == old(self).state.need_of()
                &&& final(self).state.until_of() >= old(self).state.until_of()
            },
            // ... and its lease grows only through a fresh quorum of grants
            // for its own unexpired term
            old(self).state.is_leader() && final(self).state.until_of() > old(
                self,
            ).state.until_of() ==> {
                &&& old(self).state.valid_leader(now)
                &&& success
                &&& term == old(self).state.term_of()
                &&& add_vote(old(self).state.votes(), sender@).len() >= old(self).state.need_of()
            },
    {
        let mut st = ConsensusState::Init;
        core::mem::swap(&mut st, &mut self.state);
        match st {
            ConsensusState::Candidate { term: t, until, need, mut have } => {
                if now < until && success && term == t {
                    if !contains_token(&have, sender) {
                        proof {
                            let v2 = votes_of(have@).push(sender@);
                            assert(votes_of(have@.push(*sender)) =~= v2);
                            assert forall|i: int, j: int|
                                0 <= i < v2.len() && 0 <= j < v2.len() && i != j implies v2[i]
                                != v2[j] by {
                                assert(forall|k: int|
                                    0 <= k < votes_of(have@).len() ==> v2[k] == votes_of(have@)[k]);
                            }
                        }
                        have.push(sender.clone());
                    }
                    if have.len() >= need {
                        self.state = ConsensusState::Leader {
                            term: t,
                            until,
                            need,
                            have: Vec::new(),
                        };
                    } else {
                        self.state = ConsensusState::Candidate { term: t, until, need, have };
                    }
                } else if now < until && !success {
                    // abandoned: stay Init, adopt a higher reported term
                    if term > self.max_term_seen {
                        self.max_term_seen = term;
                    }
                } else {
                    self.state = ConsensusState::Candidate { term: t, until, need, have };
                }
            },
            ConsensusState::Leader { term: t, until, need, mut have } => {
                if now < until && success && term == t {
                    if !contains_token(&have, sender) {
                        proof {
                            let v2 = votes_of(have@).push(sender@);
                            assert(votes_of(have@.push(*sender)) =~= v2);
                            assert forall|i: int, j: int|
                                0 <= i < v2.len() && 0 <= j < v2.len() && i != j implies v2[i]
                                != v2[j] by {
                                assert(forall|k: int|
                                    0 <= k < votes_of(have@).len() ==> v2[k] == votes_of(have@)[k]);
                            }
                        }
                        have.push(sender.clone());
                    }
                    if have.len() >= need {
                        let renewed = now + LEASE_DURATION_MS;
                        let new_until = if renewed > until {
                            renewed
                        } else {
                            until
                        };
                        self.state = ConsensusState::Leader {
                            term: t,
                            until: new_until,
                            need,
                            have: Vec::new(),
                        };
                    } else {
                        self.state = ConsensusState::Leader { term: t, until, need, have };
                    }
                } else {
                    self.state = ConsensusState::Leader { term: t, until, need, have };
                }
            },
            other => {
                self.state = other;
            },
        }
    }
}

/// Log completeness: a fresh grant — one to anybody but the voter itself or
/// its already-followed leader — never goes to a requester whose committed
/// history `(last_tx_term, max_txid)` is behind the voter's own.  So a
/// leader elected by a majority of the surviving replicas of the previous
/// term cannot lose a committed entry.
pub proof fn lemma_log_completeness(
    state: ConsensusState,
    now: u64,
    req: VoteReq,
    sender_id: Seq<char>,
    self_id: Seq<char>,
    local_max_txid: u64,
    local_last_tx_term: u64,
)
    requires
        sender_id != self_id,
        !(state.is_follower() && state.follower_id() == sender_id),
        !(req.last_tx_term > local_last_tx_term || (req.last_tx_term == local_last_tx_term
            && req.max_txid >= local_max_txid)),
    ensures
        !grants(state, now, req, sender_id, self_id, local_max_txid, local_last_tx_term),
{
}

/// A voter validly following one leader refuses every other candidate: the
/// per-voter exclusivity behind election safety.
pub proof fn lemma_vote_exclusive(
    state: ConsensusState,
    now: u64,
    req: VoteReq,
    other: Seq<char>,
    self_id: Seq<char>,
    local_max_txid: u64,
    local_last_tx_term: u64,
)
    requires
        state.valid_follower(now),
        other != state.follower_id(),
        other != self_id,
    ensures
        !grants(state, now, req, other, self_id, local_max_txid, local_last_tx_term),
{
}

/// Two quorum-sized subsets of one replica universe share a member.
pub proof fn lemma_quorum_overlap(
    universe: Set<Seq<char>>,
    a: Set<Seq<char>>,
    b: Set<Seq<char>>,
)
    requires
        universe.finite(),
        a.subset_of(universe),
        b.subset_of(universe),
        a.len() + b.len() > universe.len(),
    ensures
        exists|t: Seq<char>| a.contains(t) && b.contains(t),
{
    vstd::set_lib::lemma_len_subset(a, universe);
    vstd::set_lib::lemma_len_subset(b, universe);
    if !(exists|t: Seq<char>| a.contains(t) && b.contains(t)) {
        assert(a.disjoint(b));
        vstd::set_lib::lemma_set_disjoint_lens(a, b);
        assert((a + b).len() == a.len() + b.len());
        vstd::set_lib::lemma_len_subset(a + b, universe);
        assert(false);
    }
}

/// Election safety: two leaderships of one range and term each rest on a
/// quorum (`floor(n/2) + 1`) of grants, and two such grant sets always share
/// a voter.  That voter granted both candidates — which no voter does while
/// its followership lease stands (`lemma_vote_exclusive`), since a grant
/// makes the voter a follower of exactly the granted candidate.  So no two
/// replicas hold `Leader` with unexpired leases for the same term.
pub proof fn lemma_election_safety(
    universe: Set<Seq<char>>,
    need: nat,
    a: Set<Seq<char>>,
    b: Set<Seq<char>>,
)
    requires
        universe.finite(),
        need == universe.len() / 2 + 1,
        a.subset_of(universe),
        b.subset_of(universe),
        a.len() >= need,
        b.len() >= need,
    ensures
        exists|t: Seq<char>| a.contains(t) && b.contains(t),
{
    let n = universe.len() as int;
    vstd::arithmetic::div_mod::lemma_fundamental_div_mod(n, 2);
    assert(2 * (n / 2) + 2 > n);
    lemma_quorum_overlap(universe, a, b);
}

} // verus!
