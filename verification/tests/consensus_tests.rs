use rangedb::consensus::{Consensus, ConsensusState};
use rangedb::msg::{VoteReq, VoteRes};
use rangedb::LEASE_DURATION_MS;

fn candidate(term: u64, until: u64, need: usize, have: Vec<String>) -> ConsensusState {
    ConsensusState::Candidate { term, until, need, have }
}

#[test]
fn election_three_replicas_quorum_two() {
    // Replica A's cron fires first: term becomes 5, a vote request carrying
    // its committed history goes out.
    let mut a = Consensus { state: ConsensusState::Init, max_term_seen: 4 };
    let req = a.on_cron(0, 3, 10, 4).expect("a fresh candidacy broadcasts");
    assert_eq!(req, VoteReq { term: 5, max_txid: 10, last_tx_term: 4 });
    match &a.state {
        ConsensusState::Candidate { term, need, have, .. } => {
            assert_eq!(*term, 5);
            assert_eq!(*need, 2);
            assert!(have.is_empty());
        }
        _ => panic!("expected a candidate"),
    }

    // B and C, each with max_txid <= 10 and last_tx_term <= 4, grant.
    let a_id = "replica-a".to_string();
    let a_addr = "10.0.0.1:9000".to_string();
    let mut b = Consensus::new();
    let resp_b = b.on_vote_request(0, req, &a_id, &a_addr, 0, &"replica-b".to_string(), 10, 4);
    assert_eq!(resp_b, VoteRes { term: 5, success: true });
    let mut c = Consensus::new();
    let resp_c = c.on_vote_request(0, req, &a_id, &a_addr, 0, &"replica-c".to_string(), 7, 3);
    assert_eq!(resp_c, VoteRes { term: 5, success: true });

    // A counts its own self-grant plus one external grant: have reaches
    // need == 2 and A becomes leader at term 5, its window unchanged.
    a.on_vote_response(0, 5, true, &a_id);
    match &a.state {
        ConsensusState::Candidate { have, .. } => assert_eq!(have.len(), 1),
        _ => panic!("still a candidate after one grant"),
    }
    a.on_vote_response(0, 5, true, &"replica-b".to_string());
    match &a.state {
        ConsensusState::Leader { term, until, have, .. } => {
            assert_eq!(*term, 5);
            assert_eq!(*until, LEASE_DURATION_MS);
            assert!(have.is_empty());
        }
        _ => panic!("expected a leader after quorum"),
    }
}

#[test]
fn self_grant_counts_once() {
    let a_id = "replica-a".to_string();
    let mut a = Consensus {
        state: candidate(5, 1000, 2, vec![]),
        max_term_seen: 5,
    };
    a.on_vote_response(0, 5, true, &a_id);
    a.on_vote_response(0, 5, true, &a_id);
    match &a.state {
        ConsensusState::Candidate { have, .. } => assert_eq!(have.len(), 1),
        _ => panic!("a duplicate grant must not win an election"),
    }
}

#[test]
fn rejection_while_following_a_valid_leader() {
    // D follows leader A at term 5; E starts a candidacy at term 6.  D is
    // still a valid follower of a different node: it rejects, reporting 5.
    let mut d = Consensus {
        state: ConsensusState::Follower {
            term: 5,
            id: "replica-a".to_string(),
            leader_addr: "10.0.0.1:9000".to_string(),
            until: 1000,
            tok: 0,
        },
        max_term_seen: 5,
    };
    let req = VoteReq { term: 6, max_txid: 99, last_tx_term: 9 };
    let resp = d.on_vote_request(
        10,
        req,
        &"replica-e".to_string(),
        &"10.0.0.5:9000".to_string(),
        0,
        &"replica-d".to_string(),
        10,
        4,
    );
    assert_eq!(resp, VoteRes { term: 5, success: false });
    match &d.state {
        ConsensusState::Follower { id, .. } => assert_eq!(id, "replica-a"),
        _ => panic!("the follower must not move"),
    }

    // E sees the rejection and reverts to Init.
    let mut e = Consensus { state: candidate(6, 1000, 2, vec![]), max_term_seen: 6 };
    e.on_vote_response(10, 5, false, &"replica-d".to_string());
    assert!(matches!(e.state, ConsensusState::Init));
    assert_eq!(e.max_term_seen, 6);
}

#[test]
fn log_completeness_blocks_stale_candidates() {
    // The voter's history is (term 4, txid 10).  A candidate behind on txid
    // with an equal last term is refused; so is one behind on term.
    let mut v = Consensus::new();
    let stale = VoteReq { term: 7, max_txid: 9, last_tx_term: 4 };
    let resp = v.on_vote_request(
        0,
        stale,
        &"x".to_string(),
        &"xa".to_string(),
        0,
        &"voter".to_string(),
        10,
        4,
    );
    assert!(!resp.success);
    assert!(matches!(v.state, ConsensusState::Init));

    let older_term = VoteReq { term: 7, max_txid: 50, last_tx_term: 3 };
    let resp = v.on_vote_request(
        0,
        older_term,
        &"x".to_string(),
        &"xa".to_string(),
        0,
        &"voter".to_string(),
        10,
        4,
    );
    assert!(!resp.success);

    // A candidate with a strictly later committed term wins the vote even
    // with a smaller txid.
    let newer_term = VoteReq { term: 7, max_txid: 2, last_tx_term: 5 };
    let resp = v.on_vote_request(
        0,
        newer_term,
        &"x".to_string(),
        &"xa".to_string(),
        0,
        &"voter".to_string(),
        10,
        4,
    );
    assert!(resp.success);
    match &v.state {
        ConsensusState::Follower { term, id, .. } => {
            assert_eq!(*term, 7);
            assert_eq!(id, "x");
        }
        _ => panic!("a granted vote makes the voter a follower"),
    }
}

#[test]
fn followed_leader_renews_the_lease() {
    let mut d = Consensus {
        state: ConsensusState::Follower {
            term: 5,
            id: "replica-a".to_string(),
            leader_addr: "10.0.0.1:9000".to_string(),
            until: 1000,
            tok: 0,
        },
        max_term_seen: 5,
    };
    let req = VoteReq { term: 5, max_txid: 10, last_tx_term: 4 };
    let resp = d.on_vote_request(
        900,
        req,
        &"replica-a".to_string(),
        &"10.0.0.1:9000".to_string(),
        0,
        &"replica-d".to_string(),
        10,
        4,
    );
    assert_eq!(resp, VoteRes { term: 5, success: true });
    match &d.state {
        ConsensusState::Follower { until, .. } => assert_eq!(*until, 900 + LEASE_DURATION_MS),
        _ => panic!("renewal keeps the follower"),
    }
}

#[test]
fn self_addressed_requests_are_always_granted() {
    let me = "replica-a".to_string();
    let mut a = Consensus::new();
    let req = VoteReq { term: 3, max_txid: 0, last_tx_term: 0 };
    let resp = a.on_vote_request(0, req, &me, &"addr".to_string(), 0, &me, 10, 4);
    assert_eq!(resp, VoteRes { term: 3, success: true });
    assert!(matches!(a.state, ConsensusState::Init));
}

#[test]
fn leader_lease_extends_only_on_a_fresh_quorum() {
    // A leader at term 5 with quorum 2 collects renewal grants; `until`
    // never moves until the quorum is full, then jumps to now + lease.
    let mut l = Consensus {
        state: ConsensusState::Leader { term: 5, until: 1000, need: 2, have: vec![] },
        max_term_seen: 5,
    };
    l.on_vote_response(500, 5, true, &"replica-a".to_string());
    match &l.state {
        ConsensusState::Leader { until, have, .. } => {
            assert_eq!(*until, 1000);
            assert_eq!(have.len(), 1);
        }
        _ => panic!("still leading"),
    }
    // a stale-term grant is an anomaly: ignored
    l.on_vote_response(500, 4, true, &"replica-b".to_string());
    match &l.state {
        ConsensusState::Leader { until, have, .. } => {
            assert_eq!(*until, 1000);
            assert_eq!(have.len(), 1);
        }
        _ => panic!("still leading"),
    }
    l.on_vote_response(600, 5, true, &"replica-b".to_string());
    match &l.state {
        ConsensusState::Leader { until, have, .. } => {
            assert_eq!(*until, 600 + LEASE_DURATION_MS);
            assert!(have.is_empty());
        }
        _ => panic!("a full quorum extends the lease"),
    }
}

#[test]
fn lapsed_leases_reclaim_eligibility_on_cron() {
    // A lapsed follower starts a candidacy one term above everything seen.
    let mut d = Consensus {
        state: ConsensusState::Follower {
            term: 5,
            id: "replica-a".to_string(),
            leader_addr: "10.0.0.1:9000".to_string(),
            until: 1000,
            tok: 0,
        },
        max_term_seen: 5,
    };
    let req = d.on_cron(2000, 3, 10, 4).expect("a lapsed follower runs");
    assert_eq!(req.term, 6);
    match &d.state {
        ConsensusState::Candidate { term, until, need, .. } => {
            assert_eq!(*term, 6);
            assert_eq!(*until, 2000 + LEASE_DURATION_MS);
            assert_eq!(*need, 2);
        }
        _ => panic!("expected a fresh candidacy"),
    }

    // A valid follower waits.
    let mut f = Consensus {
        state: ConsensusState::Follower {
            term: 5,
            id: "replica-a".to_string(),
            leader_addr: "10.0.0.1:9000".to_string(),
            until: 1000,
            tok: 0,
        },
        max_term_seen: 5,
    };
    assert!(f.on_cron(500, 3, 10, 4).is_none());

    // A valid leader rebroadcasts its own term to renew.
    let mut l = Consensus {
        state: ConsensusState::Leader { term: 5, until: 1000, need: 2, have: vec![] },
        max_term_seen: 5,
    };
    let renew = l.on_cron(500, 3, 10, 4).expect("a valid leader renews");
    assert_eq!(renew.term, 5);
}

#[test]
fn a_voter_grants_one_candidate_per_lease() {
    // Two rival candidacies at the same term: whoever the voter grants
    // first holds its followership, and the rival is refused for as long
    // as that lease stands.
    let mut v = Consensus::new();
    let req = VoteReq { term: 3, max_txid: 0, last_tx_term: 0 };
    let first = v.on_vote_request(
        0,
        req,
        &"cand-1".to_string(),
        &"c1:9000".to_string(),
        0,
        &"voter".to_string(),
        0,
        0,
    );
    assert!(first.success);
    let second = v.on_vote_request(
        10,
        req,
        &"cand-2".to_string(),
        &"c2:9000".to_string(),
        0,
        &"voter".to_string(),
        0,
        0,
    );
    assert!(!second.success);
    assert_eq!(second.term, 3);
    match &v.state {
        ConsensusState::Follower { id, .. } => assert_eq!(id, "cand-1"),
        _ => panic!("the first grant stands"),
    }
}

#[test]
fn tick_interval_stays_jittered() {
    for _ in 0..100 {
        let t = rangedb::ident::tick_interval_ms();
        assert!((400..500).contains(&t));
    }
}
