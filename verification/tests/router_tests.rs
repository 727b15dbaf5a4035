use rangedb::consensus::ConsensusState;
use rangedb::keys::{key_le, key_lt, upper_bound};
use rangedb::msg::{CliReq, CliRes, Envelope, Payload, PeerMsg, PeerMsgBody};
use rangedb::range::{AppendOutcome, Range};
use rangedb::server::{CliOutcome, Server};

fn range(lower: &[u8], upper: &[u8], peers: &[&str]) -> Range {
    Range::initial(
        "self-id".to_string(),
        "self:9000".to_string(),
        lower.to_vec(),
        upper.to_vec(),
        peers.iter().map(|p| p.to_string()).collect(),
    )
}

fn server() -> Server {
    Server::new("self:9000".to_string(), "self:9001".to_string())
}

#[test]
fn key_order_is_lexicographic() {
    assert!(key_lt(&b"a".to_vec(), &b"b".to_vec()));
    assert!(key_lt(&b"a".to_vec(), &b"ab".to_vec()));
    assert!(!key_lt(&b"ab".to_vec(), &b"a".to_vec()));
    assert!(key_lt(&b"".to_vec(), &b"a".to_vec()));
    assert!(!key_lt(&b"a".to_vec(), &b"a".to_vec()));
    assert!(key_le(&b"a".to_vec(), &b"a".to_vec()));
    assert!(key_lt(&vec![0x00, 0xff], &vec![0x01]));
}

#[test]
fn prefix_upper_bound_increments_and_drops_trailing_maxed_bytes() {
    assert_eq!(upper_bound(&vec![0, 0, 77, 69, 84, 65]), vec![0, 0, 77, 69, 84, 66]);
    assert_eq!(upper_bound(&vec![1, 0xff]), vec![2]);
    assert_eq!(upper_bound(&vec![9, 0xff, 0xff]), vec![10]);
}

#[test]
fn overlapping_ranges_are_rejected() {
    let mut s = server();
    assert!(s.add_range(range(b"a", b"c", &["p1"])).is_ok());
    // overlap on the left, the right, containment, and identity
    assert!(s.add_range(range(b"b", b"d", &["p1"])).is_err());
    assert!(s.add_range(range(b"", b"b", &["p1"])).is_err());
    assert!(s.add_range(range(b"a", b"c", &["p1"])).is_err());
    assert!(s.add_range(range(b"aa", b"ab", &["p1"])).is_err());
    // abutting neighbours are fine
    assert!(s.add_range(range(b"c", b"d", &["p1"])).is_ok());
    assert!(s.add_range(range(b"", b"a", &["p1"])).is_ok());
    assert_eq!(s.ranges.len(), 3);
    // sorted by lower bound
    assert_eq!(s.ranges[0].lower, b"".to_vec());
    assert_eq!(s.ranges[1].lower, b"a".to_vec());
    assert_eq!(s.ranges[2].lower, b"c".to_vec());
}

#[test]
fn each_key_resolves_to_exactly_one_range() {
    let mut s = server();
    assert!(s.add_range(range(b"a", b"c", &["p1"])).is_ok());
    assert!(s.add_range(range(b"c", b"e", &["p1"])).is_ok());
    let rg = s.range_for_key(&b"b".to_vec()).expect("owned key");
    assert_eq!(rg.lower, b"a".to_vec());
    let rg = s.range_for_key(&b"c".to_vec()).expect("boundary goes right");
    assert_eq!(rg.lower, b"c".to_vec());
    assert!(s.range_for_key(&b"e".to_vec()).is_none());
    assert!(s.range_for_key(&b"0".to_vec()).is_none());
    let idx = s.range_for_key_mut(&b"d".to_vec()).expect("owned key");
    assert_eq!(idx, 1);
}

#[test]
fn follower_redirects_clients_to_its_leader() {
    // A Get reaching a follower is answered with a redirect to the leader's
    // address, not with a value.
    let mut s = server();
    assert!(s.add_range(range(b"", b"\xff", &["p1", "p2", "p3"])).is_ok());
    s.ranges[0].consensus.state = ConsensusState::Follower {
        term: 5,
        id: "leader-id".to_string(),
        leader_addr: "10.0.0.2:9000".to_string(),
        until: 1000,
        tok: 0,
    };
    s.ranges[0].consensus.max_term_seen = 5;
    let env = Envelope {
        address: Some("client:1".to_string()),
        session: 42,
        payload: Payload::Cli(CliReq::Get { key: b"k".to_vec() }),
    };
    match s.handle_cli(10, env) {
        CliOutcome::Reply(e) => {
            assert_eq!(e.session, 42);
            match e.payload {
                Payload::CliResp(CliRes::Redirect { success, target }) => {
                    assert!(success);
                    assert_eq!(target, Some("10.0.0.2:9000".to_string()));
                }
                _ => panic!("expected a redirect"),
            }
        }
        _ => panic!("a follower must not serve the read"),
    }
}

#[test]
fn no_leader_yields_an_explicit_failure() {
    let mut s = server();
    assert!(s.add_range(range(b"", b"\xff", &["p1", "p2", "p3"])).is_ok());
    let env = Envelope {
        address: None,
        session: 7,
        payload: Payload::Cli(CliReq::Get { key: b"k".to_vec() }),
    };
    match s.handle_cli(10, env) {
        CliOutcome::Reply(e) => match e.payload {
            Payload::CliResp(CliRes::Redirect { success, target }) => {
                assert!(!success);
                assert!(target.is_none());
            }
            _ => panic!("expected the no-leader failure"),
        },
        _ => panic!("nobody can serve without a leader"),
    }
}

#[test]
fn leader_serves_reads_and_proposes_writes() {
    let mut s = server();
    assert!(s.add_range(range(b"", b"\xff", &["self:9000"])).is_ok());
    s.ranges[0].consensus.state =
        ConsensusState::Leader { term: 2, until: 1000, need: 1, have: vec![] };
    s.ranges[0].consensus.max_term_seen = 2;

    let get = Envelope {
        address: None,
        session: 1,
        payload: Payload::Cli(CliReq::Get { key: b"k".to_vec() }),
    };
    match s.handle_cli(10, get) {
        CliOutcome::ServeGet { lower, key, session, .. } => {
            assert_eq!(lower, b"".to_vec());
            assert_eq!(key, b"k".to_vec());
            assert_eq!(session, 1);
        }
        _ => panic!("the valid leader serves the read"),
    }

    let put = Envelope {
        address: None,
        session: 2,
        payload: Payload::Cli(CliReq::Put { key: b"k".to_vec(), value: b"v".to_vec() }),
    };
    match s.handle_cli(10, put) {
        CliOutcome::Proposed { txid, newly, session, bcast } => {
            assert_eq!(txid, 1);
            assert_eq!(session, 2);
            // a single replica is its own quorum: the self-ack commits
            assert_eq!(newly.len(), 1);
            assert_eq!(newly[0].key, b"k".to_vec());
            assert_eq!(newly[0].value, b"v".to_vec());
            assert!(bcast.address.is_none());
            match bcast.payload {
                Payload::Peer(pm) => match pm.body {
                    PeerMsgBody::Append(b) => {
                        assert_eq!(b.batch_id, 1);
                        assert_eq!(b.from_txid, 1);
                        assert_eq!(b.from_term, 2);
                        assert_eq!(b.entries.len(), 1);
                    }
                    _ => panic!("the broadcast replicates the write"),
                },
                _ => panic!("the broadcast is a peer message"),
            }
        }
        _ => panic!("the valid leader proposes the write"),
    }
    assert_eq!(s.ranges[0].log.last_committed_txid, 1);
    assert_eq!(s.ranges[0].next_txid, 2);
}

#[test]
fn writes_wait_for_a_real_quorum() {
    let mut rg = range(b"", b"\xff", &["a", "b", "c"]);
    rg.consensus.state = ConsensusState::Leader { term: 2, until: 1000, need: 2, have: vec![] };
    rg.consensus.max_term_seen = 2;
    let (txid, _bcast, newly) = rg.propose_write(10, b"k".to_vec(), b"v".to_vec());
    assert_eq!(txid, 1);
    assert!(newly.is_empty());
    assert_eq!(rg.log.pending.len(), 1);
    // one peer ack completes the quorum of two (self-ack included)
    let newly = rg.handle_append_ack(1, &"peer-b".to_string());
    assert_eq!(newly.len(), 1);
    assert_eq!(rg.log.last_committed_txid, 1);
}

#[test]
fn followers_accept_appends_only_from_their_leader() {
    let mut rg = range(b"", b"\xff", &["a", "b", "c"]);
    rg.consensus.state = ConsensusState::Follower {
        term: 2,
        id: "leader-id".to_string(),
        leader_addr: "l:9000".to_string(),
        until: 1000,
        tok: 0,
    };
    rg.consensus.max_term_seen = 2;
    let batch = rangedb::msg::AppendBatch {
        batch_id: 1,
        from_txid: 1,
        from_term: 2,
        entries: vec![rangedb::msg::LogEntry {
            txid: 1,
            term: 2,
            key: b"k".to_vec(),
            value: b"v".to_vec(),
        }],
    };
    let out = rg.handle_append(10, batch, &"somebody-else".to_string());
    assert_eq!(out, AppendOutcome::NotFollowing {});
    assert!(rg.log.pending.is_empty());

    let batch = rangedb::msg::AppendBatch {
        batch_id: 1,
        from_txid: 1,
        from_term: 2,
        entries: vec![rangedb::msg::LogEntry {
            txid: 1,
            term: 2,
            key: b"k".to_vec(),
            value: b"v".to_vec(),
        }],
    };
    let out = rg.handle_append(10, batch, &"leader-id".to_string());
    assert_eq!(out, AppendOutcome::Acked { batch_id: 1 });
    assert_eq!(rg.log.pending.len(), 1);
    assert_eq!(rg.next_txid, 2);
}

#[test]
fn a_gap_asks_for_resync_instead_of_accepting() {
    let mut rg = range(b"", b"\xff", &["a", "b", "c"]);
    rg.consensus.state = ConsensusState::Follower {
        term: 2,
        id: "leader-id".to_string(),
        leader_addr: "l:9000".to_string(),
        until: 1000,
        tok: 0,
    };
    rg.consensus.max_term_seen = 2;
    let batch = rangedb::msg::AppendBatch {
        batch_id: 5,
        from_txid: 5,
        from_term: 2,
        entries: vec![rangedb::msg::LogEntry {
            txid: 5,
            term: 2,
            key: b"k".to_vec(),
            value: b"v".to_vec(),
        }],
    };
    let out = rg.handle_append(10, batch, &"leader-id".to_string());
    assert_eq!(out, AppendOutcome::Resync { upto: 0 });
    assert!(rg.log.pending.is_empty());
}

#[test]
fn peer_messages_route_by_range_prefix() {
    let mut s = server();
    assert!(s.add_range(range(b"a", b"c", &["self:9000", "p2", "p3"])).is_ok());
    assert!(s.add_range(range(b"c", b"e", &["self:9000", "p2", "p3"])).is_ok());
    // a vote request for the second range leaves the first untouched
    let env = Envelope {
        address: Some("self:9000".to_string()),
        session: 9,
        payload: Payload::Peer(PeerMsg {
            range_prefix: b"c".to_vec(),
            from_id: "cand".to_string(),
            from_addr: "cand:9000".to_string(),
            body: PeerMsgBody::VoteReq(rangedb::msg::VoteReq {
                term: 1,
                max_txid: 0,
                last_tx_term: 0,
            }),
        }),
    };
    let (outs, newly) = s.handle_peer(10, env);
    assert!(newly.is_empty());
    assert_eq!(outs.len(), 1);
    assert_eq!(outs[0].address, Some("cand:9000".to_string()));
    assert_eq!(outs[0].session, 9);
    match &outs[0].payload {
        Payload::Peer(pm) => {
            assert_eq!(pm.range_prefix, b"c".to_vec());
            match pm.body {
                PeerMsgBody::VoteRes(v) => {
                    assert!(v.success);
                    assert_eq!(v.term, 1);
                }
                _ => panic!("a vote request earns a vote response"),
            }
        }
        _ => panic!("the reply is a peer message"),
    }
    assert!(matches!(s.ranges[0].consensus.state, ConsensusState::Init));
    assert!(matches!(s.ranges[1].consensus.state, ConsensusState::Follower { .. }));

    // a message for an unknown range is dropped
    let env = Envelope {
        address: None,
        session: 0,
        payload: Payload::Peer(PeerMsg {
            range_prefix: b"zzz".to_vec(),
            from_id: "cand".to_string(),
            from_addr: "cand:9000".to_string(),
            body: PeerMsgBody::AppendAck { batch_id: 1 },
        }),
    };
    let (outs, newly) = s.handle_peer(10, env);
    assert!(outs.is_empty());
    assert!(newly.is_empty());
}

#[test]
fn an_election_runs_through_the_peer_dispatcher() {
    let mut rg = range(b"", b"\xff", &["self:9000", "p2:9000", "p3:9000"]);
    let env = rg.cron(10).expect("an idle range runs for the lease");
    let term = match env.payload {
        Payload::Peer(pm) => match pm.body {
            PeerMsgBody::VoteReq(v) => v.term,
            _ => panic!("cron broadcasts a vote request"),
        },
        _ => panic!("the broadcast is a peer message"),
    };
    // the self-grant and one peer grant arrive as vote responses
    for voter in ["self-id", "p2-id"] {
        let msg = PeerMsg {
            range_prefix: b"".to_vec(),
            from_id: voter.to_string(),
            from_addr: format!("{voter}:9000"),
            body: PeerMsgBody::VoteRes(rangedb::msg::VoteRes { term, success: true }),
        };
        let (outs, newly) = rg.handle_peer(10, msg, 0);
        assert!(outs.is_empty());
        assert!(newly.is_empty());
    }
    match &rg.consensus.state {
        ConsensusState::Leader { term: t, .. } => assert_eq!(*t, term),
        _ => panic!("two grants of three make a leader"),
    }
}

#[test]
fn the_bootstrap_probe_is_answered_on_the_peer_port() {
    let mut s = server();
    let env = Envelope {
        address: Some("asker:9000".to_string()),
        session: 11,
        payload: Payload::Cli(CliReq::HaveMetaReq),
    };
    let (outs, newly) = s.handle_peer(10, env);
    assert!(newly.is_empty());
    assert_eq!(outs.len(), 1);
    assert_eq!(outs[0].session, 11);
    assert_eq!(outs[0].address, Some("asker:9000".to_string()));
    match &outs[0].payload {
        Payload::CliResp(CliRes::HaveMetaRes { has_seen_meta }) => assert!(!has_seen_meta),
        _ => panic!("the probe is answered from the meta flag"),
    }
}

#[test]
fn a_leader_replays_committed_history_on_resync() {
    let mut rg = range(b"", b"\xff", &["self:9000"]);
    rg.consensus.state = ConsensusState::Leader { term: 2, until: 1000, need: 1, have: vec![] };
    rg.consensus.max_term_seen = 2;
    // three committed writes (a single replica is its own quorum)
    for _ in 0..3 {
        rg.propose_write(10, b"k".to_vec(), b"v".to_vec());
    }
    assert_eq!(rg.log.last_committed_txid, 3);
    let msg = PeerMsg {
        range_prefix: b"".to_vec(),
        from_id: "lagging".to_string(),
        from_addr: "lag:9000".to_string(),
        body: PeerMsgBody::ResyncReq { from_txid: 1 },
    };
    let (outs, newly) = rg.handle_peer(10, msg, 4);
    assert!(newly.is_empty());
    assert_eq!(outs.len(), 1);
    assert_eq!(outs[0].address, Some("lag:9000".to_string()));
    match &outs[0].payload {
        Payload::Peer(pm) => match &pm.body {
            PeerMsgBody::Append(b) => {
                assert_eq!(b.from_txid, 2);
                assert_eq!(b.entries.len(), 2);
                assert_eq!(b.entries[0].txid, 2);
                assert_eq!(b.entries[1].txid, 3);
            }
            _ => panic!("a resync is served with an append batch"),
        },
        _ => panic!("the replay is a peer message"),
    }
}

#[test]
fn cron_broadcasts_a_candidacy_for_an_idle_range() {
    let mut rg = range(b"a", b"c", &["self:9000", "p2", "p3"]);
    let env = rg.cron(10).expect("an idle range runs for the lease");
    assert!(env.address.is_none());
    match env.payload {
        Payload::Peer(pm) => {
            assert_eq!(pm.range_prefix, b"a".to_vec());
            assert_eq!(pm.from_id, "self-id");
            assert_eq!(pm.from_addr, "self:9000");
            match pm.body {
                PeerMsgBody::VoteReq(v) => {
                    assert_eq!(v.term, 1);
                    assert_eq!(v.max_txid, 0);
                    assert_eq!(v.last_tx_term, 0);
                }
                _ => panic!("cron broadcasts a vote request"),
            }
        }
        _ => panic!("the broadcast is a peer message"),
    }
}
