use rangedb::bootstrap::{initial_meta, should_seed, we_are_in_local_cached_meta, SeedDecision};
use rangedb::server::{PopulateError, Server};

fn two_node_meta() -> rangedb::bootstrap::Meta {
    initial_meta(&vec!["n1:9000".to_string(), "n2:9000".to_string()])
}

#[test]
fn initial_meta_lists_every_seed_as_a_replica() {
    let m = two_node_meta();
    assert_eq!(m.collections.len(), 1);
    let c = &m.collections[0];
    assert_eq!(c.prefix, vec![0, 0, 77, 69, 84, 65]);
    assert_eq!(c.name, "META");
    assert_eq!(c.replication_factor, 3);
    assert_eq!(c.ranges.len(), 1);
    assert_eq!(c.ranges[0].lower, c.prefix);
    let reps = &c.ranges[0].replicas;
    assert_eq!(reps.len(), 2);
    assert_eq!(reps[0].address, "n1:9000");
    assert_eq!(reps[1].address, "n2:9000");
    // freshly generated replica ids, hyphenated form
    assert_eq!(reps[0].id.len(), 36);
    assert_eq!(reps[1].id.len(), 36);
}

#[test]
fn cached_meta_membership_is_by_address() {
    let m = two_node_meta();
    assert!(we_are_in_local_cached_meta(&Some(m), &"n1:9000".to_string()));
    let m = two_node_meta();
    assert!(!we_are_in_local_cached_meta(&Some(m), &"n3:9000".to_string()));
    assert!(!we_are_in_local_cached_meta(&None, &"n1:9000".to_string()));
}

#[test]
fn bootstrap_race_second_seeder_adopts() {
    // Both nodes cache meta listing themselves; the first to confirm with
    // every peer that none has seen meta seeds it.
    let n1 = "n1:9000".to_string();
    let d = should_seed(&Some(two_node_meta()), &n1, Some(false));
    assert_eq!(d, SeedDecision::Seed);
    // The second node probes after the first persisted: some peer now
    // reports meta, so it aborts seeding and adopts what exists.
    let n2 = "n2:9000".to_string();
    let d = should_seed(&Some(two_node_meta()), &n2, Some(true));
    assert_eq!(d, SeedDecision::Adopt);
}

#[test]
fn seeding_never_proceeds_without_the_full_peer_set() {
    let n1 = "n1:9000".to_string();
    let d = should_seed(&Some(two_node_meta()), &n1, None);
    assert_eq!(d, SeedDecision::Retry);
}

#[test]
fn nodes_outside_the_cached_meta_never_seed() {
    let stranger = "n9:9000".to_string();
    assert_eq!(should_seed(&Some(two_node_meta()), &stranger, Some(false)), SeedDecision::NotReplica);
    assert_eq!(should_seed(&None, &stranger, Some(false)), SeedDecision::NotReplica);
}

#[test]
fn adopting_meta_flips_the_probe_answer() {
    // the race abort end to end: after one node adopts the topology, the
    // bootstrap probe it answers reports meta as seen, so the second
    // would-be seeder observes it and aborts
    let mut s = Server::new("n1:9000".to_string(), "n1:9001".to_string());
    assert!(!s.has_seen_meta);
    assert!(s.populate_meta(two_node_meta()).is_ok());
    assert!(s.has_seen_meta);
    let env = rangedb::msg::Envelope {
        address: Some("n2:9000".to_string()),
        session: 3,
        payload: rangedb::msg::Payload::Cli(rangedb::msg::CliReq::HaveMetaReq),
    };
    let (outs, _) = s.handle_peer(10, env);
    assert_eq!(outs.len(), 1);
    match &outs[0].payload {
        rangedb::msg::Payload::CliResp(rangedb::msg::CliRes::HaveMetaRes { has_seen_meta }) => {
            assert!(*has_seen_meta)
        }
        _ => panic!("the probe is answered from the meta flag"),
    }
}

#[test]
fn populate_meta_creates_the_meta_range() {
    let mut s = Server::new("n1:9000".to_string(), "n1:9001".to_string());
    let m = Server::initialize_meta(&vec!["n1:9000".to_string(), "n2:9000".to_string(), "n3:9000".to_string()]);
    assert!(s.populate_meta(m).is_ok());
    assert_eq!(s.ranges.len(), 1);
    let rg = &s.ranges[0];
    assert_eq!(rg.lower, vec![0, 0, 77, 69, 84, 65]);
    // the exclusive upper bound of the meta prefix: last byte incremented
    assert_eq!(rg.upper, vec![0, 0, 77, 69, 84, 66]);
    assert_eq!(rg.peers.len(), 3);
    assert_eq!(rg.log.quorum, 2);
    assert_eq!(rg.next_txid, 1);
    // the meta keys route to it
    let owned = s.range_for_key(&vec![0, 0, 77, 69, 84, 65, 1, 2]).expect("meta key owned");
    assert_eq!(owned.lower, vec![0, 0, 77, 69, 84, 65]);
    assert!(s.range_for_key(&vec![0, 0, 77, 69, 84, 66]).is_none());
}

#[test]
fn populate_meta_rejects_malformed_topology() {
    let mut s = Server::new("n1:9000".to_string(), "n1:9001".to_string());
    let empty = rangedb::bootstrap::Meta { collections: vec![] };
    assert_eq!(s.populate_meta(empty), Err(PopulateError::MalformedMeta));

    let mut wrong_prefix = two_node_meta();
    wrong_prefix.collections[0].prefix = b"oops".to_vec();
    assert_eq!(s.populate_meta(wrong_prefix), Err(PopulateError::MalformedMeta));

    let mut no_replicas = two_node_meta();
    no_replicas.collections[0].ranges[0].replicas.clear();
    assert_eq!(s.populate_meta(no_replicas), Err(PopulateError::MalformedMeta));
    assert!(s.ranges.is_empty());

    // populating twice overlaps the existing meta range
    assert!(s.populate_meta(two_node_meta()).is_ok());
    assert_eq!(s.populate_meta(two_node_meta()), Err(PopulateError::Overlap));
}
