use rangedb::log::AckedLog;
use rangedb::msg::LogEntry;

fn entry(txid: u64, term: u64, key: &[u8], value: &[u8]) -> LogEntry {
    LogEntry { txid, term, key: key.to_vec(), value: value.to_vec() }
}

#[test]
fn commit_needs_a_quorum_of_distinct_acks() {
    let mut log = AckedLog::new(2);
    log.propose(entry(1, 3, b"k", b"v"));
    assert!(log.ack(1, &"a".to_string()).is_empty());
    // the same replica acking twice is one acknowledgment
    assert!(log.ack(1, &"a".to_string()).is_empty());
    assert_eq!(log.last_committed_txid, 0);
    let newly = log.ack(1, &"b".to_string());
    assert_eq!(newly.len(), 1);
    assert_eq!(newly[0].txid, 1);
    assert_eq!(newly[0].key, b"k".to_vec());
    assert_eq!(log.last_committed_txid, 1);
    assert_eq!(log.last_committed_term, 3);
    assert_eq!(log.committed.len(), 1);
}

#[test]
fn out_of_order_quorum_is_held_for_predecessors() {
    let mut log = AckedLog::new(2);
    log.propose(entry(1, 3, b"k1", b"v1"));
    log.propose(entry(2, 3, b"k2", b"v2"));
    // txid 2 reaches quorum first, but must wait for txid 1
    assert!(log.ack(2, &"a".to_string()).is_empty());
    assert!(log.ack(2, &"b".to_string()).is_empty());
    assert_eq!(log.last_committed_txid, 0);
    assert!(log.ack(1, &"a".to_string()).is_empty());
    // completing txid 1 releases both, in txid order, each exactly once
    let newly = log.ack(1, &"b".to_string());
    assert_eq!(newly.len(), 2);
    assert_eq!(newly[0].txid, 1);
    assert_eq!(newly[1].txid, 2);
    assert_eq!(log.last_committed_txid, 2);
    assert!(log.pending.is_empty());
}

#[test]
fn unknown_and_committed_acks_are_ignored() {
    let mut log = AckedLog::new(1);
    assert!(log.ack(7, &"a".to_string()).is_empty());
    log.propose(entry(1, 1, b"k", b"v"));
    let newly = log.ack(1, &"a".to_string());
    assert_eq!(newly.len(), 1);
    // an ack for an already committed txid is not an error and does nothing
    assert!(log.ack(1, &"b".to_string()).is_empty());
    assert_eq!(log.committed.len(), 1);
    assert_eq!(log.last_committed_txid, 1);
}

#[test]
fn propose_is_idempotent_per_txid() {
    let mut log = AckedLog::new(2);
    log.propose(entry(1, 1, b"k", b"v"));
    log.propose(entry(1, 1, b"other", b"other"));
    assert_eq!(log.pending.len(), 1);
    assert_eq!(log.pending[0].entry.key, b"k".to_vec());
    // a txid at or below the high-water mark is ignored too
    let newly = log.ack(1, &"a".to_string());
    assert!(newly.is_empty());
    let newly = log.ack(1, &"b".to_string());
    assert_eq!(newly.len(), 1);
    log.propose(entry(1, 1, b"again", b"again"));
    assert!(log.pending.is_empty());
}

#[test]
fn pending_stays_sorted_by_txid() {
    let mut log = AckedLog::new(2);
    log.propose(entry(5, 1, b"e", b""));
    log.propose(entry(2, 1, b"b", b""));
    log.propose(entry(9, 1, b"i", b""));
    log.propose(entry(3, 1, b"c", b""));
    let txids: Vec<u64> = log.pending.iter().map(|p| p.entry.txid).collect();
    assert_eq!(txids, vec![2, 3, 5, 9]);
    assert_eq!(log.max_seen(), 9);
}

#[test]
fn replay_tail_starts_above_the_requested_txid() {
    let mut log = AckedLog::new(1);
    for t in 1..=4u64 {
        log.propose(entry(t, 1, &[t as u8], b"v"));
        log.ack(t, &"a".to_string());
    }
    assert_eq!(log.last_committed_txid, 4);
    let tail = log.committed_since(2);
    assert_eq!(tail.len(), 2);
    assert_eq!(tail[0].txid, 3);
    assert_eq!(tail[1].txid, 4);
    assert!(log.committed_since(9).is_empty());
}
