//! The quorum-acknowledged replication log of one range: entries wait in
//! `pending` until `quorum` distinct replicas acknowledged them, then move,
//! in txid order, to the append-only `committed` sequence.  The caller is
//! handed each newly committed entry exactly once.

use vstd::prelude::*;

use crate::consensus::{add_vote, contains_token, votes_of};
use crate::msg::LogEntry;

verus! {

/// A proposed entry together with the distinct replicas that acknowledged it.
pub struct PendingEntry {
    pub entry: LogEntry,
    pub acks: Vec<String>,
}

/// The acknowledging tokens of one pending entry.
pub open spec fn acks_of(p: PendingEntry) -> Seq<Seq<char>> {
    votes_of(p.acks@)
}

/// The acknowledging tokens of `p` once `peer`'s ack for `txid` is recorded.
pub open spec fn acks_after(p: PendingEntry, txid: u64, peer: Seq<char>) -> Seq<Seq<char>> {
    if p.entry.txid == txid {
        add_vote(acks_of(p), peer)
    } else {
        acks_of(p)
    }
}

/// The txids of a pending sequence, in order.
pub open spec fn txids_of(s: Seq<PendingEntry>) -> Seq<u64> {
    s.map_values(|p: PendingEntry| p.entry.txid)
}

/// `pn` is `po` with one more entry at position `k`: `entry`, with no acks yet.
pub open spec fn inserted_at(
    po: Seq<PendingEntry>,
    pn: Seq<PendingEntry>,
    k: int,
    entry: LogEntry,
) -> bool {
    &&& 0 <= k <= po.len()
    &&& pn.len() == po.len() + 1
    &&& pn[k].entry == entry
    &&& acks_of(pn[k]) =~= Seq::<Seq<char>>::empty()
    &&& forall|j: int| 0 <= j < k ==> pn[j] == po[j]
    &&& forall|j: int| k <= j < po.len() ==> pn[j + 1] == po[j]
}

/// An insertion loses no pending txid and adds the inserted one.
pub proof fn lemma_inserted_preserves(
    po: Seq<PendingEntry>,
    pn: Seq<PendingEntry>,
    k: int,
    entry: LogEntry,
)
    requires
        inserted_at(po, pn, k, entry),
    ensures
        forall|t: u64| txids_of(po).contains(t) ==> txids_of(pn).contains(t),
        txids_of(pn).contains(entry.txid),
{
    assert(txids_of(pn)[k] == entry.txid);
    assert forall|t: u64| txids_of(po).contains(t) implies txids_of(pn).contains(t) by {
        let i = choose|i: int| 0 <= i < txids_of(po).len() && txids_of(po)[i] == t;
        if i < k {
            assert(txids_of(pn)[i] == t);
        } else {
            assert(pn[i + 1] == po[i]);
            assert(txids_of(pn)[i + 1] == t);
        }
    }
}

/// Quorum commit, exactly once: committed txids strictly increase, so no
/// txid ever stands in `committed` twice — and `ack` hands each committed
/// entry to the caller exactly once, as the appended tail of `committed`.
pub proof fn lemma_committed_once(l: AckedLog)
    requires
        l.wf(),
    ensures
        forall|i: int, j: int|
            0 <= i < j < l.committed@.len() ==> l.committed@[i].txid != l.committed@[j].txid,
{
    assert forall|i: int, j: int|
        0 <= i < j < l.committed@.len() implies l.committed@[i].txid != l.committed@[j].txid by {
        assert(l.committed@[i].txid < l.committed@[j].txid);
    }
}

/// The quorum-tracked pending/committed log of one range.
pub struct AckedLog {
    /// Entries awaiting quorum, in strictly increasing txid order.
    pub pending: Vec<PendingEntry>,
    /// Committed entries, append-only, in strictly increasing txid order.
    pub committed: Vec<LogEntry>,
    /// How many distinct acknowledgments commit an entry.
    pub quorum: usize,
    /// The monotonic high-water mark: the highest committed txid.
    pub last_committed_txid: u64,
    /// The term of the highest committed entry.
    pub last_committed_term: u64,
}

impl AckedLog {
    /// The txids still awaiting quorum.
    pub open spec fn pending_txids(self) -> Seq<u64> {
        txids_of(self.pending@)
    }

    pub open spec fn has_pending(self, txid: u64) -> bool {
        self.pending_txids().contains(txid)
    }

    /// The highest txid this log has seen: the last pending entry's, or the
    /// high-water mark when nothing is pending.
    pub open spec fn max_seen_txid(self) -> u64 {
        if self.pending@.len() > 0 {
            self.pending@.last().entry.txid
        } else {
            self.last_committed_txid
        }
    }

    /// The highest txid this log has seen.
    pub fn max_seen(&self) -> (r: u64)
        ensures
            r == self.max_seen_txid(),
    {
        if self.pending.len() > 0 {
            self.pending[self.pending.len() - 1].entry.txid
        } else {
            self.last_committed_txid
        }
    }

    pub open spec fn wf(self) -> bool {
        &&& self.quorum >= 1
        &&& forall|i: int, j: int|
            0 <= i < j < self.pending@.len() ==> #[trigger] self.pending@[i].entry.txid
                < #[trigger] self.pending@[j].entry.txid
        &&& forall|i: int|
            0 <= i < self.pending@.len() ==> #[trigger] self.pending@[i].entry.txid
                > self.last_committed_txid
        &&& forall|i: int|
            0 <= i < self.pending@.len() ==> acks_of(
                #[trigger] self.pending@[i],
            ).no_duplicates()
        &&& forall|i: int, j: int|
            0 <= i < j < self.committed@.len() ==> #[trigger] self.committed@[i].txid
                < #[trigger] self.committed@[j].txid
        &&& self.committed@.len() > 0 ==> self.committed@.last().txid == self.last_committed_txid
            && self.committed@.last().term == self.last_committed_term
        &&& self.committed@.len() == 0 ==> self.last_committed_txid == 0
            && self.last_committed_term == 0
        // a quorum-complete entry never rests at the head: every ack drains
        // each head the moment its quorum is full, so reaching quorum commits
        &&& self.pending@.len() > 0 ==> acks_of(self.pending@[0]).len() < self.quorum
    }

    /// A fresh, empty log for a group committing at the given quorum.
    pub fn new(quorum: usize) -> (r: AckedLog)
        requires
            quorum >= 1,
        ensures
            r.wf(),
            r.quorum == quorum,
            r.pending@ =~= Seq::<PendingEntry>::empty(),
            r.committed@ =~= Seq::<LogEntry>::empty(),
            r.last_committed_txid == 0,
            r.last_committed_term == 0,
    {
        AckedLog {
            pending: Vec::new(),
            committed: Vec::new(),
            quorum,
            last_committed_txid: 0,
            last_committed_term: 0,
        }
    }

    /// Where `txid` sits in `pending`, if anywhere.
    fn find_pending(&self, txid: u64) -> (r: Option<usize>)
        ensures
            match r {
                Some(i) => i < self.pending@.len() && self.pending@[i as int].entry.txid == txid,
                None => !self.has_pending(txid),
            },
    {
        let mut i: usize = 0;
        while i < self.pending.len()
            invariant
                i <= self.pending@.len(),
                forall|j: int| 0 <= j < i ==> #[trigger] self.pending@[j].entry.txid != txid,
            decreases self.pending@.len() - i,
        {
            if self.pending[i].entry.txid == txid {
                return Some(i);
            }
            i = i + 1;
        }
        proof {
            assert forall|j: int| 0 <= j < self.pending_txids().len() implies #[trigger] self
                .pending_txids()[j] != txid by {
                assert(self.pending@[j].entry.txid != txid);
            }
        }
        None
    }

    /// Copies of the committed entries whose txid lies above `from_txid`,
    /// in order: the tail used to replay history for a lagging follower.
    pub fn committed_since(&self, from_txid: u64) -> (es: Vec<LogEntry>)
        requires
            self.wf(),
        ensures
            es@.len() <= self.committed@.len(),
            forall|j: int|
                0 <= j < es@.len() ==> (#[trigger] es@[j]).same(
                    self.committed@[self.committed@.len() - es@.len() + j],
                ),
            forall|j: int|
                0 <= j < self.committed@.len() - es@.len() ==> (
                #[trigger] self.committed@[j]).txid <= from_txid,
            forall|j: int|
                self.committed@.len() - es@.len() <= j < self.committed@.len() ==> (
                #[trigger] self.committed@[j]).txid > from_txid,
    {
        let n = self.committed.len();
        let mut i0: usize = 0;
        while i0 < n && self.committed[i0].txid <= from_txid
            invariant
                i0 <= n,
                n == self.committed@.len(),
                forall|j: int| 0 <= j < i0 ==> (#[trigger] self.committed@[j]).txid <= from_txid,
            decreases n - i0,
        {
            i0 = i0 + 1;
        }
        proof {
            assert forall|j: int| i0 <= j < self.committed@.len() implies (
            #[trigger] self.committed@[j]).txid > from_txid by {
                if j > i0 {
                    assert(self.committed@[i0 as int].txid < self.committed@[j].txid);
                }
            }
        }
        let mut es: Vec<LogEntry> = Vec::new();
        let mut i: usize = i0;
        while i < n
            invariant
                i0 <= i <= n,
                n == self.committed@.len(),
                es@.len() == i - i0,
                forall|j: int| 0 <= j < es@.len() ==> (#[trigger] es@[j]).same(self.committed@[i0 + j]),
            decreases n - i,
        {
            es.push(self.committed[i].duplicate());
            i = i + 1;
        }
        es
    }

    /// Insert an entry into `pending`, keyed by txid; a txid already pending
    /// or already committed is a no-op.
    pub fn propose(&mut self, entry: LogEntry)
        requires
            old(self).wf(),
        ensures
            final(self).wf(),
            final(self).committed == old(self).committed,
            final(self).quorum == old(self).quorum,
            final(self).last_committed_txid == old(self).last_committed_txid,
            final(self).last_committed_term == old(self).last_committed_term,
            old(self).has_pending(entry.txid) || entry.txid <= old(self).last_committed_txid
                ==> *final(self) == *old(self),
            !old(self).has_pending(entry.txid) && entry.txid > old(self).last_committed_txid
                ==> exists|k: int|
                #[trigger] inserted_at(old(self).pending@, final(self).pending@, k, entry),
    {
        if entry.txid <= self.last_committed_txid {
            return ;
        }
        let mut k: usize = 0;
        while k < self.pending.len() && self.pending[k].entry.txid < entry.txid
            invariant
                k <= self.pending@.len(),
                forall|j: int| 0 <= j < k ==> #[trigger] self.pending@[j].entry.txid < entry.txid,
            decreases self.pending@.len() - k,
        {
            k = k + 1;
        }
        if k < self.pending.len() && self.pending[k].entry.txid == entry.txid {
            proof {
                assert(self.pending_txids()[k as int] == entry.txid);
            }
            return ;
        }
        proof {
            assert forall|j: int| 0 <= j < self.pending_txids().len() implies #[trigger] self
                .pending_txids()[j] != entry.txid by {
                if j >= k {
                    assert(self.pending@[k as int].entry.txid <= self.pending@[j].entry.txid);
                }
            }
        }
        let ghost po = self.pending@;
        let pe = PendingEntry { entry, acks: Vec::new() };
        self.pending.insert(k, pe);
        proof {
            assert(self.pending@ =~= po.insert(k as int, self.pending@[k as int]));
            assert(inserted_at(po, self.pending@, k as int, self.pending@[k as int].entry));
            // the head is the old head, or the fresh unacknowledged entry
            if k == 0 {
                assert(acks_of(self.pending@[0]) =~= Seq::<Seq<char>>::empty());
            } else {
                assert(self.pending@[0] == po[0]);
            }
        }
    }

    /// Record that `peer` acknowledged `txid`; then, while the head of
    /// `pending` has a quorum of distinct acks, move it to `committed` and
    /// advance the high-water mark.  Returns copies of the newly committed
    /// entries, in txid order — the caller hands each to the learner once.
    /// Acks for unknown or already committed txids are ignored.
    pub fn ack(&mut self, txid: u64, peer: &String) -> (newly: Vec<LogEntry>)
        requires
            old(self).wf(),
        ensures
            final(self).wf(),
            final(self).quorum == old(self).quorum,
            !old(self).has_pending(txid) ==> *final(self) == *old(self) && newly@ =~= Seq::<
                LogEntry,
            >::empty(),
            // the high-water mark never decreases
            final(self).last_committed_txid >= old(self).last_committed_txid,
            // committed is append-only: what was committed stays, in place
            final(self).committed@.len() == old(self).committed@.len() + newly@.len(),
            forall|i: int|
                0 <= i < old(self).committed@.len() ==> #[trigger] final(self).committed@[i] == old(
                    self,
                ).committed@[i],
            // what was appended is exactly what was at the front of pending,
            // and the returned entries carry the same data, in order
            forall|j: int|
                0 <= j < newly@.len() ==> #[trigger] final(self).committed@[old(
                    self,
                ).committed@.len() + j] == old(self).pending@[j].entry,
            forall|j: int|
                0 <= j < newly@.len() ==> (#[trigger] newly@[j]).same(old(self).pending@[j].entry),
            // nothing commits without a quorum of distinct acknowledgments
            forall|j: int|
                0 <= j < newly@.len() ==> acks_after(
                    #[trigger] old(self).pending@[j],
                    txid,
                    peer@,
                ).len() >= old(self).quorum,
            // the returned prefix is maximal: reaching quorum commits, so no
            // quorum-complete head is left behind
            final(self).pending@.len() > 0 ==> acks_of(final(self).pending@[0]).len() < old(
                self,
            ).quorum,
            // the rest stays pending, the acked entry now carrying the ack
            final(self).pending@.len() + newly@.len() == old(self).pending@.len(),
            forall|j: int|
                0 <= j < final(self).pending@.len() ==> (#[trigger] final(self).pending@[j]).entry
                    == old(self).pending@[j + newly@.len()].entry && acks_of(
                    final(self).pending@[j],
                ) =~= acks_after(old(self).pending@[j + newly@.len()], txid, peer@),
    {
        let ghost porig = self.pending@;
        let i = match self.find_pending(txid) {
            None => {
                proof {
                    assert forall|j: int| 0 <= j < self.pending@.len() implies acks_of(
                        #[trigger] self.pending@[j],
                    ) =~= acks_after(self.pending@[j], txid, peer@) by {
                        if self.pending@[j].entry.txid == txid {
                            assert(self.pending_txids()[j] == txid);
                        }
                    }
                }
                return Vec::new();
            },
            Some(i) => i,
        };
        proof {
            assert(old(self).pending_txids()[i as int] == txid);
            assert(old(self).has_pending(txid));
            // txids are unique, so only position i carries this txid
            assert forall|j: int|
                0 <= j < porig.len() && j != i implies #[trigger] porig[j].entry.txid != txid by {
                if j < i {
                    assert(porig[j].entry.txid < porig[i as int].entry.txid);
                } else {
                    assert(porig[i as int].entry.txid < porig[j].entry.txid);
                }
            }
        }
        // record the ack if it is new
        let already = contains_token(&self.pending[i].acks, peer);
        if !already {
            let mut pe = self.pending.remove(i);
            proof {
                let v2 = acks_of(pe).push(peer@);
                assert forall|a: int, b: int|
                    0 <= a < v2.len() && 0 <= b < v2.len() && a != b implies v2[a] != v2[b] by {
                    assert(forall|c: int| 0 <= c < acks_of(pe).len() ==> v2[c] == acks_of(pe)[c]);
                }
            }
            let ghost eorig = pe.entry;
            pe.acks.push(peer.clone());
            proof {
                assert(votes_of(pe.acks@) =~= acks_of(porig[i as int]).push(peer@));
            }
            self.pending.insert(i, pe);
            proof {
                assert(self.pending@ =~= porig.update(i as int, self.pending@[i as int]));
            }
        } else {
            proof {
                assert(acks_of(self.pending@[i as int]) =~= acks_after(
                    porig[i as int],
                    txid,
                    peer@,
                ));
            }
        }
        proof {
            assert(self.pending@.len() == porig.len());
            assert(forall|j: int| 0 <= j < porig.len() && j != i ==> self.pending@[j] == porig[j]);
            assert(self.pending@[i as int].entry == porig[i as int].entry);
            assert(acks_of(self.pending@[i as int]) =~= acks_after(porig[i as int], txid, peer@));
            assert forall|j: int| 0 <= j < porig.len() implies acks_of(
                #[trigger] self.pending@[j],
            ) =~= acks_after(porig[j], txid, peer@) by {
                if j != i {
                    assert(self.pending@[j] == porig[j]);
                    assert(porig[j].entry.txid != txid);
                }
            }
        }
        let ghost pmid = self.pending@;
        // drain every quorum-complete head, in txid order
        let mut newly: Vec<LogEntry> = Vec::new();
        loop
            invariant
                self.quorum == old(self).quorum,
                self.quorum >= 1,
                self.last_committed_txid >= old(self).last_committed_txid,
                newly@.len() + self.pending@.len() == pmid.len(),
                forall|j: int|
                    0 <= j < self.pending@.len() ==> #[trigger] self.pending@[j] == pmid[j
                        + newly@.len()],
                forall|j: int| 0 <= j < newly@.len() ==> (#[trigger] newly@[j]).same(pmid[j].entry),
                forall|j: int|
                    0 <= j < newly@.len() ==> acks_of(#[trigger] pmid[j]).len() >= self.quorum,
                self.committed@.len() == old(self).committed@.len() + newly@.len(),
                forall|i2: int|
                    0 <= i2 < old(self).committed@.len() ==> #[trigger] self.committed@[i2] == old(
                        self,
                    ).committed@[i2],
                forall|j: int|
                    0 <= j < newly@.len() ==> #[trigger] self.committed@[old(self).committed@.len()
                        + j] == pmid[j].entry,
                // well-formedness pieces carried through the drain
                forall|a: int, b: int|
                    0 <= a < b < self.pending@.len() ==> #[trigger] self.pending@[a].entry.txid
                        < #[trigger] self.pending@[b].entry.txid,
                forall|a: int|
                    0 <= a < self.pending@.len() ==> #[trigger] self.pending@[a].entry.txid
                        > self.last_committed_txid,
                forall|a: int|
                    0 <= a < self.pending@.len() ==> acks_of(
                        #[trigger] self.pending@[a],
                    ).no_duplicates(),
                forall|a: int, b: int|
                    0 <= a < b < self.committed@.len() ==> #[trigger] self.committed@[a].txid
                        < #[trigger] self.committed@[b].txid,
                self.committed@.len() > 0 ==> self.committed@.last().txid
                    == self.last_committed_txid && self.committed@.last().term
                    == self.last_committed_term,
                self.committed@.len() == 0 ==> self.last_committed_txid == 0
                    && self.last_committed_term == 0,
            ensures
                self.pending@.len() == 0 || acks_of(self.pending@[0]).len() < self.quorum,
            decreases self.pending@.len(),
        {
            if self.pending.len() == 0 {
                break ;
            }
            if self.pending[0].acks.len() < self.quorum {
                break ;
            }
            let pe = self.pending.remove(0);
            proof {
                assert(acks_of(pmid[newly@.len() as int]).len() == pe.acks@.len());
            }
            self.last_committed_txid = pe.entry.txid;
            self.last_committed_term = pe.entry.term;
            let e2 = pe.entry.duplicate();
            self.committed.push(pe.entry);
            newly.push(e2);
        }
        proof {
            assert forall|j: int| 0 <= j < self.pending@.len() implies (
            #[trigger] self.pending@[j]).entry == porig[j + newly@.len()].entry && acks_of(
                self.pending@[j],
            ) =~= acks_after(porig[j + newly@.len()], txid, peer@) by {
                assert(self.pending@[j] == pmid[j + newly@.len()]);
            }
            assert forall|j: int| 0 <= j < newly@.len() implies acks_after(
                #[trigger] porig[j],
                txid,
                peer@,
            ).len() >= old(self).quorum by {
                assert(acks_of(pmid[j]) =~= acks_after(porig[j], txid, peer@));
            }
            assert forall|j: int| 0 <= j < newly@.len() implies #[trigger] self.committed@[old(
                self,
            ).committed@.len() + j] == porig[j].entry && (newly@[j]).same(porig[j].entry) by {
                assert(pmid[j].entry == porig[j].entry);
            }
        }
        newly
    }
}

} // verus!
