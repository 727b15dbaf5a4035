//! The cluster-topology model and the seed/join bootstrap decisions.  A node
//! seeds a fresh meta range only when its own cached metadata lists it as a
//! replica, every configured peer was reachable, and none of them has seen
//! meta — otherwise it adopts what exists, or keeps retrying.

use vstd::prelude::*;

use crate::ident::fresh_peer_id;

verus! {

/// One replica of a range, as recorded in the cluster topology.
pub struct Replica {
    pub address: String,
    pub id: String,
}

/// One range of a collection, as recorded in the cluster topology.
pub struct RangeMeta {
    pub lower: Vec<u8>,
    pub replicas: Vec<Replica>,
}

/// One keyspace collection: a prefix and the ranges that partition it.
/// Every collection here is a plain key-value collection; a storage-kind
/// tag would sit beside `name` if another kind existed.
pub struct Collection {
    pub prefix: Vec<u8>,
    pub name: String,
    pub ranges: Vec<RangeMeta>,
    pub replication_factor: u64,
}

/// The cluster's topology blob, persisted by the storage collaborator.
pub struct Meta {
    pub collections: Vec<Collection>,
}

/// The key prefix under which the meta collection lives.
pub open spec fn meta_prefix_spec() -> Seq<u8> {
    seq![0u8, 0u8, 77u8, 69u8, 84u8, 65u8]
}

/// The key prefix under which the meta collection lives: two zero bytes,
/// then `META`.
pub fn meta_prefix() -> (r: Vec<u8>)
    ensures
        r@ == meta_prefix_spec(),
{
    let mut r: Vec<u8> = Vec::new();
    r.push(0u8);
    r.push(0u8);
    r.push(77u8);
    r.push(69u8);
    r.push(84u8);
    r.push(65u8);
    proof {
        assert(r@ =~= meta_prefix_spec());
    }
    r
}

/// The topology lists `addr` among this replica list.
pub open spec fn addr_in_replicas(rs: Seq<Replica>, addr: Seq<char>) -> bool {
    exists|p: int| 0 <= p < rs.len() && rs[p].address@ == addr
}

/// The topology lists `addr` among some range of this range list.
pub open spec fn addr_in_ranges(gs: Seq<RangeMeta>, addr: Seq<char>) -> bool {
    exists|g: int| 0 <= g < gs.len() && addr_in_replicas(gs[g].replicas@, addr)
}

/// The topology lists `addr` as a replica of something.
pub open spec fn addr_in_meta(m: Meta, addr: Seq<char>) -> bool {
    exists|c: int|
        0 <= c < m.collections@.len() && addr_in_ranges(m.collections@[c].ranges@, addr)
}

fn replica_in_list(rs: &Vec<Replica>, addr: &String) -> (r: bool)
    ensures
        r == addr_in_replicas(rs@, addr@),
{
    let mut p: usize = 0;
    while p < rs.len()
        invariant
            p <= rs@.len(),
            forall|q: int| 0 <= q < p ==> (#[trigger] rs@[q]).address@ != addr@,
        decreases rs@.len() - p,
    {
        if rs[p].address.eq(addr) {
            return true;
        }
        p = p + 1;
    }
    false
}

fn addr_in_range_list(gs: &Vec<RangeMeta>, addr: &String) -> (r: bool)
    ensures
        r == addr_in_ranges(gs@, addr@),
{
    let mut g: usize = 0;
    while g < gs.len()
        invariant
            g <= gs@.len(),
            forall|h: int| 0 <= h < g ==> !addr_in_replicas((#[trigger] gs@[h]).replicas@, addr@),
        decreases gs@.len() - g,
    {
        if replica_in_list(&gs[g].replicas, addr) {
            return true;
        }
        g = g + 1;
    }
    false
}

/// Whether this node's own locally cached topology lists it as a replica —
/// the precondition for even considering to seed a fresh meta range.
pub fn we_are_in_local_cached_meta(meta_opt: &Option<Meta>, our_addr: &String) -> (r: bool)
    ensures
        r == match *meta_opt {
            Option::Some(m) => addr_in_meta(m, our_addr@),
            Option::None => false,
        },
{
    match meta_opt {
        Option::None => false,
        Option::Some(m) => {
            let mut c: usize = 0;
            let mut hit = false;
            while c < m.collections.len() && !hit
                invariant
                    c <= m.collections@.len(),
                    !hit ==> forall|d: int|
                        0 <= d < c ==> !addr_in_ranges(
                            (#[trigger] m.collections@[d]).ranges@,
                            our_addr@,
                        ),
                    hit ==> addr_in_meta(*m, our_addr@),
                decreases m.collections@.len() - c + if hit { 0int } else { 1int },
            {
                if addr_in_range_list(&m.collections[c].ranges, our_addr) {
                    hit = true;
                } else {
                    c = c + 1;
                }
            }
            proof {
                if !hit {
                    assert(!addr_in_meta(*m, our_addr@));
                }
            }
            hit
        },
    }
}

/// What the bootstrap should do next.
#[derive(Clone, Copy, PartialEq, Eq, Structural, Debug)]
pub enum SeedDecision {
    /// The local cache does not list this node as a meta replica: wait to be
    /// told of schemas by peers.
    NotReplica,
    /// Not every peer answered the probe: ask again — seeding never proceeds
    /// without confirmation from the full peer set.
    Retry,
    /// Some peer has already seen meta: abort seeding and adopt what exists.
    Adopt,
    /// Every peer answered and none has seen meta: seed it here.
    Seed,
}

/// The seed/join decision for one probe round.  `probe` is what the peer
/// query returned: `None` when some peer was unreachable, otherwise whether
/// any reachable peer reports having seen meta.
pub fn should_seed(cached_meta: &Option<Meta>, local_peer_addr: &String, probe: Option<bool>) -> (d:
    SeedDecision)
    ensures
        ({
            let in_meta = match *cached_meta {
                Option::Some(m) => addr_in_meta(m, local_peer_addr@),
                Option::None => false,
            };
            d == if !in_meta {
                SeedDecision::NotReplica
            } else {
                match probe {
                    Option::None => SeedDecision::Retry,
                    Option::Some(true) => SeedDecision::Adopt,
                    Option::Some(false) => SeedDecision::Seed,
                }
            }
        }),
{
    if !we_are_in_local_cached_meta(cached_meta, local_peer_addr) {
        return SeedDecision::NotReplica;
    }
    match probe {
        Option::None => SeedDecision::Retry,
        Option::Some(true) => SeedDecision::Adopt,
        Option::Some(false) => SeedDecision::Seed,
    }
}

/// The fresh topology a seeding node originates: one `META` collection with
/// one range at the meta prefix, replicated across the given peers, each
/// under a freshly generated replica id.
pub fn initial_meta(peers: &Vec<String>) -> (m: Meta)
    ensures
        m.collections@.len() == 1,
        m.collections@[0].prefix@ == meta_prefix_spec(),
        m.collections@[0].name@ == "META"@,
        m.collections@[0].ranges@.len() == 1,
        m.collections@[0].ranges@[0].lower@ == meta_prefix_spec(),
        m.collections@[0].ranges@[0].replicas@.len() == peers@.len(),
        forall|i: int|
            0 <= i < peers@.len() ==> (#[trigger] m.collections@[0].ranges@[0].replicas@[i]).address@
                == peers@[i]@,
        m.collections@[0].replication_factor == 3,
{
    let mut replicas: Vec<Replica> = Vec::new();
    let mut i: usize = 0;
    while i < peers.len()
        invariant
            i <= peers@.len(),
            replicas@.len() == i,
            forall|j: int| 0 <= j < i ==> (#[trigger] replicas@[j]).address@ == peers@[j]@,
        decreases peers@.len() - i,
    {
        replicas.push(Replica { address: peers[i].clone(), id: fresh_peer_id() });
        i = i + 1;
    }
    let range = RangeMeta { lower: meta_prefix(), replicas };
    let collection = Collection {
        prefix: meta_prefix(),
        name: "META".to_owned(),
        ranges: vec_of_range(range),
        replication_factor: 3,
    };
    Meta { collections: vec_of_collection(collection) }
}

fn vec_of_range(r: RangeMeta) -> (v: Vec<RangeMeta>)
    ensures
        v@.len() == 1,
        v@[0] == r,
{
    let mut v: Vec<RangeMeta> = Vec::new();
    v.push(r);
    v
}

fn vec_of_collection(c: Collection) -> (v: Vec<Collection>)
    ensures
        v@.len() == 1,
        v@[0] == c,
{
    let mut v: Vec<Collection> = Vec::new();
    v.push(c);
    v
}

/// The replica addresses of a range, copied out in order.
pub fn replica_addresses(rs: &Vec<Replica>) -> (out: Vec<String>)
    ensures
        out@.len() == rs@.len(),
        forall|i: int| 0 <= i < rs@.len() ==> (#[trigger] out@[i])@ == rs@[i].address@,
{
    let mut out: Vec<String> = Vec::new();
    let mut i: usize = 0;
    while i < rs.len()
        invariant
            i <= rs@.len(),
            out@.len() == i,
            forall|j: int| 0 <= j < i ==> (#[trigger] out@[j])@ == rs@[j].address@,
        decreases rs@.len() - i,
    {
        out.push(rs[i].address.clone());
        i = i + 1;
    }
    out
}

} // verus!
