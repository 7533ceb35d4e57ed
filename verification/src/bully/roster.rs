//! The peers of a node: who they are, and how the list of them is read from
//! the configuration.

use crate::bully::address::{address_in, parse_address, Address};
use crate::error::{failure, ErrorKind, LeaderElectError};
use crate::text::{chars_of, decimal_up_to, parse_decimal, split, split_ranges};
use vstd::prelude::*;

verus! {

/// A peer: its id, where it listens, and whether this node holds an outbound
/// connection to it.
#[derive(Debug, PartialEq, Eq, Structural, Clone, Copy)]
pub struct Peer {
    pub id: u8,
    pub address: Address,
    pub connected: bool,
}

/// The ids of `peers`, in their order.
pub open spec fn ids_of(peers: Seq<Peer>) -> Seq<u8> {
    peers.map_values(|p: Peer| p.id)
}

/// The peers are in the order of their ids, and no id occurs twice.
pub open spec fn ascending(peers: Seq<Peer>) -> bool {
    forall|i: int, j: int| 0 <= i < j < peers.len() ==> peers[i].id < peers[j].id
}

/// One of `peers` has the id `id`.
pub open spec fn has_id(peers: Seq<Peer>, id: u8) -> bool {
    exists|i: int| 0 <= i < peers.len() && peers[i].id == id
}

/// "The peer's id is less than `id`."
pub open spec fn below(id: u8) -> spec_fn(Peer) -> bool {
    |p: Peer| p.id < id
}

/// "The peer's id is greater than `id`."
pub open spec fn above(id: u8) -> spec_fn(Peer) -> bool {
    |p: Peer| p.id > id
}

/// `peers` with `peer` among them, at the place of its id.
pub open spec fn insert_peer(peers: Seq<Peer>, peer: Peer) -> Seq<Peer> {
    peers.filter(below(peer.id)).push(peer) + peers.filter(above(peer.id))
}

/// Where the first `k` items of a sequence are those that `pred` holds of,
/// filtering by `pred` keeps those `k`.
pub proof fn lemma_filter_is_take<A>(s: Seq<A>, pred: spec_fn(A) -> bool, k: int)
    requires
        0 <= k <= s.len(),
        forall|j: int| 0 <= j < k ==> pred(#[trigger] s[j]),
        forall|j: int| k <= j < s.len() ==> !pred(#[trigger] s[j]),
    ensures
        s.filter(pred) == s.take(k),
    decreases s.len(),
{
    reveal(Seq::filter);
    if s.len() > 0 {
        let t = s.drop_last();
        if k == s.len() {
            lemma_filter_is_take(t, pred, k - 1);
            assert(t.take(k - 1).push(s.last()) == s.take(k));
        } else {
            lemma_filter_is_take(t, pred, k);
            assert(t.take(k) == s.take(k));
        }
    } else {
        assert(s.take(k) == s);
    }
}

/// Where the items of a sequence from the `k`-th on are those that `pred`
/// holds of, filtering by `pred` keeps those.
pub proof fn lemma_filter_is_skip<A>(s: Seq<A>, pred: spec_fn(A) -> bool, k: int)
    requires
        0 <= k <= s.len(),
        forall|j: int| 0 <= j < k ==> !pred(#[trigger] s[j]),
        forall|j: int| k <= j < s.len() ==> pred(#[trigger] s[j]),
    ensures
        s.filter(pred) == s.skip(k),
    decreases s.len(),
{
    reveal(Seq::filter);
    if s.len() > 0 {
        let t = s.drop_last();
        if k == s.len() {
            lemma_filter_is_skip(t, pred, k - 1);
            assert(t.skip(k - 1) == s.skip(k));
        } else {
            lemma_filter_is_skip(t, pred, k);
            assert(t.skip(k).push(s.last()) == s.skip(k));
        }
    } else {
        assert(s.skip(k) == s);
    }
}

/// In a list in the order of the ids, the peers below an id stand before the
/// peers above it.
pub proof fn lemma_ascending_parts(peers: Seq<Peer>, id: u8, lo: int, hi: int)
    requires
        ascending(peers),
        0 <= lo <= hi <= peers.len(),
        forall|j: int| 0 <= j < lo ==> (#[trigger] peers[j]).id < id,
        forall|j: int| lo <= j < hi ==> (#[trigger] peers[j]).id == id,
        forall|j: int| hi <= j < peers.len() ==> (#[trigger] peers[j]).id > id,
    ensures
        peers.filter(below(id)) == peers.take(lo),
        peers.filter(above(id)) == peers.skip(hi),
{
    lemma_filter_is_take(peers, below(id), lo);
    lemma_filter_is_skip(peers, above(id), hi);
}

/// Inserting a peer whose id is new keeps the order and adds the id.
pub proof fn lemma_insert_peer(peers: Seq<Peer>, peer: Peer)
    requires
        ascending(peers),
        !has_id(peers, peer.id),
    ensures
        ascending(insert_peer(peers, peer)),
        forall|id: u8| has_id(insert_peer(peers, peer), id) <==> (id == peer.id || has_id(peers, id)),
        insert_peer(peers, peer).len() == peers.len() + 1,
{
    let k = rank(peers, peer.id);
    lemma_rank(peers, peer.id);
    assert forall|j: int| k <= j < peers.len() implies (#[trigger] peers[j]).id > peer.id by {
        if peers[j].id == peer.id {
            assert(has_id(peers, peer.id));
        }
    }
    lemma_ascending_parts(peers, peer.id, k, k);
    let r = insert_peer(peers, peer);
    assert(r == peers.insert(k, peer));
    assert forall|id: u8| has_id(r, id) <==> (id == peer.id || has_id(peers, id)) by {
        if has_id(r, id) {
            let i = choose|i: int| 0 <= i < r.len() && r[i].id == id;
            if i < k {
                assert(peers[i].id == id);
            } else if i > k {
                assert(peers[i - 1].id == id);
            }
        }
        if id == peer.id {
            assert(r[k].id == id);
        }
        if has_id(peers, id) {
            let i = choose|i: int| 0 <= i < peers.len() && peers[i].id == id;
            if i < k {
                assert(r[i].id == id);
            } else {
                assert(r[i + 1].id == id);
            }
        }
    }
}

/// How many of `peers` stand before the first whose id is at least `id`.
pub open spec fn rank(peers: Seq<Peer>, id: u8) -> int
    decreases peers.len(),
{
    if peers.len() == 0 || peers[0].id >= id {
        0
    } else {
        1 + rank(peers.drop_first(), id)
    }
}

/// In a list in the order of the ids, the peers before `rank` are those with
/// a smaller id.
pub proof fn lemma_rank(peers: Seq<Peer>, id: u8)
    requires
        ascending(peers),
    ensures
        0 <= rank(peers, id) <= peers.len(),
        forall|j: int| 0 <= j < rank(peers, id) ==> (#[trigger] peers[j]).id < id,
        forall|j: int| rank(peers, id) <= j < peers.len() ==> (#[trigger] peers[j]).id >= id,
        has_id(peers, id) <==> (rank(peers, id) < peers.len() && peers[rank(peers, id)].id == id),
    decreases peers.len(),
{
    if peers.len() == 0 || peers[0].id >= id {
        if has_id(peers, id) {
            let i = choose|i: int| 0 <= i < peers.len() && peers[i].id == id;
            assert(i == 0);
        }
    } else {
        let t = peers.drop_first();
        assert(ascending(t)) by {
            assert forall|i: int, j: int| 0 <= i < j < t.len() implies t[i].id < t[j].id by {
                assert(t[i] == peers[i + 1] && t[j] == peers[j + 1]);
            }
        }
        lemma_rank(t, id);
        let k = rank(peers, id);
        assert forall|j: int| 0 <= j < k implies (#[trigger] peers[j]).id < id by {
            if j > 0 {
                assert(peers[j] == t[j - 1]);
            }
        }
        assert forall|j: int| k <= j < peers.len() implies (#[trigger] peers[j]).id >= id by {
            assert(peers[j] == t[j - 1]);
        }
        if has_id(peers, id) {
            let i = choose|i: int| 0 <= i < peers.len() && peers[i].id == id;
            assert(t[i - 1].id == id);
            assert(has_id(t, id));
        }
        if k < peers.len() && peers[k].id == id {
            assert(has_id(peers, id));
        }
    }
}

/// The id that a text of the configuration stands for: a decimal number of
/// at most 255, with or without a plus sign in front.
pub open spec fn parse_id(s: Seq<char>) -> Option<u8> {
    let digits = if s.len() > 0 && s[0] == '+' {
        s.skip(1)
    } else {
        s
    };
    match decimal_up_to(digits, 255) {
        Some(n) => Some(n as u8),
        None => None,
    }
}

/// The peer that one entry `id=a.b.c.d:port` of the list stands for.
pub open spec fn parse_entry(s: Seq<char>) -> Result<Peer, ErrorKind> {
    let parts = split(s, '=');
    if parts.len() != 2 {
        Err(ErrorKind::MalformedPeers)
    } else {
        match parse_id(parts[0]) {
            None => Err(ErrorKind::MalformedPeers),
            Some(id) => match parse_address(parts[1]) {
                None => Err(ErrorKind::InvalidAddress),
                Some(address) => Ok(Peer { id, address, connected: false }),
            },
        }
    }
}

/// The peers that the entries stand for, in the order of their ids. The
/// first entry that is malformed, or that repeats an id, decides the error.
pub open spec fn collect_peers(entries: Seq<Seq<char>>) -> Result<Seq<Peer>, ErrorKind>
    decreases entries.len(),
{
    if entries.len() == 0 {
        Ok(Seq::empty())
    } else {
        match collect_peers(entries.drop_last()) {
            Err(kind) => Err(kind),
            Ok(peers) => match parse_entry(entries.last()) {
                Err(kind) => Err(kind),
                Ok(peer) => if has_id(peers, peer.id) {
                    Err(ErrorKind::DuplicatePeer)
                } else {
                    Ok(insert_peer(peers, peer))
                },
            },
        }
    }
}

/// The peers that a list `id=address,id=address,...` stands for.
pub open spec fn parse_peers(s: Seq<char>) -> Result<Seq<Peer>, ErrorKind> {
    collect_peers(split(s, ','))
}

/// What `collect_peers` gives is in the order of the ids.
pub proof fn lemma_collect_peers_ascending(entries: Seq<Seq<char>>)
    ensures
        collect_peers(entries) matches Ok(peers) ==> ascending(peers),
    decreases entries.len(),
{
    if entries.len() > 0 {
        lemma_collect_peers_ascending(entries.drop_last());
        if let Ok(peers) = collect_peers(entries.drop_last()) {
            if let Ok(peer) = parse_entry(entries.last()) {
                if !has_id(peers, peer.id) {
                    lemma_insert_peer(peers, peer);
                }
            }
        }
    }
}

fn id_in(v: &Vec<char>, lo: usize, hi: usize) -> (r: Option<u8>)
    requires
        lo <= hi <= v.len(),
    ensures
        r == parse_id(v@.subrange(lo as int, hi as int)),
{
    let ghost s = v@.subrange(lo as int, hi as int);
    let start = if lo < hi && v[lo] == '+' {
        assert(s[0] == v@[lo as int]);
        assert(s.skip(1) == v@.subrange(lo + 1, hi as int));
        lo + 1
    } else {
        assert(lo < hi ==> s[0] == v@[lo as int]);
        lo
    };
    match parse_decimal(v, start, hi, 255) {
        Some(n) => Some(n as u8),
        None => None,
    }
}

fn entry_in(v: &Vec<char>, lo: usize, hi: usize) -> (r: Result<Peer, ErrorKind>)
    requires
        lo <= hi <= v.len(),
    ensures
        r == parse_entry(v@.subrange(lo as int, hi as int)),
{
    let parts = split_ranges(v, lo, hi, '=');
    if parts.len() != 2 {
        return Err(ErrorKind::MalformedPeers);
    }
    let id = match id_in(v, parts[0].0, parts[0].1) {
        Some(id) => id,
        None => {
            return Err(ErrorKind::MalformedPeers);
        },
    };
    match address_in(v, parts[1].0, parts[1].1) {
        Some(address) => Ok(Peer { id, address, connected: false }),
        None => Err(ErrorKind::InvalidAddress),
    }
}

/// Where the first peer stands whose id is at least `id`.
pub(crate) fn position(peers: &Vec<Peer>, id: u8) -> (k: usize)
    requires
        ascending(peers@),
    ensures
        k == rank(peers@, id),
        k <= peers.len(),
{
    let mut k: usize = 0;
    proof {
        lemma_rank(peers@, id);
    }
    while k < peers.len() && peers[k].id < id
        invariant
            k <= peers.len(),
            k <= rank(peers@, id) <= peers.len(),
            forall|j: int| 0 <= j < rank(peers@, id) ==> (#[trigger] peers@[j]).id < id,
            forall|j: int| rank(peers@, id) <= j < peers@.len() ==> (#[trigger] peers@[j]).id >= id,
        decreases peers.len() - k,
    {
        k += 1;
    }
    k
}

/// Puts `peer` among `peers`, at the place of its id.
pub(crate) fn insert(peers: &mut Vec<Peer>, peer: Peer)
    requires
        ascending(old(peers)@),
        !has_id(old(peers)@, peer.id),
    ensures
        final(peers)@ == insert_peer(old(peers)@, peer),
        ascending(final(peers)@),
{
    let k = position(peers, peer.id);
    proof {
        lemma_rank(peers@, peer.id);
        assert forall|j: int| k <= j < peers@.len() implies (#[trigger] peers@[j]).id > peer.id by {
            if peers@[j].id == peer.id {
                assert(has_id(peers@, peer.id));
            }
        }
        lemma_ascending_parts(peers@, peer.id, k as int, k as int);
        lemma_insert_peer(peers@, peer);
        assert(peers@.insert(k as int, peer) == insert_peer(peers@, peer));
    }
    peers.insert(k, peer);
}

/// Reads the list of peers `id=a.b.c.d:port,id=a.b.c.d:port,...` and gives
/// the peers in the order of their ids, none of them connected.
pub fn parse_peer_opt(peer_str: &str) -> (r: Result<Vec<Peer>, LeaderElectError>)
    ensures
        match r {
            Ok(peers) => parse_peers(peer_str@) == Ok::<Seq<Peer>, ErrorKind>(peers@) && ascending(
                peers@,
            ),
            Err(e) => parse_peers(peer_str@) == Err::<Seq<Peer>, ErrorKind>(e@.kind) && e@
                == failure(e@.kind),
        },
{
    let v = chars_of(peer_str);
    let entries = split_ranges(&v, 0, v.len(), ',');
    let ghost texts = split(v@, ',');
    assert(v@.subrange(0, v.len() as int) == v@);
    let mut peers: Vec<Peer> = Vec::new();
    let mut i: usize = 0;
    assert(texts.take(0) == Seq::<Seq<char>>::empty());
    while i < entries.len()
        invariant
            i <= entries.len() == texts.len(),
            texts == split(peer_str@, ','),
            forall|k: int|
                0 <= k < entries@.len() ==> (#[trigger] entries@[k]).0 <= entries@[k].1 <= v.len()
                    && v@.subrange(entries@[k].0 as int, entries@[k].1 as int) == texts[k],
            collect_peers(texts.take(i as int)) == Ok::<Seq<Peer>, ErrorKind>(peers@),
            ascending(peers@),
        decreases entries.len() - i,
    {
        let ghost before = texts.take(i as int);
        let ghost now = texts.take(i + 1);
        assert(now.drop_last() == before);
        assert(now.last() == texts[i as int]);
        let (lo, hi) = entries[i];
        let entry = entry_in(&v, lo, hi);
        let ghost failed = match entry {
            Err(_) => true,
            Ok(peer) => has_id(peers@, peer.id),
        };
        proof {
            if failed {
                lemma_collect_peers_fails(texts, i + 1);
            }
        }
        let peer = match entry {
            Ok(peer) => peer,
            Err(kind) => {
                return Err(LeaderElectError::of(kind));
            },
        };
        let k = position(&peers, peer.id);
        proof {
            lemma_rank(peers@, peer.id);
        }
        if k < peers.len() && peers[k].id == peer.id {
            return Err(LeaderElectError::of(ErrorKind::DuplicatePeer));
        }
        insert(&mut peers, peer);
        i += 1;
    }
    assert(texts.take(i as int) == texts);
    Ok(peers)
}

/// Once the entries up to some place give an error, all the entries give it.
pub proof fn lemma_collect_peers_fails(entries: Seq<Seq<char>>, k: int)
    requires
        0 <= k <= entries.len(),
        collect_peers(entries.take(k)) is Err,
    ensures
        collect_peers(entries) == collect_peers(entries.take(k)),
    decreases entries.len(),
{
    if k == entries.len() {
        assert(entries.take(k) == entries);
    } else {
        assert(entries.drop_last().take(k) == entries.take(k));
        lemma_collect_peers_fails(entries.drop_last(), k);
    }
}

} // verus!
