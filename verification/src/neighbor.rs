//! The neighbor cache: which hardware address answers for which IPv4 address.

use vstd::prelude::*;

use crate::addr;
use crate::addr::{IPv4, MacAddress};

verus! {

/// How many neighbors are remembered.
pub const NEIGHBOR_CACHE_LIMIT: usize = 16;

/// A neighbor's address pair.
pub struct NeighborEntry {
    pub ip: IPv4,
    pub mac: MacAddress,
}

impl View for NeighborEntry {
    type V = (Seq<u8>, Seq<u8>);

    open spec fn view(&self) -> (Seq<u8>, Seq<u8>) {
        (self.ip@, self.mac@)
    }
}

/// Whether an address pair is worth remembering: the broadcast address, the
/// zero hardware address and the zero IPv4 address name no neighbor.
pub open spec fn learnable(ip: Seq<u8>, mac: Seq<u8>) -> bool {
    mac != addr::broadcast_mac() && mac != addr::zero_mac() && ip != addr::zero_ip()
}

/// The first position at or after `i` whose entry is for `ip`.
pub open spec fn find_from(c: Seq<(Seq<u8>, Seq<u8>)>, ip: Seq<u8>, i: int) -> Option<int>
    decreases c.len() - i,
{
    if i >= c.len() {
        None
    } else if c[i].0 == ip {
        Some(i)
    } else {
        find_from(c, ip, i + 1)
    }
}

/// The position of the entry for `ip`.
pub open spec fn find(c: Seq<(Seq<u8>, Seq<u8>)>, ip: Seq<u8>) -> Option<int> {
    find_from(c, ip, 0)
}

/// The hardware address remembered for `ip`.
pub open spec fn lookup(c: Seq<(Seq<u8>, Seq<u8>)>, ip: Seq<u8>) -> Option<Seq<u8>> {
    match find(c, ip) {
        Some(i) => Some(c[i].1),
        None => None,
    }
}

/// The cache after learning a pair: a known neighbor is updated in place, a new
/// one goes to the end, and a full cache first drops its oldest entry.
pub open spec fn learned(
    c: Seq<(Seq<u8>, Seq<u8>)>,
    ip: Seq<u8>,
    mac: Seq<u8>,
) -> Seq<(Seq<u8>, Seq<u8>)> {
    if !learnable(ip, mac) {
        c
    } else {
        match find(c, ip) {
            Some(i) => c.update(i, (ip, mac)),
            None => if c.len() >= NEIGHBOR_CACHE_LIMIT {
                c.skip(1).push((ip, mac))
            } else {
                c.push((ip, mac))
            },
        }
    }
}

/// The invariant of a cache: within its limit, one entry per IPv4 address, and
/// no entry that is not worth remembering.
pub open spec fn well_formed(c: Seq<(Seq<u8>, Seq<u8>)>) -> bool {
    &&& c.len() <= NEIGHBOR_CACHE_LIMIT
    &&& forall|i: int, j: int| 0 <= i < j < c.len() ==> (#[trigger] c[i]).0 != (#[trigger] c[j]).0
    &&& forall|i: int| 0 <= i < c.len() ==> learnable((#[trigger] c[i]).0, c[i].1)
}

/// A bounded cache of neighbors, oldest first.
pub struct NeighborCache {
    entries: Vec<NeighborEntry>,
}

impl View for NeighborCache {
    type V = Seq<(Seq<u8>, Seq<u8>)>;

    closed spec fn view(&self) -> Seq<(Seq<u8>, Seq<u8>)> {
        self.entries@.map_values(|e: NeighborEntry| e@)
    }
}

impl NeighborCache {
    /// A cache that knows no neighbor.
    pub fn new() -> (r: NeighborCache)
        ensures
            r@ == Seq::<(Seq<u8>, Seq<u8>)>::empty(),
            well_formed(r@),
    {
        let r = NeighborCache { entries: Vec::new() };
        assert(r@ =~= Seq::<(Seq<u8>, Seq<u8>)>::empty());
        r
    }

    /// The number of neighbors known.
    pub fn len(&self) -> (r: usize)
        ensures
            r == self@.len(),
    {
        self.entries.len()
    }

    /// The position of the entry for `ip`.
    fn position(&self, ip: &IPv4) -> (r: Option<usize>)
        ensures
            match r {
                Some(i) => i < self@.len() && find(self@, ip@) == Some(i as int),
                None => find(self@, ip@) is None,
            },
    {
        let mut i: usize = 0;
        while i < self.entries.len()
            invariant
                i <= self.entries.len(),
                find_from(self@, ip@, i as int) == find(self@, ip@),
            decreases self.entries.len() - i,
        {
            if self.entries[i].ip == *ip {
                return Some(i);
            }
            i = i + 1;
        }
        None
    }

    /// Remembers that `mac` answers for `ip`.
    pub fn learn_neighbor(&mut self, ip: IPv4, mac: MacAddress)
        ensures
            final(self)@ == learned(old(self)@, ip@, mac@),
            well_formed(old(self)@) ==> well_formed(final(self)@),
    {
        proof {
            if well_formed(self@) {
                law_learn_keeps_cache_well_formed(self@, ip@, mac@);
            }
        }
        if mac == MacAddress::broadcast() || mac.is_zero() || ip.is_zero() {
            return;
        }
        let ghost before = self@;
        match self.position(&ip) {
            Some(i) => {
                self.entries.set(i, NeighborEntry { ip, mac });
                assert(self@ =~= before.update(i as int, (ip@, mac@)));
            },
            None => {
                if self.entries.len() >= NEIGHBOR_CACHE_LIMIT {
                    self.entries.remove(0);
                    assert(self@ =~= before.skip(1));
                }
                let ghost kept = self@;
                self.entries.push(NeighborEntry { ip, mac });
                assert(self@ =~= kept.push((ip@, mac@)));
            },
        }
    }

    /// The hardware address remembered for `ip`.
    pub fn lookup_neighbor(&self, ip: &IPv4) -> (r: Option<MacAddress>)
        ensures
            match r {
                Some(mac) => lookup(self@, ip@) == Some(mac@),
                None => lookup(self@, ip@) is None,
            },
    {
        match self.position(ip) {
            Some(i) => Some(self.entries[i].mac),
            None => None,
        }
    }
}

/// What a search from `i` finds: the first match, or that there is none.
proof fn lemma_find_from(c: Seq<(Seq<u8>, Seq<u8>)>, ip: Seq<u8>, i: int)
    requires
        0 <= i <= c.len(),
    ensures
        match find_from(c, ip, i) {
            Some(k) => i <= k < c.len() && c[k].0 == ip && forall|j: int|
                i <= j < k ==> (#[trigger] c[j]).0 != ip,
            None => forall|j: int| i <= j < c.len() ==> (#[trigger] c[j]).0 != ip,
        },
    decreases c.len() - i,
{
    if i < c.len() && c[i].0 != ip {
        lemma_find_from(c, ip, i + 1);
    }
}

/// Learning keeps the cache's invariant.
pub proof fn law_learn_keeps_cache_well_formed(
    c: Seq<(Seq<u8>, Seq<u8>)>,
    ip: Seq<u8>,
    mac: Seq<u8>,
)
    requires
        well_formed(c),
    ensures
        well_formed(learned(c, ip, mac)),
{
    lemma_find_from(c, ip, 0);
}

/// A neighbor that was just learned is found, with the address just learned.
pub proof fn law_learned_neighbor_is_found(
    c: Seq<(Seq<u8>, Seq<u8>)>,
    ip: Seq<u8>,
    mac: Seq<u8>,
)
    requires
        learnable(ip, mac),
    ensures
        lookup(learned(c, ip, mac), ip) == Some(mac),
{
    let d = learned(c, ip, mac);
    lemma_find_from(c, ip, 0);
    lemma_find_from(d, ip, 0);
    match find(c, ip) {
        Some(i) => {
            assert(d[i] == (ip, mac));
        },
        None => {
            assert(d[d.len() - 1] == (ip, mac));
            if c.len() >= NEIGHBOR_CACHE_LIMIT {
                assert(forall|j: int| 0 <= j < d.len() - 1 ==> d[j] == c[j + 1]);
            }
        },
    }
}

/// Learning one neighbor leaves every other answer as it was, except that a full
/// cache forgets its oldest neighbor to make room for a new one.
pub proof fn law_learning_keeps_other_neighbors(
    c: Seq<(Seq<u8>, Seq<u8>)>,
    ip: Seq<u8>,
    mac: Seq<u8>,
    other: Seq<u8>,
)
    requires
        well_formed(c),
        other != ip,
    ensures
        lookup(learned(c, ip, mac), other) == if learnable(ip, mac) && find(c, ip) is None
            && c.len() == NEIGHBOR_CACHE_LIMIT && c[0].0 == other {
            None
        } else {
            lookup(c, other)
        },
{
    let d = learned(c, ip, mac);
    lemma_find_from(c, ip, 0);
    lemma_find_from(c, other, 0);
    lemma_find_from(d, other, 0);
    if learnable(ip, mac) {
        match find(c, ip) {
            Some(i) => {
                if find(c, other) is Some {
                    assert(d[find(c, other)->0] == c[find(c, other)->0]);
                }
                if find(d, other) is Some {
                    assert(c[find(d, other)->0] == d[find(d, other)->0]);
                }
            },
            None => {
                if c.len() >= NEIGHBOR_CACHE_LIMIT {
                    assert(forall|j: int| 0 <= j < d.len() - 1 ==> d[j] == c[j + 1]);
                    if find(c, other) is Some && find(c, other)->0 > 0 {
                        assert(d[find(c, other)->0 - 1] == c[find(c, other)->0]);
                    }
                    if find(d, other) is Some {
                        assert(c[find(d, other)->0 + 1] == d[find(d, other)->0]);
                    }
                } else {
                    assert(forall|j: int| 0 <= j < c.len() ==> d[j] == c[j]);
                    if find(c, other) is Some {
                        assert(d[find(c, other)->0] == c[find(c, other)->0]);
                    }
                    if find(d, other) is Some {
                        assert(c[find(d, other)->0] == d[find(d, other)->0]);
                    }
                }
            },
        }
    }
}

/// Learning the same pair again changes nothing.
pub proof fn law_learning_is_idempotent(c: Seq<(Seq<u8>, Seq<u8>)>, ip: Seq<u8>, mac: Seq<u8>)
    ensures
        learned(learned(c, ip, mac), ip, mac) == learned(c, ip, mac),
{
    let d = learned(c, ip, mac);
    if learnable(ip, mac) {
        law_learned_neighbor_is_found(c, ip, mac);
        lemma_find_from(d, ip, 0);
        let i = find(d, ip)->0;
        assert(d[i] == (ip, mac));
        assert(d.update(i, (ip, mac)) =~= d);
    }
}

/// A cache that keeps its invariant never answers with the broadcast address or
/// the zero hardware address, and knows nothing of the zero IPv4 address.
pub proof fn law_answers_are_learnable(c: Seq<(Seq<u8>, Seq<u8>)>, ip: Seq<u8>)
    requires
        well_formed(c),
        lookup(c, ip) is Some,
    ensures
        learnable(ip, lookup(c, ip)->0),
{
    lemma_find_from(c, ip, 0);
}

/// A lookup answers with the first entry for an address, and with nothing just
/// where there is none.
pub proof fn law_lookup_finds_the_first_entry(c: Seq<(Seq<u8>, Seq<u8>)>, ip: Seq<u8>, i: int)
    ensures
        0 <= i < c.len() && c[i].0 == ip && (forall|j: int|
            0 <= j < i ==> (#[trigger] c[j]).0 != ip) ==> lookup(c, ip) == Some(c[i].1),
        (forall|j: int| 0 <= j < c.len() ==> (#[trigger] c[j]).0 != ip) <==> lookup(c, ip) is None,
{
    lemma_find_from(c, ip, 0);
    if 0 <= i < c.len() && c[i].0 == ip && (forall|j: int|
        0 <= j < i ==> (#[trigger] c[j]).0 != ip) {
        let k = find(c, ip)->0;
        assert(c[k].0 == ip);
        assert(k == i);
    }
}

/// Learning a pair: nothing is learned of the broadcast address, the zero
/// hardware address and the zero IPv4 address. The entry of a known neighbor is
/// changed where it stands, and no other. A new neighbor goes to the end, and
/// the oldest of sixteen makes room for it.
pub proof fn law_learning_changes_one_entry(
    c: Seq<(Seq<u8>, Seq<u8>)>,
    ip: Seq<u8>,
    mac: Seq<u8>,
    i: int,
)
    ensures
        mac == seq![255u8, 255, 255, 255, 255, 255] || mac == seq![0u8, 0, 0, 0, 0, 0] || ip
            == seq![0u8, 0, 0, 0] ==> learned(c, ip, mac) == c,
        mac != seq![255u8, 255, 255, 255, 255, 255] && mac != seq![0u8, 0, 0, 0, 0, 0] && ip
            != seq![0u8, 0, 0, 0] ==> {
            &&& 0 <= i < c.len() && c[i].0 == ip && (forall|j: int|
                0 <= j < i ==> (#[trigger] c[j]).0 != ip) ==> learned(c, ip, mac) == c.update(
                i,
                (ip, mac),
            )
            &&& (forall|j: int| 0 <= j < c.len() ==> (#[trigger] c[j]).0 != ip) ==> learned(
                c,
                ip,
                mac,
            ) == if c.len() < 16 {
                c.push((ip, mac))
            } else {
                c.skip(1).push((ip, mac))
            }
        },
{
    addr::law_special_addresses(0);
    lemma_find_from(c, ip, 0);
    if 0 <= i < c.len() && c[i].0 == ip && (forall|j: int|
        0 <= j < i ==> (#[trigger] c[j]).0 != ip) {
        let k = find(c, ip)->0;
        assert(c[k].0 == ip);
        assert(k == i);
    }
}

/// A cache that keeps its invariant holds at most sixteen neighbors, each
/// address once.
pub proof fn law_cache_is_bounded(c: Seq<(Seq<u8>, Seq<u8>)>, i: int, j: int)
    requires
        well_formed(c),
        0 <= i < j < c.len(),
    ensures
        c.len() <= 16,
        c[i].0 != c[j].0,
        c[i].0 != seq![0u8, 0, 0, 0],
        c[i].1 != seq![255u8, 255, 255, 255, 255, 255],
        c[i].1 != seq![0u8, 0, 0, 0, 0, 0],
{
    addr::law_special_addresses(0);
    assert(learnable(c[i].0, c[i].1));
}

/// An entry stands for its IPv4 address and the hardware address to it.
pub proof fn law_entry_fields(e: NeighborEntry)
    ensures
        e@.0 == e.ip.0@,
        e@.1 == e.mac.0@,
{
}

} // verus!
