//! Address lookup for peers that run on one machine.
//!
//! Peers find each other's addresses in a table that they share, without a
//! network service.

use vstd::prelude::*;

use crate::peer::PeerId;

verus! {

/// The address of a socket.
#[derive(Clone, Copy, Debug, PartialEq, Eq, Structural)]
pub enum SocketAddr {
    /// The bits of the address, and the port.
    V4(u32, u16),
    /// The bits of the address, the port, the flow information and the scope id.
    V6(u128, u16, u32, u32),
}

/// The addresses without repetitions: each stands where it first stood.
fn distinct(addrs: Vec<SocketAddr>) -> (kept: Vec<SocketAddr>)
    ensures
        kept@.no_duplicates(),
        kept@.to_set() == addrs@.to_set(),
{
    let mut kept: Vec<SocketAddr> = Vec::new();
    let mut i: usize = 0;
    while i < addrs.len()
        invariant
            i <= addrs@.len(),
            kept@.no_duplicates(),
            forall|a: SocketAddr| kept@.contains(a) <==> addrs@.take(i as int).contains(a),
        decreases addrs@.len() - i,
    {
        let addr = addrs[i];
        let ghost before = kept@;
        let ghost seen = addrs@.take(i as int);
        assert(addrs@.take(i + 1) =~= seen.push(addr));
        if !contains(&kept, addr) {
            kept.push(addr);
            assert forall|a: SocketAddr| kept@.contains(a) <==> seen.push(addr).contains(a) by {
                lemma_push_contains(before, addr, a);
                lemma_push_contains(seen, addr, a);
            }
            assert(kept@.no_duplicates());
        } else {
            assert forall|a: SocketAddr| kept@.contains(a) <==> seen.push(addr).contains(a) by {
                lemma_push_contains(seen, addr, a);
            }
        }
        i += 1;
    }
    assert(addrs@.take(addrs@.len() as int) =~= addrs@);
    assert(kept@.to_set() =~= addrs@.to_set());
    kept
}

/// What a sequence contains after an element was added.
proof fn lemma_push_contains(items: Seq<SocketAddr>, item: SocketAddr, other: SocketAddr)
    ensures
        items.push(item).contains(other) <==> items.contains(other) || item == other,
{
    let pushed = items.push(item);
    if items.contains(other) {
        let i = choose|i: int| 0 <= i < items.len() && items[i] == other;
        assert(pushed[i] == other);
    }
    if item == other {
        assert(pushed[items.len() as int] == other);
    }
    if pushed.contains(other) && item != other {
        let i = choose|i: int| 0 <= i < pushed.len() && pushed[i] == other;
        assert(items[i] == other);
    }
}

/// Whether `addr` is among `addrs`.
fn contains(addrs: &Vec<SocketAddr>, addr: SocketAddr) -> (found: bool)
    ensures
        found == addrs@.contains(addr),
{
    let mut i: usize = 0;
    while i < addrs.len()
        invariant
            i <= addrs@.len(),
            forall|j: int| 0 <= j < i ==> (#[trigger] addrs@[j]) != addr,
        decreases addrs@.len() - i,
    {
        if addrs[i] == addr {
            assert(addrs@.contains(addr));
            return true;
        }
        i += 1;
    }
    false
}

/// The addresses of one peer.
struct Listing {
    peer: PeerId,
    addrs: Vec<SocketAddr>,
}

/// Whether no peer is listed twice, and no address twice for a peer.
spec fn well_listed(listings: Seq<Listing>) -> bool {
    &&& forall|i: int, j: int|
        0 <= i < j < listings.len() ==> (#[trigger] listings[i]).peer@ != (
        #[trigger] listings[j]).peer@
    &&& forall|i: int| 0 <= i < listings.len() ==> (#[trigger] listings[i]).addrs@.no_duplicates()
}

/// Whether the peer of some listing is `peer`.
spec fn is_listed(listings: Seq<Listing>, peer: Seq<u8>) -> bool {
    exists|i: int| 0 <= i < listings.len() && (#[trigger] listings[i]).peer@ == peer
}

/// Where `peer` is listed.
spec fn place_of(listings: Seq<Listing>, peer: Seq<u8>) -> int {
    choose|i: int| 0 <= i < listings.len() && (#[trigger] listings[i]).peer@ == peer
}

/// What the listings say: for each peer, its addresses.
spec fn table_of(listings: Seq<Listing>) -> Map<Seq<u8>, Set<SocketAddr>> {
    Map::new(
        |peer: Seq<u8>| is_listed(listings, peer),
        |peer: Seq<u8>| listings[place_of(listings, peer)].addrs@.to_set(),
    )
}

/// The listing at `i` is what the table says of its peer.
proof fn lemma_table_at(listings: Seq<Listing>, i: int)
    requires
        well_listed(listings),
        0 <= i < listings.len(),
    ensures
        table_of(listings).contains_key(listings[i].peer@),
        table_of(listings)[listings[i].peer@] == listings[i].addrs@.to_set(),
{
    let peer = listings[i].peer@;
    assert(is_listed(listings, peer));
    let place = place_of(listings, peer);
    assert(place == i);
}

/// The addresses of peers, by their ids.
struct AddressTable {
    listings: Vec<Listing>,
}

impl AddressTable {
    /// For each peer in the table, its addresses.
    spec fn view(&self) -> Map<Seq<u8>, Set<SocketAddr>> {
        table_of(self.listings@)
    }

    /// Whether each peer and each of its addresses stands in the table once.
    spec fn wf(&self) -> bool {
        well_listed(self.listings@)
    }

    /// The table without peers.
    fn new() -> (table: Self)
        ensures
            table.wf(),
            table@ == Map::<Seq<u8>, Set<SocketAddr>>::empty(),
    {
        let table = AddressTable { listings: Vec::new() };
        assert(table@ =~= Map::<Seq<u8>, Set<SocketAddr>>::empty());
        table
    }

    /// Where a peer is listed.
    fn find(&self, peer: &PeerId) -> (place: Option<usize>)
        requires
            self.wf(),
        ensures
            place is Some <==> self@.contains_key(peer@),
            place matches Some(i) ==> i < self.listings@.len() && self.listings@[i as int].peer@
                == peer@ && self@[peer@] == self.listings@[i as int].addrs@.to_set(),
    {
        let mut i: usize = 0;
        while i < self.listings.len()
            invariant
                i <= self.listings@.len(),
                self.wf(),
                forall|j: int| 0 <= j < i ==> (#[trigger] self.listings@[j]).peer@ != peer@,
            decreases self.listings@.len() - i,
        {
            if self.listings[i].peer.same_as(peer) {
                proof {
                    lemma_table_at(self.listings@, i as int);
                }
                return Some(i);
            }
            i += 1;
        }
        None
    }

    /// Gives a peer its addresses, in place of those that it had.
    fn insert(&mut self, peer: PeerId, addrs: Vec<SocketAddr>)
        requires
            old(self).wf(),
        ensures
            final(self).wf(),
            final(self)@ == old(self)@.insert(peer@, addrs@.to_set()),
    {
        let found = self.find(&peer);
        let ghost before = self.listings@;
        let kept = distinct(addrs);
        let listing = Listing { peer, addrs: kept };
        match found {
            Some(i) => {
                self.listings.set(i, listing);
                proof {
                    lemma_table_set(before, i as int, listing);
                }
            },
            None => {
                proof {
                    assert forall|j: int| 0 <= j < before.len() implies (#[trigger] before[j]).peer@
                        != peer@ by {
                        if before[j].peer@ == peer@ {
                            assert(is_listed(before, peer@));
                        }
                    }
                    lemma_table_push(before, listing);
                }
                self.listings.push(listing);
            },
        }
    }

    /// The addresses of a peer.
    fn get(&self, peer: &PeerId) -> (addrs: Option<Vec<SocketAddr>>)
        requires
            self.wf(),
        ensures
            addrs is Some <==> self@.contains_key(peer@),
            addrs matches Some(found) ==> found@.no_duplicates() && found@.to_set() == self@[peer@],
    {
        match self.find(peer) {
            Some(i) => {
                let mut copy: Vec<SocketAddr> = Vec::new();
                copy.extend_from_slice(self.listings[i].addrs.as_slice());
                assert(copy@ =~= self.listings@[i as int].addrs@);
                Some(copy)
            },
            None => None,
        }
    }
}

/// Replacing the listing of a peer changes what the table says of that peer.
proof fn lemma_table_set(listings: Seq<Listing>, i: int, listing: Listing)
    requires
        well_listed(listings),
        0 <= i < listings.len(),
        listings[i].peer@ == listing.peer@,
        listing.addrs@.no_duplicates(),
    ensures
        well_listed(listings.update(i, listing)),
        table_of(listings.update(i, listing)) == table_of(listings).insert(
            listing.peer@,
            listing.addrs@.to_set(),
        ),
{
    let after = listings.update(i, listing);
    assert(well_listed(after));
    let expected = table_of(listings).insert(listing.peer@, listing.addrs@.to_set());
    assert forall|peer: Seq<u8>| is_listed(after, peer) == expected.contains_key(peer) by {
        if is_listed(listings, peer) {
            let place = place_of(listings, peer);
            assert(after[place].peer@ == peer);
        }
        if is_listed(after, peer) {
            let place = place_of(after, peer);
            assert(listings[place].peer@ == peer);
        }
        assert(after[i].peer@ == listing.peer@);
    }
    assert forall|peer: Seq<u8>| is_listed(after, peer) implies #[trigger] table_of(after)[peer]
        == expected[peer] by {
        let place = place_of(after, peer);
        lemma_table_at(after, place);
        lemma_table_at(listings, place);
        if peer == listing.peer@ {
            assert(place == i) by {
                assert(after[i].peer@ == peer);
            }
        }
    }
    assert(table_of(after) =~= expected);
}

/// Listing a new peer adds it to what the table says.
proof fn lemma_table_push(listings: Seq<Listing>, listing: Listing)
    requires
        well_listed(listings),
        forall|j: int|
            0 <= j < listings.len() ==> (#[trigger] listings[j]).peer@ != listing.peer@,
        listing.addrs@.no_duplicates(),
    ensures
        well_listed(listings.push(listing)),
        table_of(listings.push(listing)) == table_of(listings).insert(
            listing.peer@,
            listing.addrs@.to_set(),
        ),
{
    let after = listings.push(listing);
    assert(well_listed(after));
    let expected = table_of(listings).insert(listing.peer@, listing.addrs@.to_set());
    assert forall|peer: Seq<u8>| is_listed(after, peer) == expected.contains_key(peer) by {
        if is_listed(listings, peer) {
            let place = place_of(listings, peer);
            assert(after[place].peer@ == peer);
        }
        if is_listed(after, peer) {
            let place = place_of(after, peer);
            if place < listings.len() {
                assert(listings[place].peer@ == peer);
            }
        }
        assert(after[listings.len() as int].peer@ == listing.peer@);
    }
    assert forall|peer: Seq<u8>| is_listed(after, peer) implies #[trigger] table_of(after)[peer]
        == expected[peer] by {
        let place = place_of(after, peer);
        lemma_table_at(after, place);
        if place < listings.len() {
            lemma_table_at(listings, place);
        }
    }
    assert(table_of(after) =~= expected);
}

/// What a table says after a peer has given its addresses.
pub open spec fn with_peer(
    table: Map<Seq<u8>, Set<SocketAddr>>,
    peer: Seq<u8>,
    addrs: Seq<SocketAddr>,
) -> Map<Seq<u8>, Set<SocketAddr>> {
    table.insert(peer, addrs.to_set())
}

/// What a table says after peers have given their addresses one after the other.
pub open spec fn with_peers(
    table: Map<Seq<u8>, Set<SocketAddr>>,
    given: Seq<(Seq<u8>, Seq<SocketAddr>)>,
) -> Map<Seq<u8>, Set<SocketAddr>>
    decreases given.len(),
{
    if given.len() == 0 {
        table
    } else {
        let (peer, addrs) = given.last();
        with_peer(with_peers(table, given.drop_last()), peer, addrs)
    }
}

/// A fixed table of the peers that can be found.
pub struct MockDiscovery {
    peers: AddressTable,
}

impl MockDiscovery {
    /// For each peer that can be found, its addresses.
    pub closed spec fn view(&self) -> Map<Seq<u8>, Set<SocketAddr>> {
        self.peers@
    }

    /// Whether each peer and each of its addresses is held once.
    pub closed spec fn wf(&self) -> bool {
        self.peers.wf()
    }

    /// The table without peers.
    pub fn new() -> (discovery: Self)
        ensures
            discovery.wf(),
            discovery@ == Map::<Seq<u8>, Set<SocketAddr>>::empty(),
    {
        MockDiscovery { peers: AddressTable::new() }
    }

    /// Makes a peer known under the sockets that it is bound to, in place of those
    /// that it was known under.
    pub fn add_peer(&mut self, peer: PeerId, sockets: Vec<SocketAddr>)
        requires
            old(self).wf(),
        ensures
            final(self).wf(),
            final(self)@ == with_peer(old(self)@, peer@, sockets@),
    {
        self.peers.insert(peer, sockets);
    }

    /// The addresses of a known peer, each once.
    pub fn resolve(&self, peer: &PeerId) -> (addrs: Vec<SocketAddr>)
        requires
            self.wf(),
            self@.contains_key(peer@),
        ensures
            addrs@.no_duplicates(),
            addrs@.to_set() == self@[peer@],
    {
        self.peers.get(peer).unwrap()
    }
}

/// A table in which peers publish their addresses and find each other's.
pub struct MockAddressLookupMap {
    peers: AddressTable,
}

impl MockAddressLookupMap {
    /// For each peer that has published, its addresses.
    pub closed spec fn view(&self) -> Map<Seq<u8>, Set<SocketAddr>> {
        self.peers@
    }

    /// Whether each peer and each of its addresses is held once.
    pub closed spec fn wf(&self) -> bool {
        self.peers.wf()
    }

    /// The table in which nobody has published.
    pub fn new() -> (map: Self)
        ensures
            map.wf(),
            map@ == Map::<Seq<u8>, Set<SocketAddr>>::empty(),
    {
        MockAddressLookupMap { peers: AddressTable::new() }
    }
}

/// The part of one peer in the lookup of addresses.
pub struct MockAddressLookup {
    pub id: PeerId,
}

impl MockAddressLookup {
    /// The part of the peer with the id.
    pub fn new(id: PeerId) -> (lookup: Self)
        ensures
            lookup.id == id,
    {
        MockAddressLookup { id }
    }

    /// Publishes the addresses of this peer, in place of those published before.
    pub fn publish(&self, map: &mut MockAddressLookupMap, addrs: Vec<SocketAddr>)
        requires
            old(map).wf(),
        ensures
            final(map).wf(),
            final(map)@ == with_peer(old(map)@, self.id@, addrs@),
    {
        map.peers.insert(PeerId { bytes: self.id.bytes }, addrs);
    }

    /// The addresses that a peer has published, each once; none where it has not
    /// published.
    pub fn resolve(&self, map: &MockAddressLookupMap, peer: &PeerId) -> (addrs: Option<
        Vec<SocketAddr>,
    >)
        requires
            map.wf(),
        ensures
            addrs is Some <==> map@.contains_key(peer@),
            addrs matches Some(found) ==> found@.no_duplicates() && found@.to_set() == map@[peer@],
    {
        map.peers.get(peer)
    }
}

/// A peer is found under the addresses that it gave last, whatever other peers
/// give before and after.
pub proof fn law_last_addresses_found(
    table: Map<Seq<u8>, Set<SocketAddr>>,
    peer: Seq<u8>,
    addrs: Seq<SocketAddr>,
    later: Seq<(Seq<u8>, Seq<SocketAddr>)>,
)
    requires
        forall|i: int| 0 <= i < later.len() ==> (#[trigger] later[i]).0 != peer,
    ensures
        with_peers(with_peer(table, peer, addrs), later).contains_pair(peer, addrs.to_set()),
    decreases later.len(),
{
    if later.len() > 0 {
        let init = later.drop_last();
        assert forall|i: int| 0 <= i < init.len() implies (#[trigger] init[i]).0 != peer by {
            assert(init[i] == later[i]);
        }
        law_last_addresses_found(table, peer, addrs, init);
        assert(later[later.len() - 1].0 != peer);
    }
}

/// A peer that has given no addresses is not found.
pub proof fn law_silent_peer_not_found(
    given: Seq<(Seq<u8>, Seq<SocketAddr>)>,
    peer: Seq<u8>,
)
    requires
        forall|i: int| 0 <= i < given.len() ==> (#[trigger] given[i]).0 != peer,
    ensures
        !with_peers(Map::empty(), given).contains_key(peer),
    decreases given.len(),
{
    if given.len() > 0 {
        let init = given.drop_last();
        assert forall|i: int| 0 <= i < init.len() implies (#[trigger] init[i]).0 != peer by {
            assert(init[i] == given[i]);
        }
        law_silent_peer_not_found(init, peer);
        assert(given[given.len() - 1].0 != peer);
    }
}

/// A peer that gives its addresses is found under exactly those, in place of any
/// that it gave before, and no other peer is touched.
pub proof fn law_given_addresses_are_found(
    table: Map<Seq<u8>, Set<SocketAddr>>,
    peer: Seq<u8>,
    addrs: Seq<SocketAddr>,
    addr: SocketAddr,
    other: Seq<u8>,
)
    requires
        other != peer,
    ensures
        ({
            let after = with_peer(table, peer, addrs);
            &&& after.contains_key(peer)
            &&& after[peer].contains(addr) <==> addrs.contains(addr)
            &&& after.contains_key(other) <==> table.contains_key(other)
            &&& table.contains_key(other) ==> after[other] == table[other]
        }),
{
}

} // verus!
