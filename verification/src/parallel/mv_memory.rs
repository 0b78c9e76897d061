//! The multi-version memory: for every location the values that the transactions of the block have
//! written there, and for every transaction what it last read and wrote.

use crate::parallel::collections::{
    code_contents, get_code, get_location, has_location, location_contents, new_codes,
    new_locations, put_code, put_location, take_location, CodeMap, LocationMap, ReadOrigins,
    ReadSet,
};
use crate::parallel::history::{descending, WriteHistory};
use crate::parallel::memory::{
    MemoryEntry, MemoryLocationHash, MemoryValue, ReadOrigin, TxIdx, TxVersion, WriteSet,
};
use crate::parallel::storage::EvmCode;
use crate::primitives::{Address, B256};
use std::sync::Arc;
use vstd::prelude::*;

verus! {

/// What a transaction last read and where it last wrote.
pub struct LastLocations {
    read: ReadSet,
    write: Vec<MemoryLocationHash>,
}

/// Shared memory in the form of a multi-version data structure: it stores several writes for each
/// location, each with its value and the version of the transaction that made it.
pub struct MvMemory {
    data: LocationMap,
    last_locations: Vec<LastLocations>,
    lazy_addresses: Vec<Address>,
    new_bytecodes: CodeMap,
}

/// The entries of all locations.
pub type MemoryData = Map<MemoryLocationHash, Map<TxIdx, MemoryEntry>>;

/// The abstract state of an `MvMemory`.
#[verifier::ext_equal]
pub struct MvMemoryView {
    /// The entry that each transaction has left at each location.
    pub data: MemoryData,
    /// The origins of what each transaction last read.
    pub reads: Seq<Map<MemoryLocationHash, Seq<ReadOrigin>>>,
    /// The locations that each transaction last wrote.
    pub writes: Seq<Set<MemoryLocationHash>>,
    /// The addresses whose balances are settled at the end of the block.
    pub lazy: Set<Address>,
    /// The code deployed in this block.
    pub codes: Map<B256, Arc<EvmCode>>,
}

/// The locations that a write set writes to.
pub open spec fn locations(ws: Seq<(MemoryLocationHash, MemoryValue)>) -> Set<MemoryLocationHash> {
    Set::new(|l: MemoryLocationHash| exists|i: int| 0 <= i < ws.len() && #[trigger] ws[i].0 == l)
}

/// The entries of a location; none where nobody has written.
pub open spec fn entries_at(data: MemoryData, location: MemoryLocationHash) -> Map<
    TxIdx,
    MemoryEntry,
> {
    if data.contains_key(location) {
        data[location]
    } else {
        Map::empty()
    }
}

/// The memory without the entries of a transaction at the given locations.
pub open spec fn cleared(
    data: MemoryData,
    tx_idx: TxIdx,
    gone: Set<MemoryLocationHash>,
) -> MemoryData {
    Map::new(
        |l: MemoryLocationHash| data.contains_key(l),
        |l: MemoryLocationHash|
            if gone.contains(l) {
                data[l].remove(tx_idx)
            } else {
                data[l]
            },
    )
}

/// The memory after the writes of one version, in order.
pub open spec fn written(
    data: MemoryData,
    version: TxVersion,
    ws: Seq<(MemoryLocationHash, MemoryValue)>,
) -> MemoryData
    decreases ws.len(),
{
    if ws.len() == 0 {
        data
    } else {
        let before = written(data, version, ws.drop_last());
        let (l, value) = ws.last();
        before.insert(
            l,
            entries_at(before, l).insert(
                version.tx_idx,
                MemoryEntry::Data(version.tx_incarnation, value),
            ),
        )
    }
}

/// The last value that a write set gives a location.
pub open spec fn last_value(
    ws: Seq<(MemoryLocationHash, MemoryValue)>,
    location: MemoryLocationHash,
) -> MemoryValue
    recommends
        locations(ws).contains(location),
    decreases ws.len(),
{
    if ws.len() == 0 {
        arbitrary()
    } else if ws.last().0 == location {
        ws.last().1
    } else {
        last_value(ws.drop_last(), location)
    }
}

/// A write set changes exactly the locations that it writes to, and there exactly the entry of its
/// transaction, which gets the last value that the set gives the location.
pub proof fn lemma_written_at(
    data: MemoryData,
    version: TxVersion,
    ws: Seq<(MemoryLocationHash, MemoryValue)>,
    location: MemoryLocationHash,
)
    ensures
        written(data, version, ws).contains_key(location) <==> data.contains_key(location)
            || locations(ws).contains(location),
        locations(ws).contains(location) ==> written(data, version, ws)[location] == entries_at(
            data,
            location,
        ).insert(
            version.tx_idx,
            MemoryEntry::Data(version.tx_incarnation, last_value(ws, location)),
        ),
        !locations(ws).contains(location) && data.contains_key(location) ==> written(
            data,
            version,
            ws,
        )[location] == data[location],
    decreases ws.len(),
{
    if ws.len() > 0 {
        let rest = ws.drop_last();
        lemma_written_at(data, version, rest, location);
        if locations(rest).contains(location) {
            let i = choose|i: int| 0 <= i < rest.len() && #[trigger] rest[i].0 == location;
            assert(ws[i].0 == location);
        }
        if ws.last().0 == location {
            assert(ws[ws.len() - 1].0 == location);
            assert(written(data, version, ws)[location] =~= entries_at(data, location).insert(
                version.tx_idx,
                MemoryEntry::Data(version.tx_incarnation, last_value(ws, location)),
            ));
        } else if locations(ws).contains(location) {
            let i = choose|i: int| 0 <= i < ws.len() && #[trigger] ws[i].0 == location;
            assert(rest[i].0 == location);
        }
    }
}

/// The memory with estimates in place of the entries of a transaction at the given locations.
pub open spec fn estimated(
    data: MemoryData,
    tx_idx: TxIdx,
    marked: Set<MemoryLocationHash>,
) -> MemoryData {
    Map::new(
        |l: MemoryLocationHash| data.contains_key(l),
        |l: MemoryLocationHash|
            if marked.contains(l) {
                data[l].insert(tx_idx, MemoryEntry::Estimate)
            } else {
                data[l]
            },
    )
}

/// Estimates for the given transactions.
pub open spec fn marks(tx_idxs: Seq<TxIdx>) -> Map<TxIdx, MemoryEntry> {
    Map::new(|t: TxIdx| tx_idxs.contains(t), |t: TxIdx| MemoryEntry::Estimate)
}

/// The memory of a new block: estimates alone. Of two lists for one location the later holds.
pub open spec fn initial(estimates: Seq<(MemoryLocationHash, Vec<TxIdx>)>) -> MemoryData
    decreases estimates.len(),
{
    if estimates.len() == 0 {
        Map::empty()
    } else {
        initial(estimates.drop_last()).insert(estimates.last().0, marks(estimates.last().1@))
    }
}

proof fn lemma_initial_is_estimates(estimates: Seq<(MemoryLocationHash, Vec<TxIdx>)>)
    ensures
        forall|l: MemoryLocationHash, t: TxIdx|
            #![trigger initial(estimates)[l][t]]
            initial(estimates).contains_key(l) && initial(estimates)[l].contains_key(t) ==> initial(
                estimates,
            )[l][t] is Estimate,
    decreases estimates.len(),
{
    if estimates.len() > 0 {
        lemma_initial_is_estimates(estimates.drop_last());
    }
}

/// Whether an origin is what a read finds at the `j`-th closest entry of a list: that version, or
/// storage where the list has ended.
pub open spec fn origin_holds(
    entries: Seq<(TxIdx, MemoryEntry)>,
    j: int,
    origin: ReadOrigin,
) -> bool {
    match origin {
        ReadOrigin::MvMemory(version) => j < entries.len() && entries[j].0 == version.tx_idx && (
        entries[j].1 matches MemoryEntry::Data(incarnation, _) && incarnation
            == version.tx_incarnation),
        ReadOrigin::Storage => j >= entries.len(),
    }
}

/// Whether the origins of a location are still those that a read by the transaction would find. A
/// location that nobody has written is read from storage once.
pub open spec fn location_valid(
    data: MemoryData,
    tx_idx: TxIdx,
    location: MemoryLocationHash,
    origins: Seq<ReadOrigin>,
) -> bool {
    if data.contains_key(location) {
        forall|j: int|
            0 <= j < origins.len() ==> origin_holds(
                descending(data[location], tx_idx as nat),
                j,
                #[trigger] origins[j],
            )
    } else {
        origins == seq![ReadOrigin::Storage]
    }
}

/// Whether all reads of a transaction are still valid.
pub open spec fn reads_valid(
    data: MemoryData,
    tx_idx: TxIdx,
    reads: Map<MemoryLocationHash, Seq<ReadOrigin>>,
) -> bool {
    forall|l: MemoryLocationHash| #[trigger]
        reads.contains_key(l) ==> location_valid(data, tx_idx, l, reads[l])
}

impl MvMemoryView {
    /// What a transaction last wrote is in the memory, and a value in the memory is where its
    /// transaction, one of the block, last wrote.
    pub open spec fn wf(self) -> bool {
        &&& self.reads.len() == self.writes.len()
        &&& forall|t: TxIdx, l: MemoryLocationHash|
            t < self.writes.len() && #[trigger] self.writes[t as int].contains(l)
                ==> self.data.contains_key(l) && self.data[l].contains_key(t)
        &&& forall|l: MemoryLocationHash, t: TxIdx|
            #![trigger self.data[l][t]]
            self.data.contains_key(l) && self.data[l].contains_key(t) && self.data[l][t] is Data
                ==> t < self.writes.len() && self.writes[t as int].contains(l)
    }

    /// The state after a version has left its reads and writes.
    pub open spec fn recorded(
        self,
        version: TxVersion,
        reads: Map<MemoryLocationHash, Seq<ReadOrigin>>,
        ws: Seq<(MemoryLocationHash, MemoryValue)>,
    ) -> MvMemoryView {
        let t = version.tx_idx as int;
        let gone = self.writes[t].difference(locations(ws));
        MvMemoryView {
            data: written(cleared(self.data, version.tx_idx, gone), version, ws),
            reads: self.reads.update(t, reads),
            writes: self.writes.update(t, locations(ws)),
            ..self
        }
    }

    /// Whether the reads of a transaction are still valid.
    pub open spec fn valid(self, tx_idx: TxIdx) -> bool {
        reads_valid(self.data, tx_idx, self.reads[tx_idx as int])
    }

    /// The state after the writes of a transaction have become estimates.
    pub open spec fn aborted(self, tx_idx: TxIdx) -> MvMemoryView {
        MvMemoryView {
            data: estimated(self.data, tx_idx, self.writes[tx_idx as int]),
            ..self
        }
    }
}

/// Recording keeps the invariant of the memory.
pub proof fn lemma_recorded_wf(
    memory: MvMemoryView,
    version: TxVersion,
    reads: Map<MemoryLocationHash, Seq<ReadOrigin>>,
    ws: Seq<(MemoryLocationHash, MemoryValue)>,
)
    requires
        memory.wf(),
        version.tx_idx < memory.writes.len(),
    ensures
        memory.recorded(version, reads, ws).wf(),
{
    let t0 = version.tx_idx as int;
    let gone = memory.writes[t0].difference(locations(ws));
    let base = cleared(memory.data, version.tx_idx, gone);
    let after = memory.recorded(version, reads, ws);
    assert forall|t: TxIdx, l: MemoryLocationHash|
        t < after.writes.len() && #[trigger] after.writes[t as int].contains(
            l,
        ) implies after.data.contains_key(l) && after.data[l].contains_key(t) by {
        lemma_written_at(base, version, ws, l);
        if t != version.tx_idx {
            assert(memory.writes[t as int].contains(l));
            assert(memory.data[l].contains_key(t));
        }
    }
    assert forall|l: MemoryLocationHash, t: TxIdx|
        #![trigger after.data[l][t]]
        after.data.contains_key(l) && after.data[l].contains_key(t)
            && after.data[l][t] is Data implies t < after.writes.len()
        && after.writes[t as int].contains(l) by {
        lemma_written_at(base, version, ws, l);
        if t != version.tx_idx {
            assert(after.data[l][t] == memory.data[l][t]);
            assert(memory.data[l].contains_key(t));
        } else if !locations(ws).contains(l) {
            assert(memory.data[l].contains_key(t));
            assert(after.data[l][t] == memory.data[l][t]);
        }
    }
}

/// Turning writes into estimates keeps the invariant of the memory.
pub proof fn lemma_aborted_wf(memory: MvMemoryView, tx_idx: TxIdx)
    requires
        memory.wf(),
        tx_idx < memory.writes.len(),
    ensures
        memory.aborted(tx_idx).wf(),
{
    let after = memory.aborted(tx_idx);
    assert forall|t: TxIdx, l: MemoryLocationHash|
        t < after.writes.len() && #[trigger] after.writes[t as int].contains(
            l,
        ) implies after.data.contains_key(l) && after.data[l].contains_key(t) by {
        assert(memory.writes[t as int].contains(l));
    }
    assert forall|l: MemoryLocationHash, t: TxIdx|
        #![trigger after.data[l][t]]
        after.data.contains_key(l) && after.data[l].contains_key(t)
            && after.data[l][t] is Data implies t < after.writes.len()
        && after.writes[t as int].contains(l) by {
        assert(memory.data[l][t] == after.data[l][t]);
    }
}

impl LastLocations {
    pub closed spec fn reads(self) -> Map<MemoryLocationHash, Seq<ReadOrigin>> {
        self.read@
    }

    pub closed spec fn written_to(self) -> Seq<MemoryLocationHash> {
        self.write@
    }
}

impl View for MvMemory {
    type V = MvMemoryView;

    closed spec fn view(&self) -> MvMemoryView {
        MvMemoryView {
            data: location_contents(self.data),
            reads: Seq::new(
                self.last_locations@.len(),
                |t: int| self.last_locations@[t].reads(),
            ),
            writes: Seq::new(
                self.last_locations@.len(),
                |t: int| self.last_locations@[t].written_to().to_set(),
            ),
            lazy: self.lazy_addresses@.to_set(),
            codes: code_contents(self.new_bytecodes),
        }
    }
}

/// Whether the write set writes to the location.
fn writes_to(ws: &WriteSet, location: MemoryLocationHash) -> (r: bool)
    ensures
        r == locations(ws@).contains(location),
{
    let mut i: usize = 0;
    while i < ws.len()
        invariant
            i <= ws@.len(),
            forall|j: int| 0 <= j < i ==> #[trigger] ws@[j].0 != location,
        decreases ws@.len() - i,
    {
        if ws[i].0 == location {
            assert(ws@[i as int].0 == location);
            return true;
        }
        i = i + 1;
    }
    false
}

/// Whether the list holds the location.
fn lists(list: &Vec<MemoryLocationHash>, location: MemoryLocationHash) -> (r: bool)
    ensures
        r == list@.contains(location),
{
    let mut i: usize = 0;
    while i < list.len()
        invariant
            i <= list@.len(),
            forall|j: int| 0 <= j < i ==> list@[j] != location,
        decreases list@.len() - i,
    {
        if list[i] == location {
            return true;
        }
        i = i + 1;
    }
    false
}

/// Whether the list holds the address.
fn lists_address(list: &Vec<Address>, address: Address) -> (r: bool)
    ensures
        r == list@.contains(address),
{
    let mut i: usize = 0;
    while i < list.len()
        invariant
            i <= list@.len(),
            forall|j: int| 0 <= j < i ==> list@[j] != address,
        decreases list@.len() - i,
    {
        if list[i] == address {
            return true;
        }
        i = i + 1;
    }
    false
}

impl MvMemory {
    /// Whether no list repeats anything.
    pub closed spec fn lists_once(self) -> bool {
        &&& forall|t: int|
            0 <= t < self.last_locations@.len()
                ==> (#[trigger] self.last_locations@[t]).written_to().no_duplicates()
        &&& self.lazy_addresses@.no_duplicates()
    }

    /// The lists without repetition, and the invariant of the abstract state.
    pub open spec fn wf(self) -> bool {
        &&& self.lists_once()
        &&& self@.wf()
    }

    /// The memory of a block with `block_size` transactions, in which the given transactions are
    /// expected to write to the given locations.
    pub fn new(
        block_size: usize,
        estimated_locations: Vec<(MemoryLocationHash, Vec<TxIdx>)>,
        lazy_addresses: Vec<Address>,
    ) -> (r: Self)
        ensures
            r.wf(),
            r@ == (MvMemoryView {
                data: initial(estimated_locations@),
                reads: Seq::new(block_size as nat, |t: int| Map::empty()),
                writes: Seq::new(block_size as nat, |t: int| Set::empty()),
                lazy: lazy_addresses@.to_set(),
                codes: Map::empty(),
            }),
    {
        let mut data = new_locations();
        assert(location_contents(data) =~= initial(estimated_locations@.take(0)));
        let mut i: usize = 0;
        while i < estimated_locations.len()
            invariant
                i <= estimated_locations@.len(),
                location_contents(data) == initial(estimated_locations@.take(i as int)),
            decreases estimated_locations@.len() - i,
        {
            let tx_idxs = &estimated_locations[i].1;
            let mut history = WriteHistory::new();
            assert(marks(tx_idxs@.take(0)) =~= Map::empty());
            let mut j: usize = 0;
            while j < tx_idxs.len()
                invariant
                    j <= tx_idxs@.len(),
                    history@ == marks(tx_idxs@.take(j as int)),
                decreases tx_idxs@.len() - j,
            {
                history.insert(tx_idxs[j], MemoryEntry::Estimate);
                proof {
                    let taken = tx_idxs@.take(j as int);
                    let next = tx_idxs@.take(j + 1);
                    assert(next =~= taken.push(tx_idxs@[j as int]));
                    assert forall|t: TxIdx|
                        next.contains(t) <==> taken.contains(t) || t == tx_idxs@[j as int] by {
                        if taken.contains(t) {
                            let k = choose|k: int| 0 <= k < taken.len() && taken[k] == t;
                            assert(next[k] == t);
                        }
                        if t == tx_idxs@[j as int] {
                            assert(next[j as int] == t);
                        }
                    }
                    assert(history@ =~= marks(next));
                }
                j = j + 1;
            }
            assert(tx_idxs@.take(j as int) =~= tx_idxs@);
            put_location(&mut data, estimated_locations[i].0, history);
            assert(estimated_locations@.take(i + 1).drop_last() =~= estimated_locations@.take(
                i as int,
            ));
            i = i + 1;
        }
        assert(estimated_locations@.take(i as int) =~= estimated_locations@);
        let mut last_locations: Vec<LastLocations> = Vec::new();
        let mut i: usize = 0;
        while i < block_size
            invariant
                i <= block_size,
                last_locations@.len() == i,
                forall|t: int|
                    0 <= t < i ==> (#[trigger] last_locations@[t]).written_to().len() == 0
                        && last_locations@[t].reads() == Map::<
                        MemoryLocationHash,
                        Seq<ReadOrigin>,
                    >::empty(),
            decreases block_size - i,
        {
            let last = LastLocations { read: ReadSet::with_capacity(0), write: Vec::new() };
            assert(last.reads() =~= Map::empty());
            last_locations.push(last);
            i = i + 1;
        }
        let mut memory = MvMemory {
            data,
            last_locations,
            lazy_addresses: Vec::new(),
            new_bytecodes: new_codes(),
        };
        proof {
            lemma_initial_is_estimates(estimated_locations@);
            assert forall|t: int| 0 <= t < block_size implies (
            #[trigger] memory.last_locations@[t]).written_to().to_set() =~= Set::empty() by {}
            assert(memory@.reads =~= Seq::new(block_size as nat, |t: int| Map::empty()));
            assert(memory@.writes =~= Seq::new(block_size as nat, |t: int| Set::empty()));
            assert(memory@.lazy =~= Set::empty());
            assert(memory@.codes =~= Map::empty());
        }
        memory.add_lazy_addresses(lazy_addresses);
        assert(memory@.lazy =~= lazy_addresses@.to_set());
        memory
    }

    /// Adds addresses to those that are settled at the end of the block.
    pub fn add_lazy_addresses(&mut self, new_lazy_addresses: Vec<Address>)
        requires
            old(self).wf(),
        ensures
            final(self).wf(),
            final(self)@ == (MvMemoryView {
                lazy: old(self)@.lazy.union(new_lazy_addresses@.to_set()),
                ..old(self)@
            }),
    {
        let ghost before = self@;
        let ghost slots = self.last_locations@;
        let mut i: usize = 0;
        while i < new_lazy_addresses.len()
            invariant
                i <= new_lazy_addresses@.len(),
                self.lazy_addresses@.no_duplicates(),
                self.last_locations@ == slots,
                location_contents(self.data) == before.data,
                code_contents(self.new_bytecodes) == before.codes,
                forall|a: Address| #[trigger]
                    self.lazy_addresses@.contains(a) <==> before.lazy.contains(a)
                        || new_lazy_addresses@.take(i as int).contains(a),
            decreases new_lazy_addresses@.len() - i,
        {
            let address = new_lazy_addresses[i];
            let ghost list = self.lazy_addresses@;
            if !lists_address(&self.lazy_addresses, address) {
                self.lazy_addresses.push(address);
                assert forall|a: Address| #[trigger]
                    self.lazy_addresses@.contains(a) <==> list.contains(a) || a == address by {
                    if list.contains(a) {
                        let k = choose|k: int| 0 <= k < list.len() && list[k] == a;
                        assert(self.lazy_addresses@[k] == a);
                    }
                    if a == address {
                        assert(self.lazy_addresses@[list.len() as int] == a);
                    }
                }
            }
            proof {
                let taken = new_lazy_addresses@.take(i as int);
                let next = new_lazy_addresses@.take(i + 1);
                assert forall|a: Address| next.contains(a) <==> taken.contains(a) || a == address by {
                    if taken.contains(a) {
                        let k = choose|k: int| 0 <= k < taken.len() && taken[k] == a;
                        assert(next[k] == a);
                    }
                    if a == address {
                        assert(next[i as int] == a);
                    }
                    if next.contains(a) && a != address {
                        let k = choose|k: int| 0 <= k < next.len() && next[k] == a;
                        assert(taken[k] == a);
                    }
                }
            }
            i = i + 1;
        }
        proof {
            assert(new_lazy_addresses@.take(i as int) =~= new_lazy_addresses@);
            assert(self@.lazy =~= before.lazy.union(new_lazy_addresses@.to_set()));
            assert(self@ =~= (MvMemoryView { lazy: self@.lazy, ..before }));
        }
    }

    /// The addresses that are settled at the end of the block, once each.
    pub fn lazy_addresses(&self) -> (r: &Vec<Address>)
        requires
            self.wf(),
        ensures
            r@.no_duplicates(),
            r@.to_set() == self@.lazy,
    {
        &self.lazy_addresses
    }

    /// Hands out the addresses that are settled at the end of the block, once each, and forgets
    /// them. In which order they come is not stated.
    pub fn consume_lazy_addresses(&mut self) -> (r: Vec<Address>)
        requires
            old(self).wf(),
        ensures
            final(self).wf(),
            final(self)@ == (MvMemoryView { lazy: Set::empty(), ..old(self)@ }),
            r@.no_duplicates(),
            r@.to_set() == old(self)@.lazy,
    {
        let ghost before = self@;
        let mut taken = Vec::new();
        std::mem::swap(&mut taken, &mut self.lazy_addresses);
        proof {
            assert(self@.lazy =~= Set::empty());
            assert(self@ =~= (MvMemoryView { lazy: Set::empty(), ..before }));
        }
        taken
    }

    /// Whether everything that the transaction last read is still what a read would find.
    pub fn validate_read_locations(&self, tx_idx: TxIdx) -> (r: bool)
        requires
            self.wf(),
            tx_idx < self@.reads.len(),
        ensures
            r == self@.valid(tx_idx),
    {
        let ghost reads = self@.reads[tx_idx as int];
        let entries = self.last_locations[tx_idx].read.entries();
        let mut i: usize = 0;
        while i < entries.len()
            invariant
                i <= entries@.len(),
                tx_idx < self@.reads.len(),
                reads == self@.reads[tx_idx as int],
                forall|j: int|
                    0 <= j < entries@.len() ==> reads.contains_key(#[trigger] entries@[j].0)
                        && reads[entries@[j].0] == entries@[j].1@,
                forall|j: int|
                    0 <= j < i ==> location_valid(
                        self@.data,
                        tx_idx,
                        #[trigger] entries@[j].0,
                        entries@[j].1@,
                    ),
            decreases entries@.len() - i,
        {
            let (location, origins) = entries[i];
            assert(entries@[i as int].0 == location);
            if !self.validate_location(tx_idx, location, origins) {
                assert(reads.contains_key(location));
                return false;
            }
            i = i + 1;
        }
        assert forall|l: MemoryLocationHash| #[trigger]
            reads.contains_key(l) implies location_valid(self@.data, tx_idx, l, reads[l]) by {
            let j = choose|j: int| 0 <= j < entries@.len() && #[trigger] entries@[j].0 == l;
            assert(location_valid(self@.data, tx_idx, entries@[j].0, entries@[j].1@));
        }
        true
    }

    fn validate_location(
        &self,
        tx_idx: TxIdx,
        location: MemoryLocationHash,
        origins: &ReadOrigins,
    ) -> (r: bool)
        ensures
            r == location_valid(self@.data, tx_idx, location, origins@),
    {
        let history = match get_location(&self.data, location) {
            Some(history) => history,
            None => {
                let valid = origins.len() == 1 && origins.get(0) == ReadOrigin::Storage;
                assert(valid ==> origins@ =~= seq![ReadOrigin::Storage]);
                return valid;
            },
        };
        let entries = history.below(tx_idx);
        let mut j: usize = 0;
        while j < origins.len()
            invariant
                j <= origins@.len(),
                entries@ == descending(self@.data[location], tx_idx as nat),
                self@.data.contains_key(location),
                forall|k: int|
                    0 <= k < j ==> origin_holds(entries@, k, #[trigger] origins@[k]),
            decreases origins@.len() - j,
        {
            let origin = origins.get(j);
            let holds = match origin {
                ReadOrigin::MvMemory(prior_version) => j < entries.len() && match entries[j].1 {
                    MemoryEntry::Data(tx_incarnation, _) => entries[j].0 == prior_version.tx_idx
                        && tx_incarnation == prior_version.tx_incarnation,
                    MemoryEntry::Estimate => false,
                },
                ReadOrigin::Storage => j >= entries.len(),
            };
            if !holds {
                assert(!origin_holds(entries@, j as int, origins@[j as int]));
                return false;
            }
            j = j + 1;
        }
        true
    }

    /// Turns what the transaction last wrote into estimates: its next incarnation is expected to
    /// write there again.
    pub fn convert_writes_to_estimates(&mut self, tx_idx: TxIdx)
        requires
            old(self).wf(),
            tx_idx < old(self)@.writes.len(),
        ensures
            final(self).wf(),
            final(self)@ == old(self)@.aborted(tx_idx),
    {
        let ghost before = self@;
        let ghost slots = self.last_locations@;
        let ghost lazy = self.lazy_addresses@;
        let ghost list = self.last_locations@[tx_idx as int].written_to();
        let mut i: usize = 0;
        assert(list.take(0).to_set() =~= Set::empty());
        assert(estimated(before.data, tx_idx, list.take(0).to_set()) =~= before.data);
        while i < self.last_locations[tx_idx].write.len()
            invariant
                self.last_locations@ == slots,
                self.lazy_addresses@ == lazy,
                code_contents(self.new_bytecodes) == before.codes,
                tx_idx < slots.len(),
                list == slots[tx_idx as int].written_to(),
                i <= list.len(),
                location_contents(self.data) == estimated(
                    before.data,
                    tx_idx,
                    list.take(i as int).to_set(),
                ),
            decreases list.len() - i,
        {
            let location: MemoryLocationHash = self.last_locations[tx_idx].write[i];
            match take_location(&mut self.data, location) {
                Some(mut history) => {
                    history.insert(tx_idx, MemoryEntry::Estimate);
                    put_location(&mut self.data, location, history);
                },
                None => {},
            }
            proof {
                let marked = list.take(i as int).to_set();
                assert(list.take(i + 1) =~= list.take(i as int).push(location));
                assert(list.take(i + 1).to_set() =~= marked.insert(location)) by {
                    assert forall|l: MemoryLocationHash|
                        list.take(i + 1).contains(l) <==> list.take(i as int).contains(l) || l
                            == location by {
                        if list.take(i as int).contains(l) {
                            let k = choose|k: int| 0 <= k < i && list.take(i as int)[k] == l;
                            assert(list.take(i + 1)[k] == l);
                        }
                        if l == location {
                            assert(list.take(i + 1)[i as int] == l);
                        }
                    }
                }
                if before.data.contains_key(location) {
                    assert(location_contents(self.data)[location] =~= before.data[location].insert(
                        tx_idx,
                        MemoryEntry::Estimate,
                    ));
                }
                assert(location_contents(self.data) =~= estimated(
                    before.data,
                    tx_idx,
                    marked.insert(location),
                ));
            }
            i = i + 1;
        }
        proof {
            assert(list.take(i as int) =~= list);
            assert(self@ =~= before.aborted(tx_idx));
            lemma_aborted_wf(before, tx_idx);
        }
    }

    /// Whether anybody has written to the location, or is expected to.
    pub fn has_location(&self, location: MemoryLocationHash) -> (r: bool)
        ensures
            r == self@.data.contains_key(location),
    {
        has_location(&self.data, location)
    }

    /// A copy of the history of the location.
    pub fn history(&self, location: MemoryLocationHash) -> (r: Option<WriteHistory>)
        ensures
            match r {
                Some(h) => self@.data.contains_key(location) && h@ == self@.data[location],
                None => !self@.data.contains_key(location),
            },
    {
        get_location(&self.data, location)
    }

    /// The code that this block has deployed under the hash.
    pub fn deployed_code(&self, hash: B256) -> (r: Option<Arc<EvmCode>>)
        ensures
            match r {
                Some(c) => self@.codes.contains_key(hash) && c == self@.codes[hash],
                None => !self@.codes.contains_key(hash),
            },
    {
        get_code(&self.new_bytecodes, hash)
    }

    /// Keeps code that this block has deployed. Code that is there already stays.
    pub fn deploy_code(&mut self, hash: B256, code: Arc<EvmCode>)
        requires
            old(self).wf(),
        ensures
            final(self).wf(),
            final(self)@ == (MvMemoryView {
                codes: if old(self)@.codes.contains_key(hash) {
                    old(self)@.codes
                } else {
                    old(self)@.codes.insert(hash, code)
                },
                ..old(self)@
            }),
    {
        let ghost before = self@;
        if get_code(&self.new_bytecodes, hash).is_none() {
            put_code(&mut self.new_bytecodes, hash, code);
        }
        assert(self@ =~= (MvMemoryView { codes: self@.codes, ..before }));
    }

    /// Records what a version has read and written, and says whether it wrote to a location that
    /// its transaction had not written before. What the transaction had written elsewhere goes.
    pub fn record(&mut self, tx_version: &TxVersion, read_set: ReadSet, write_set: WriteSet) -> (r:
        bool)
        requires
            old(self).wf(),
            tx_version.tx_idx < old(self)@.writes.len(),
        ensures
            final(self).wf(),
            final(self)@ == old(self)@.recorded(*tx_version, read_set@, write_set@),
            r == !locations(write_set@).subset_of(old(self)@.writes[tx_version.tx_idx as int]),
    {
        let tx_idx: TxIdx = tx_version.tx_idx;
        let ghost before = self@;
        let ghost t = tx_idx as int;
        let mut last = LastLocations { read: read_set, write: Vec::new() };
        std::mem::swap(&mut last, &mut self.last_locations[tx_idx]);
        let LastLocations { read: _, mut write } = last;
        let ghost slots = self.last_locations@;
        let ghost lazy = self.lazy_addresses@;
        assert(write@.to_set() == before.writes[t]);
        let ghost mut gone = Set::<MemoryLocationHash>::empty();
        let mut i: usize = 0;
        assert(cleared(before.data, tx_idx, gone) =~= before.data);
        while i < write.len()
            invariant
                self.last_locations@ == slots,
                self.lazy_addresses@ == lazy,
                code_contents(self.new_bytecodes) == before.codes,
                t == tx_idx < before.writes.len(),
                i <= write@.len(),
                write@.no_duplicates(),
                location_contents(self.data) == cleared(before.data, tx_idx, gone),
                forall|l: MemoryLocationHash| #[trigger]
                    gone.contains(l) <==> before.writes[t].contains(l) && !write@.contains(l),
                forall|l: MemoryLocationHash| #[trigger]
                    write@.contains(l) ==> before.writes[t].contains(l),
                forall|l: MemoryLocationHash| #[trigger]
                    gone.contains(l) ==> !locations(write_set@).contains(l),
                forall|j: int| 0 <= j < i ==> locations(write_set@).contains(#[trigger] write@[j]),
            decreases write@.len() - i,
        {
            let location: MemoryLocationHash = write[i];
            assert(write@.contains(location));
            if !writes_to(&write_set, location) {
                let ghost data = location_contents(self.data);
                match take_location(&mut self.data, location) {
                    Some(mut history) => {
                        history.remove(tx_idx);
                        put_location(&mut self.data, location, history);
                    },
                    None => {},
                }
                let ghost list = write@;
                write.swap_remove(i);
                proof {
                    gone = gone.insert(location);
                    assert(location_contents(self.data) =~= cleared(before.data, tx_idx, gone));
                    assert forall|l: MemoryLocationHash| #[trigger]
                        write@.contains(l) <==> list.contains(l) && l != location by {
                        if list.contains(l) && l != location {
                            let j = choose|j: int| 0 <= j < list.len() && list[j] == l;
                            if j < write@.len() {
                                assert(write@[j] == l);
                            } else {
                                assert(write@[i as int] == l);
                            }
                        }
                    }
                }
            } else {
                i = i + 1;
            }
        }
        proof {
            assert forall|l: MemoryLocationHash| #[trigger]
                gone.contains(l) <==> before.writes[t].difference(locations(write_set@)).contains(
                    l,
                ) by {
                if write@.contains(l) {
                    let j = choose|j: int| 0 <= j < write@.len() && write@[j] == l;
                    assert(locations(write_set@).contains(write@[j]));
                }
            }
            assert(gone =~= before.writes[t].difference(locations(write_set@)));
            assert(write_set@.take(0) =~= Seq::empty());
            assert forall|l: MemoryLocationHash| #[trigger]
                write@.contains(l) <==> locations(write_set@).contains(l)
                    && before.writes[t].contains(l) by {
                assert(gone.contains(l) <==> before.writes[t].contains(l) && !write@.contains(l));
                if write@.contains(l) {
                    let j = choose|j: int| 0 <= j < write@.len() && write@[j] == l;
                    assert(locations(write_set@).contains(write@[j]));
                }
            }
        }
        let ghost base = location_contents(self.data);
        let mut wrote_new_location = false;
        let mut i: usize = 0;
        while i < write_set.len()
            invariant
                self.last_locations@ == slots,
                self.lazy_addresses@ == lazy,
                code_contents(self.new_bytecodes) == before.codes,
                t == tx_idx < before.writes.len(),
                i <= write_set@.len(),
                write@.no_duplicates(),
                location_contents(self.data) == written(
                    base,
                    *tx_version,
                    write_set@.take(i as int),
                ),
                tx_version.tx_idx == tx_idx,
                forall|l: MemoryLocationHash| #[trigger]
                    write@.contains(l) <==> (locations(write_set@).contains(l)
                        && before.writes[t].contains(l)) || locations(
                        write_set@.take(i as int),
                    ).contains(l),
                wrote_new_location == !locations(write_set@.take(i as int)).subset_of(
                    before.writes[t],
                ),
            decreases write_set@.len() - i,
        {
            let (location, value) = write_set[i];
            let ghost data = location_contents(self.data);
            let mut history = match take_location(&mut self.data, location) {
                Some(history) => history,
                None => WriteHistory::new(),
            };
            history.insert(tx_idx, MemoryEntry::Data(tx_version.tx_incarnation, value));
            put_location(&mut self.data, location, history);
            let ghost taken = write_set@.take(i as int);
            let ghost next = write_set@.take(i + 1);
            proof {
                assert(next.drop_last() =~= taken);
                assert(next.last() == (location, value));
                assert(location_contents(self.data) =~= written(base, *tx_version, next));
                assert forall|l: MemoryLocationHash| #[trigger]
                    locations(next).contains(l) <==> locations(taken).contains(l) || l
                        == location by {
                    if locations(taken).contains(l) {
                        let j = choose|j: int| 0 <= j < taken.len() && #[trigger] taken[j].0 == l;
                        assert(next[j].0 == l);
                    }
                    if l == location {
                        assert(next[i as int].0 == l);
                    }
                    if locations(next).contains(l) {
                        let j = choose|j: int| 0 <= j < next.len() && #[trigger] next[j].0 == l;
                        if j < i {
                            assert(taken[j].0 == l);
                        }
                    }
                }
                assert(locations(write_set@).contains(location)) by {
                    assert(write_set@[i as int].0 == location);
                }
                assert(locations(taken).contains(location) ==> locations(next) =~= locations(taken));
            }
            if !lists(&write, location) {
                let ghost list = write@;
                write.push(location);
                wrote_new_location = true;
                proof {
                    assert forall|l: MemoryLocationHash| #[trigger]
                        write@.contains(l) <==> list.contains(l) || l == location by {
                        if list.contains(l) {
                            let j = choose|j: int| 0 <= j < list.len() && list[j] == l;
                            assert(write@[j] == l);
                        }
                        if l == location {
                            assert(write@[list.len() as int] == l);
                        }
                    }
                    assert(locations(next).contains(location) && !before.writes[t].contains(
                        location,
                    ));
                }
            }
            i = i + 1;
        }
        self.last_locations[tx_idx].write = write;
        proof {
            assert(write_set@.take(i as int) =~= write_set@);
            assert(write@.to_set() =~= locations(write_set@));
            assert(self@ =~= before.recorded(*tx_version, self@.reads[t], write_set@));
            lemma_recorded_wf(before, *tx_version, self@.reads[t], write_set@);
        }
        wrote_new_location
    }
}

} // verus!
