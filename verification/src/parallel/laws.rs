//! What holds of the multi-version memory, the reads from it and the results as a whole.

use crate::evm::tx_env::TxEnv;
use crate::parallel::executor::merged;
use crate::parallel::history::{
    closest_before, descending, lemma_closest_before, lemma_descending_congruent,
    lemma_descending_members,
};
use crate::parallel::memory::{
    AccountBasic, MemoryEntry, MemoryLocationHash, MemoryValue, ReadOrigin, TxIdx, TxVersion,
};
use crate::parallel::mv_memory::{
    cleared, entries_at, initial, last_value, lemma_written_at, location_valid, locations,
    origin_holds,
    reads_valid, written, MemoryData, MvMemoryView,
};
use crate::parallel::pevm::{gas_sum, PevmError};
use crate::parallel::settlement::{after_entry, Transitions};
use crate::parallel::state::{EvmAccountView, PevmTxExecutionResult};
use crate::parallel::vm_db::{
    code_hash_lookup, settles_to, slot_lookup, version_of, versions, walk, ReadError, Walked,
};
use crate::primitives::{clamp, lemma_word, u256_max, Address, U256};
use vstd::prelude::*;

verus! {

/// A later transaction reads what a recorded version has written, unless a transaction in between
/// has left an entry at the location.
pub proof fn law_reads_see_recorded_writes(
    memory: MvMemoryView,
    version: TxVersion,
    reads: Map<MemoryLocationHash, Seq<ReadOrigin>>,
    ws: Seq<(MemoryLocationHash, MemoryValue)>,
    location: MemoryLocationHash,
    reader: TxIdx,
)
    requires
        locations(ws).contains(location),
        version.tx_idx < reader,
        forall|t: TxIdx|
            version.tx_idx < t < reader ==> !(#[trigger] entries_at(
                memory.data,
                location,
            ).contains_key(t)),
    ensures
        closest_before(
            entries_at(memory.recorded(version, reads, ws).data, location),
            reader,
        ) == Some(
            (
                version.tx_idx,
                MemoryEntry::Data(version.tx_incarnation, last_value(ws, location)),
            ),
        ),
{
    let gone = memory.writes[version.tx_idx as int].difference(locations(ws));
    let base = cleared(memory.data, version.tx_idx, gone);
    let after = written(base, version, ws);
    lemma_written_at(base, version, ws, location);
    lemma_closest_before(entries_at(after, location), reader);
    assert(entries_at(after, location).contains_key(version.tx_idx));
    assert forall|t: TxIdx| version.tx_idx < t < reader implies !entries_at(
        after,
        location,
    ).contains_key(t) by {
        assert(!entries_at(memory.data, location).contains_key(t));
    }
}

/// Recording a version leaves the reads of its own and of earlier transactions valid.
pub proof fn law_record_keeps_earlier_reads_valid(
    memory: MvMemoryView,
    version: TxVersion,
    reads: Map<MemoryLocationHash, Seq<ReadOrigin>>,
    ws: Seq<(MemoryLocationHash, MemoryValue)>,
    reader: TxIdx,
    remembered: Map<MemoryLocationHash, Seq<ReadOrigin>>,
)
    requires
        reader <= version.tx_idx,
        reads_valid(memory.data, reader, remembered),
    ensures
        reads_valid(memory.recorded(version, reads, ws).data, reader, remembered),
{
    let gone = memory.writes[version.tx_idx as int].difference(locations(ws));
    let base = cleared(memory.data, version.tx_idx, gone);
    let after = written(base, version, ws);
    assert forall|l: MemoryLocationHash| #[trigger]
        remembered.contains_key(l) implies location_valid(after, reader, l, remembered[l]) by {
        lemma_written_at(base, version, ws, l);
        assert(location_valid(memory.data, reader, l, remembered[l]));
        lemma_descending_congruent(
            entries_at(memory.data, l),
            entries_at(after, l),
            reader as nat,
        );
        if after.contains_key(l) && !memory.data.contains_key(l) {
            lemma_descending_members(entries_at(memory.data, l), reader as nat);
            let d = descending(after[l], reader as nat);
            assert(d.len() == 0) by {
                if d.len() > 0 {
                    assert(entries_at(memory.data, l).contains_key(d[0].0));
                }
            }
        }
    }
}

/// Once a transaction is aborted, nobody who read one of its writes is valid any more.
pub proof fn law_abort_invalidates_readers(
    memory: MvMemoryView,
    aborted: TxIdx,
    reader: TxIdx,
    remembered: Map<MemoryLocationHash, Seq<ReadOrigin>>,
    location: MemoryLocationHash,
    j: int,
)
    requires
        memory.wf(),
        aborted < memory.writes.len(),
        memory.writes[aborted as int].contains(location),
        remembered.contains_key(location),
        0 <= j < remembered[location].len(),
        remembered[location][j] matches ReadOrigin::MvMemory(version) && version.tx_idx == aborted,
    ensures
        !reads_valid(memory.aborted(aborted).data, reader, remembered),
{
    let after = memory.aborted(aborted).data;
    assert(memory.data.contains_key(location));
    let d = descending(after[location], reader as nat);
    lemma_descending_members(after[location], reader as nat);
    assert(!origin_holds(d, j, remembered[location][j])) by {
        if j < d.len() && d[j].0 == aborted {
            assert(after[location][d[j].0] == d[j].1);
            assert(after[location][aborted] is Estimate);
        }
    }
    assert(!location_valid(after, reader, location, remembered[location]));
}

/// Recording the same version again changes nothing.
pub proof fn law_record_is_idempotent(
    memory: MvMemoryView,
    version: TxVersion,
    reads: Map<MemoryLocationHash, Seq<ReadOrigin>>,
    ws: Seq<(MemoryLocationHash, MemoryValue)>,
)
    requires
        version.tx_idx < memory.writes.len(),
        memory.reads.len() == memory.writes.len(),
    ensures
        memory.recorded(version, reads, ws).recorded(version, reads, ws) == memory.recorded(
            version,
            reads,
            ws,
        ),
{
    let once = memory.recorded(version, reads, ws);
    let twice = once.recorded(version, reads, ws);
    let t = version.tx_idx as int;
    assert(once.writes[t].difference(locations(ws)) =~= Set::empty());
    let base = cleared(once.data, version.tx_idx, Set::empty());
    assert(base =~= once.data);
    let gone = memory.writes[t].difference(locations(ws));
    let first = cleared(memory.data, version.tx_idx, gone);
    assert forall|l: MemoryLocationHash| twice.data.contains_key(l) <==> once.data.contains_key(
        l,
    ) by {
        lemma_written_at(base, version, ws, l);
        lemma_written_at(first, version, ws, l);
    }
    assert forall|l: MemoryLocationHash| twice.data.contains_key(l) implies twice.data[l]
        == once.data[l] by {
        lemma_written_at(base, version, ws, l);
        lemma_written_at(first, version, ws, l);
        assert(twice.data[l] =~= once.data[l]);
    }
    assert(twice.data =~= once.data);
    assert(twice.reads =~= once.reads);
    assert(twice.writes =~= once.writes);
}

/// After a record the values of a transaction in the memory are exactly its write set.
pub proof fn law_recorded_values_are_the_write_set(
    memory: MvMemoryView,
    version: TxVersion,
    reads: Map<MemoryLocationHash, Seq<ReadOrigin>>,
    ws: Seq<(MemoryLocationHash, MemoryValue)>,
    location: MemoryLocationHash,
)
    requires
        memory.wf(),
        version.tx_idx < memory.writes.len(),
    ensures
        ({
            let entries = entries_at(memory.recorded(version, reads, ws).data, location);
            let held = entries.contains_key(version.tx_idx) && entries[version.tx_idx] is Data;
            &&& held <==> locations(ws).contains(location)
            &&& held ==> entries[version.tx_idx] == MemoryEntry::Data(
                version.tx_incarnation,
                last_value(ws, location),
            )
        }),
{
    let t = version.tx_idx;
    let gone = memory.writes[t as int].difference(locations(ws));
    let base = cleared(memory.data, t, gone);
    lemma_written_at(base, version, ws, location);
    if !locations(ws).contains(location) && memory.data.contains_key(location)
        && memory.data[location].contains_key(t) && memory.data[location][t] is Data {
        assert(memory.writes[t as int].contains(location));
        assert(gone.contains(location));
    }
}

/// A walk that ends well has seen values alone, and all entries where it found no account.
proof fn lemma_walk_shape(
    entries: Seq<(TxIdx, MemoryEntry)>,
    i: nat,
    delta: int,
    nonce_add: nat,
)
    requires
        i <= entries.len(),
        walk(entries, Seq::empty(), i, delta, nonce_add) is Ok,
    ensures
        ({
            let w = walk(entries, Seq::empty(), i, delta, nonce_add)->Ok_0;
            &&& i <= w.depth <= entries.len()
            &&& forall|j: int| i <= j < w.depth ==> (#[trigger] entries[j]).1 is Data
            &&& w.base is None ==> w.depth == entries.len()
        }),
    decreases entries.len() - i,
{
    if i < entries.len() {
        match entries[i as int].1 {
            MemoryEntry::Data(_, MemoryValue::LazyRecipient(add)) => {
                lemma_walk_shape(
                    entries,
                    i + 1,
                    clamp(delta + add@, -u256_max(), u256_max()),
                    nonce_add,
                );
            },
            MemoryEntry::Data(_, MemoryValue::LazySender(sub)) => {
                lemma_walk_shape(
                    entries,
                    i + 1,
                    clamp(delta - sub@, -u256_max(), u256_max()),
                    nonce_add + 1,
                );
            },
            _ => {},
        }
    }
}

/// The origins that a first read of an account leaves.
pub open spec fn account_origins(entries: Seq<(TxIdx, MemoryEntry)>, w: Walked) -> Seq<ReadOrigin> {
    if w.base is Some {
        versions(entries, w.depth)
    } else {
        versions(entries, w.depth).push(ReadOrigin::Storage)
    }
}

/// What a first read of an account remembers is valid as long as the memory does not change.
pub proof fn law_account_read_is_valid(
    data: MemoryData,
    tx_idx: TxIdx,
    location: MemoryLocationHash,
)
    requires
        walk(
            descending(entries_at(data, location), tx_idx as nat),
            Seq::empty(),
            0,
            0,
            0,
        ) is Ok,
    ensures
        ({
            let entries = descending(entries_at(data, location), tx_idx as nat);
            let w = walk(entries, Seq::empty(), 0, 0, 0)->Ok_0;
            location_valid(data, tx_idx, location, account_origins(entries, w))
        }),
{
    let entries = descending(entries_at(data, location), tx_idx as nat);
    let w = walk(entries, Seq::empty(), 0, 0, 0)->Ok_0;
    lemma_walk_shape(entries, 0, 0, 0);
    let origins = account_origins(entries, w);
    if data.contains_key(location) {
        assert forall|j: int| 0 <= j < origins.len() implies origin_holds(
            entries,
            j,
            #[trigger] origins[j],
        ) by {
            if j < w.depth {
                assert(entries[j].1 is Data);
            }
        }
    } else {
        lemma_descending_members(entries_at(data, location), tx_idx as nat);
        assert(entries.len() == 0) by {
            if entries.len() > 0 {
                assert(entries_at(data, location).contains_key(entries[0].0));
            }
        }
        assert(origins =~= seq![ReadOrigin::Storage]);
    }
}

/// What a first read of a storage slot remembers is valid as long as the memory does not change.
pub proof fn law_slot_read_is_valid(
    data: MemoryData,
    tx_idx: TxIdx,
    location: MemoryLocationHash,
)
    requires
        slot_lookup(data, tx_idx, location, Seq::empty()).found is Ok,
    ensures
        location_valid(
            data,
            tx_idx,
            location,
            slot_lookup(data, tx_idx, location, Seq::empty()).origins,
        ),
{
    lemma_closest_before(entries_at(data, location), tx_idx);
}

/// What a first read of a code hash remembers is valid as long as the memory does not change, unless
/// the closest entry is no code hash: then storage was read past it.
pub proof fn law_code_hash_read_is_valid(
    data: MemoryData,
    tx_idx: TxIdx,
    location: MemoryLocationHash,
)
    requires
        code_hash_lookup(data, tx_idx, location, Seq::empty()).found is Ok,
        closest_before(entries_at(data, location), tx_idx) matches Some((_, entry))
            ==> (entry matches MemoryEntry::Data(_, MemoryValue::CodeHash(_))),
    ensures
        location_valid(
            data,
            tx_idx,
            location,
            code_hash_lookup(data, tx_idx, location, Seq::empty()).origins,
        ),
{
    lemma_closest_before(entries_at(data, location), tx_idx);
}

proof fn lemma_walk_again(
    entries: Seq<(TxIdx, MemoryEntry)>,
    prior: Seq<ReadOrigin>,
    i: nat,
    delta: int,
    nonce_add: nat,
)
    requires
        i <= entries.len(),
        walk(entries, Seq::empty(), i, delta, nonce_add) is Ok,
        ({
            let w = walk(entries, Seq::empty(), i, delta, nonce_add)->Ok_0;
            &&& w.depth <= prior.len()
            &&& forall|j: int|
                0 <= j < w.depth ==> #[trigger] prior[j] == ReadOrigin::MvMemory(
                    version_of(entries[j]),
                )
        }),
    ensures
        walk(entries, prior, i, delta, nonce_add) == walk(
            entries,
            Seq::empty(),
            i,
            delta,
            nonce_add,
        ),
    decreases entries.len() - i,
{
    lemma_walk_shape(entries, i, delta, nonce_add);
    if i < entries.len() {
        match entries[i as int].1 {
            MemoryEntry::Data(_, MemoryValue::LazyRecipient(add)) => {
                let next = clamp(delta + add@, -u256_max(), u256_max());
                lemma_walk_shape(entries, i + 1, next, nonce_add);
                lemma_walk_again(entries, prior, i + 1, next, nonce_add);
            },
            MemoryEntry::Data(_, MemoryValue::LazySender(sub)) => {
                let next = clamp(delta - sub@, -u256_max(), u256_max());
                lemma_walk_shape(entries, i + 1, next, nonce_add + 1);
                lemma_walk_again(entries, prior, i + 1, next, nonce_add + 1);
            },
            _ => {},
        }
    }
}

/// A second read of an account from an unchanged memory finds the same, and its origins pass as
/// those of the first.
pub proof fn law_account_reads_repeat(entries: Seq<(TxIdx, MemoryEntry)>)
    requires
        walk(entries, Seq::empty(), 0, 0, 0) is Ok,
    ensures
        ({
            let first = walk(entries, Seq::empty(), 0, 0, 0);
            let origins = account_origins(entries, first->Ok_0);
            &&& walk(entries, origins, 0, 0, 0) == first
            &&& first->Ok_0.base is None ==> origins.len() == first->Ok_0.depth + 1
                && origins.last() == ReadOrigin::Storage
        }),
{
    let w = walk(entries, Seq::empty(), 0, 0, 0)->Ok_0;
    lemma_walk_shape(entries, 0, 0, 0);
    lemma_walk_again(entries, account_origins(entries, w), 0, 0, 0);
}

/// A second read of a storage slot from an unchanged memory finds the same and remembers the same.
pub proof fn law_slot_reads_repeat(
    data: MemoryData,
    tx_idx: TxIdx,
    location: MemoryLocationHash,
    origins: Seq<ReadOrigin>,
)
    requires
        slot_lookup(data, tx_idx, location, origins).found is Ok,
    ensures
        ({
            let first = slot_lookup(data, tx_idx, location, origins);
            slot_lookup(data, tx_idx, location, first.origins) == first
        }),
{
}

/// A second read of a code hash from an unchanged memory finds the same and remembers the same.
pub proof fn law_code_hash_reads_repeat(
    data: MemoryData,
    tx_idx: TxIdx,
    location: MemoryLocationHash,
    origins: Seq<ReadOrigin>,
)
    requires
        code_hash_lookup(data, tx_idx, location, origins).found is Ok,
    ensures
        ({
            let first = code_hash_lookup(data, tx_idx, location, origins);
            code_hash_lookup(data, tx_idx, location, first.origins) == first
        }),
{
}

/// Whether two entries that one version has left hold the same value.
pub open spec fn same_value(a: MemoryEntry, b: MemoryEntry) -> bool {
    match a {
        MemoryEntry::Data(incarnation, value) => match b {
            MemoryEntry::Data(again, other) => incarnation == again ==> value == other,
            MemoryEntry::Estimate => true,
        },
        MemoryEntry::Estimate => true,
    }
}

/// Whether no version has left different values at a location of two states of the memory. It holds
/// of all states of a memory in which every version is recorded once.
pub open spec fn versions_agree(
    before: MemoryData,
    after: MemoryData,
    location: MemoryLocationHash,
) -> bool {
    forall|t: TxIdx|
        #![trigger entries_at(after, location)[t]]
        entries_at(before, location).contains_key(t) && entries_at(after, location).contains_key(t)
            ==> same_value(entries_at(before, location)[t], entries_at(after, location)[t])
}

/// Recording a version that is not yet in the memory agrees with what is there.
pub proof fn law_new_versions_agree(
    memory: MvMemoryView,
    version: TxVersion,
    reads: Map<MemoryLocationHash, Seq<ReadOrigin>>,
    ws: Seq<(MemoryLocationHash, MemoryValue)>,
    location: MemoryLocationHash,
)
    requires
        entries_at(memory.data, location).contains_key(version.tx_idx) ==> (entries_at(
            memory.data,
            location,
        )[version.tx_idx] matches MemoryEntry::Data(incarnation, _) ==> incarnation
            != version.tx_incarnation),
    ensures
        versions_agree(memory.data, memory.recorded(version, reads, ws).data, location),
{
    let gone = memory.writes[version.tx_idx as int].difference(locations(ws));
    let base = cleared(memory.data, version.tx_idx, gone);
    lemma_written_at(base, version, ws, location);
}

/// Aborting a transaction agrees with what is in the memory.
pub proof fn law_aborts_agree(memory: MvMemoryView, tx_idx: TxIdx, location: MemoryLocationHash)
    ensures
        versions_agree(memory.data, memory.aborted(tx_idx).data, location),
{
}

/// A read of a storage slot that is still valid finds what it found, however the memory has changed
/// since.
pub proof fn law_valid_slot_reads_hold(
    before: MemoryData,
    after: MemoryData,
    tx_idx: TxIdx,
    location: MemoryLocationHash,
)
    requires
        versions_agree(before, after, location),
        slot_lookup(before, tx_idx, location, Seq::empty()).found is Ok,
        location_valid(
            after,
            tx_idx,
            location,
            slot_lookup(before, tx_idx, location, Seq::empty()).origins,
        ),
    ensures
        slot_lookup(after, tx_idx, location, Seq::empty()) == slot_lookup(
            before,
            tx_idx,
            location,
            Seq::empty(),
        ),
{
    let origins = slot_lookup(before, tx_idx, location, Seq::empty()).origins;
    lemma_closest_is_first(before, tx_idx, location);
    lemma_closest_is_first(after, tx_idx, location);
    assert(origins.len() == 1);
    if after.contains_key(location) {
        assert(origin_holds(descending(after[location], tx_idx as nat), 0, origins[0]));
        if let Some((t, entry)) = closest_before(entries_at(before, location), tx_idx) {
            assert(closest_before(entries_at(after, location), tx_idx) == Some(
                (t, entries_at(after, location)[t]),
            ));
            assert(same_value(entry, entries_at(after, location)[t]));
        }
    } else {
        assert(origins[0] == ReadOrigin::Storage);
    }
}

/// A read of a code hash that is still valid finds what it found, however the memory has changed
/// since.
pub proof fn law_valid_code_hash_reads_hold(
    before: MemoryData,
    after: MemoryData,
    tx_idx: TxIdx,
    location: MemoryLocationHash,
)
    requires
        versions_agree(before, after, location),
        code_hash_lookup(before, tx_idx, location, Seq::empty()).found is Ok,
        location_valid(
            after,
            tx_idx,
            location,
            code_hash_lookup(before, tx_idx, location, Seq::empty()).origins,
        ),
    ensures
        code_hash_lookup(after, tx_idx, location, Seq::empty()) == code_hash_lookup(
            before,
            tx_idx,
            location,
            Seq::empty(),
        ),
{
    let origins = code_hash_lookup(before, tx_idx, location, Seq::empty()).origins;
    lemma_closest_is_first(before, tx_idx, location);
    lemma_closest_is_first(after, tx_idx, location);
    assert(origins.len() == 1);
    if after.contains_key(location) {
        assert(origin_holds(descending(after[location], tx_idx as nat), 0, origins[0]));
        if origins[0] is MvMemory {
            let (t, entry) = closest_before(entries_at(before, location), tx_idx)->0;
            assert(closest_before(entries_at(after, location), tx_idx) == Some(
                (t, entries_at(after, location)[t]),
            ));
            assert(same_value(entry, entries_at(after, location)[t]));
        }
    } else {
        assert(origins[0] == ReadOrigin::Storage);
    }
}

/// A read of an account that is still valid finds what it found, however the memory has changed
/// since: the same account, with the same added to it.
pub proof fn law_valid_account_reads_hold(
    before: MemoryData,
    after: MemoryData,
    tx_idx: TxIdx,
    location: MemoryLocationHash,
)
    requires
        versions_agree(before, after, location),
        walk(
            descending(entries_at(before, location), tx_idx as nat),
            Seq::empty(),
            0,
            0,
            0,
        ) is Ok,
        ({
            let entries = descending(entries_at(before, location), tx_idx as nat);
            let w = walk(entries, Seq::empty(), 0, 0, 0)->Ok_0;
            location_valid(after, tx_idx, location, account_origins(entries, w))
        }),
    ensures
        walk(descending(entries_at(after, location), tx_idx as nat), Seq::empty(), 0, 0, 0) == walk(
            descending(entries_at(before, location), tx_idx as nat),
            Seq::empty(),
            0,
            0,
            0,
        ),
{
    let first = descending(entries_at(before, location), tx_idx as nat);
    let now = descending(entries_at(after, location), tx_idx as nat);
    let w = walk(first, Seq::empty(), 0, 0, 0)->Ok_0;
    let origins = account_origins(first, w);
    lemma_walk_shape(first, 0, 0, 0);
    lemma_descending_members(entries_at(before, location), tx_idx as nat);
    lemma_descending_members(entries_at(after, location), tx_idx as nat);
    if after.contains_key(location) {
        assert forall|j: int| 0 <= j < w.depth implies j < now.len() && now[j] == first[j] by {
            assert(origin_holds(now, j, origins[j]));
            assert(entries_at(before, location)[first[j].0] == first[j].1);
            assert(entries_at(after, location)[now[j].0] == now[j].1);
        }
        if w.base is None {
            assert(origin_holds(now, w.depth as int, origins[w.depth as int]));
        }
        if w.depth > 0 {
            assert(now[w.depth - 1] == first[w.depth - 1]);
        }
    } else {
        assert(origins[0] == ReadOrigin::Storage);
        assert(w.depth == 0 && w.base is None);
        assert(now.len() == 0) by {
            if now.len() > 0 {
                assert(entries_at(after, location).contains_key(now[0].0));
            }
        }
    }
    lemma_walk_congruent(first, now, 0, 0, 0);
}

/// The closest entry before a transaction is the first of those in descending order.
proof fn lemma_closest_is_first(data: MemoryData, tx_idx: TxIdx, location: MemoryLocationHash)
    ensures
        closest_before(entries_at(data, location), tx_idx) == {
            let entries = descending(entries_at(data, location), tx_idx as nat);
            if entries.len() > 0 {
                Some(entries[0])
            } else {
                None
            }
        },
        closest_before(entries_at(data, location), tx_idx) matches Some((t, entry)) ==> entries_at(
            data,
            location,
        ).contains_key(t) && entries_at(data, location)[t] == entry,
{
    lemma_closest_before(entries_at(data, location), tx_idx);
    lemma_descending_members(entries_at(data, location), tx_idx as nat);
}

/// A walk sees the entries up to its depth, and whether there are more where it found no account.
proof fn lemma_walk_congruent(
    a: Seq<(TxIdx, MemoryEntry)>,
    b: Seq<(TxIdx, MemoryEntry)>,
    i: nat,
    delta: int,
    nonce_add: nat,
)
    requires
        i <= a.len(),
        walk(a, Seq::empty(), i, delta, nonce_add) is Ok,
        ({
            let w = walk(a, Seq::empty(), i, delta, nonce_add)->Ok_0;
            &&& w.depth <= b.len()
            &&& forall|j: int| i <= j < w.depth ==> b[j] == a[j]
            &&& w.base is None ==> b.len() == w.depth
        }),
    ensures
        walk(b, Seq::empty(), i, delta, nonce_add) == walk(a, Seq::empty(), i, delta, nonce_add),
    decreases a.len() - i,
{
    lemma_walk_shape(a, i, delta, nonce_add);
    if i < a.len() {
        match a[i as int].1 {
            MemoryEntry::Data(_, MemoryValue::LazyRecipient(add)) => {
                let next = clamp(delta + add@, -u256_max(), u256_max());
                lemma_walk_shape(a, i + 1, next, nonce_add);
                assert(b[i as int] == a[i as int]);
                lemma_walk_congruent(a, b, i + 1, next, nonce_add);
            },
            MemoryEntry::Data(_, MemoryValue::LazySender(sub)) => {
                let next = clamp(delta - sub@, -u256_max(), u256_max());
                lemma_walk_shape(a, i + 1, next, nonce_add + 1);
                assert(b[i as int] == a[i as int]);
                lemma_walk_congruent(a, b, i + 1, next, nonce_add + 1);
            },
            _ => {
                assert(b[i as int] == a[i as int]);
            },
        }
    }
}

/// The gas counted up to a result never falls from one result to the next.
pub proof fn law_cumulative_gas_never_falls(
    results: Seq<PevmTxExecutionResult>,
    i: nat,
    j: nat,
)
    requires
        i <= j <= results.len(),
    ensures
        gas_sum(results, i) <= gas_sum(results, j),
        clamp(gas_sum(results, i), 0, u64::MAX as int) <= clamp(
            gas_sum(results, j),
            0,
            u64::MAX as int,
        ),
    decreases j - i,
{
    if i < j {
        law_cumulative_gas_never_falls(results, i, (j - 1) as nat);
    }
}

/// Of the results that hold an account the last one says whether it is there, and with which balance,
/// nonce and code.
pub proof fn law_last_result_wins(states: Seq<Transitions>, address: Address, last: int)
    requires
        0 <= last < states.len(),
        states[last].contains_key(address),
        forall|i: int| last < i < states.len() ==> !(#[trigger] states[i]).contains_key(address),
    ensures
        merged(states).contains_key(address),
        match states[last][address] {
            None => merged(states)[address] is None,
            Some(account) => merged(states)[address] matches Some(merged) && merged
                == (EvmAccountView { storage: merged.storage, ..account }),
        },
    decreases states.len(),
{
    if last < states.len() - 1 {
        let rest = states.drop_last();
        assert(!states[states.len() - 1].contains_key(address));
        law_last_result_wins(rest, address, last);
    }
}

/// A slot has the value that the last result with the slot gives it, whatever later results hold of
/// the account, as long as the account stays.
pub proof fn law_last_slot_wins(
    states: Seq<Transitions>,
    address: Address,
    slot: U256,
    last: int,
)
    requires
        0 <= last < states.len(),
        states[last].contains_key(address),
        states[last][address] matches Some(account) && account.storage.contains_key(slot),
        forall|i: int|
            last < i < states.len() && (#[trigger] states[i]).contains_key(address) ==> (
            states[i][address] matches Some(account) && !account.storage.contains_key(slot)),
    ensures
        merged(states).contains_key(address),
        merged(states)[address] matches Some(account) && account.storage.contains_key(slot)
            && account.storage[slot] == (states[last][address]->0).storage[slot],
    decreases states.len(),
{
    if last < states.len() - 1 {
        let rest = states.drop_last();
        assert(states.last() == states[states.len() - 1]);
        law_last_slot_wins(rest, address, slot, last);
    }
}

/// An account that no result holds is not changed.
pub proof fn law_untouched_accounts_stay(states: Seq<Transitions>, address: Address)
    requires
        forall|i: int| 0 <= i < states.len() ==> !(#[trigger] states[i]).contains_key(address),
    ensures
        !merged(states).contains_key(address),
    decreases states.len(),
{
    if states.len() > 0 {
        let rest = states.drop_last();
        assert(!states[states.len() - 1].contains_key(address));
        law_untouched_accounts_stay(rest, address);
    }
}

/// What a lazy entry adds to a balance.
pub open spec fn added(entry: MemoryEntry) -> int {
    match entry {
        MemoryEntry::Data(_, MemoryValue::LazyRecipient(add)) => add@,
        MemoryEntry::Data(_, MemoryValue::LazySender(sub)) => -sub@,
        _ => 0,
    }
}

/// Whether the entry is one of a sender or a recipient, not a full account.
pub open spec fn is_lazy_entry(entry: MemoryEntry) -> bool {
    match entry {
        MemoryEntry::Data(_, MemoryValue::LazyRecipient(_)) => true,
        MemoryEntry::Data(_, MemoryValue::LazySender(_)) => true,
        _ => false,
    }
}

/// A balance after the first `n` entries, if nothing bounds it.
pub open spec fn balance_after(start: int, entries: Seq<(TxIdx, MemoryEntry)>, n: nat) -> int
    decreases n,
{
    if n == 0 {
        start
    } else {
        balance_after(start, entries, (n - 1) as nat) + added(entries[n - 1].1)
    }
}

/// How many of the first `n` entries are those of a sender.
pub open spec fn sends(entries: Seq<(TxIdx, MemoryEntry)>, n: nat) -> nat
    decreases n,
{
    if n == 0 {
        0
    } else {
        sends(entries, (n - 1) as nat) + if entries[n - 1].1 matches MemoryEntry::Data(
            _,
            MemoryValue::LazySender(_),
        ) {
            1nat
        } else {
            0nat
        }
    }
}

/// The account after the first `n` entries are settled, or the first error.
pub open spec fn account_after(
    start: AccountBasic,
    entries: Seq<(TxIdx, MemoryEntry)>,
    txs: Seq<TxEnv>,
    n: nat,
) -> Result<AccountBasic, PevmError>
    decreases n,
{
    if n == 0 {
        Ok(start)
    } else {
        match account_after(start, entries, txs, (n - 1) as nat) {
            Ok(account) => after_entry(
                account,
                entries[n - 1].1,
                txs[entries[n - 1].0 as int],
            ),
            Err(e) => Err(e),
        }
    }
}

proof fn lemma_sends_monotone(entries: Seq<(TxIdx, MemoryEntry)>, i: nat, n: nat)
    requires
        i <= n,
    ensures
        sends(entries, i) <= sends(entries, n),
    decreases n - i,
{
    if i < n {
        lemma_sends_monotone(entries, i, (n - 1) as nat);
    }
}

proof fn lemma_walk_sums(start: int, entries: Seq<(TxIdx, MemoryEntry)>, i: nat)
    requires
        i <= entries.len(),
        forall|j: int| 0 <= j < entries.len() ==> is_lazy_entry((#[trigger] entries[j]).1),
        forall|j: nat|
            j <= entries.len() ==> 0 <= #[trigger] balance_after(start, entries, j) <= u256_max(),
    ensures
        walk(
            entries.reverse(),
            Seq::empty(),
            i,
            balance_after(start, entries, entries.len()) - balance_after(
                start,
                entries,
                (entries.len() - i) as nat,
            ),
            (sends(entries, entries.len()) - sends(entries, (entries.len() - i) as nat)) as nat,
        ) == Ok::<_, ReadError>(
            Walked {
                base: None,
                delta: balance_after(start, entries, entries.len()) - start,
                nonce_add: sends(entries, entries.len()),
                depth: entries.len(),
            },
        ),
    decreases entries.len() - i,
{
    let n = entries.len();
    lemma_sends_monotone(entries, (n - i) as nat, n);
    if i < n {
        let k = (n - i - 1) as nat;
        assert(entries.reverse()[i as int] == entries[k as int]);
        lemma_sends_monotone(entries, k, n);
        assert(0 <= balance_after(start, entries, k) <= u256_max());
        assert(0 <= balance_after(start, entries, n) <= u256_max());
        lemma_walk_sums(start, entries, i + 1);
    }
}

proof fn lemma_settled_sums(
    start: AccountBasic,
    entries: Seq<(TxIdx, MemoryEntry)>,
    txs: Seq<TxEnv>,
    n: nat,
)
    requires
        n <= entries.len(),
        forall|j: int| 0 <= j < entries.len() ==> is_lazy_entry((#[trigger] entries[j]).1),
        forall|j: nat|
            j <= entries.len() ==> 0 <= #[trigger] balance_after(start.balance@, entries, j)
                <= u256_max(),
        account_after(start, entries, txs, n) is Ok,
    ensures
        ({
            let account = account_after(start, entries, txs, n)->Ok_0;
            &&& account.balance@ == balance_after(start.balance@, entries, n)
            &&& account.nonce == (start.nonce + sends(entries, n)) % 0x1_0000_0000_0000_0000
        }),
    decreases n,
{
    if n > 0 {
        let m = (n - 1) as nat;
        assert(is_lazy_entry(entries[m as int].1));
        lemma_settled_sums(start, entries, txs, m);
        assert(0 <= balance_after(start.balance@, entries, n) <= u256_max());
        lemma_word(balance_after(start.balance@, entries, n));
        lemma_next_nonce(start.nonce + sends(entries, m));
        match entries[m as int].1 {
            MemoryEntry::Data(_, MemoryValue::LazySender(sub)) => {
                assert(sends(entries, n) == sends(entries, m) + 1);
            },
            _ => {
                assert(sends(entries, n) == sends(entries, m));
            },
        }
    }
}

/// Counting on from a count that started over is counting on and starting over.
proof fn lemma_next_nonce(n: int)
    ensures
        (n % 0x1_0000_0000_0000_0000 + 1) % 0x1_0000_0000_0000_0000 == (n + 1)
            % 0x1_0000_0000_0000_0000,
        0 <= n % 0x1_0000_0000_0000_0000 < 0x1_0000_0000_0000_0000,
{
}

/// What the end of the block settles an account to is what a transaction after all its entries
/// would have read, as long as its balance stays within a word on the way.
pub proof fn law_settlement_agrees_with_reads(
    start: AccountBasic,
    entries: Seq<(TxIdx, MemoryEntry)>,
    txs: Seq<TxEnv>,
)
    requires
        forall|j: int| 0 <= j < entries.len() ==> is_lazy_entry((#[trigger] entries[j]).1),
        forall|j: nat|
            j <= entries.len() ==> 0 <= #[trigger] balance_after(start.balance@, entries, j)
                <= u256_max(),
        account_after(start, entries, txs, entries.len()) is Ok,
    ensures
        walk(entries.reverse(), Seq::empty(), 0, 0, 0) is Ok,
        settles_to(
            start,
            walk(entries.reverse(), Seq::empty(), 0, 0, 0)->Ok_0,
            account_after(start, entries, txs, entries.len())->Ok_0,
        ),
{
    lemma_walk_sums(start.balance@, entries, 0);
    lemma_settled_sums(start, entries, txs, entries.len());
    assert(0 <= balance_after(start.balance@, entries, entries.len()) <= u256_max());
}

/// A record changes nothing of other transactions: neither what they have left, nor what is remembered of
/// their reads and writes, nor code, nor the addresses that are to be settled. Of its own it remembers
/// the reads and the locations written.
pub proof fn law_records_touch_only_their_own(
    memory: MvMemoryView,
    version: TxVersion,
    reads: Map<MemoryLocationHash, Seq<ReadOrigin>>,
    ws: Seq<(MemoryLocationHash, MemoryValue)>,
    location: MemoryLocationHash,
    other: TxIdx,
)
    requires
        memory.wf(),
        version.tx_idx < memory.writes.len(),
        other != version.tx_idx,
    ensures
        ({
            let after = memory.recorded(version, reads, ws);
            let now = entries_at(after.data, location);
            let then = entries_at(memory.data, location);
            &&& now.contains_key(other) == then.contains_key(other)
            &&& now.contains_key(other) ==> now[other] == then[other]
            &&& after.reads.len() == memory.reads.len()
            &&& after.writes.len() == memory.writes.len()
            &&& other < memory.reads.len() ==> after.reads[other as int] == memory.reads[other as int]
            &&& other < memory.reads.len() ==> after.writes[other as int]
                == memory.writes[other as int]
            &&& after.reads[version.tx_idx as int] == reads
            &&& forall|k: int|
                0 <= k < ws.len() ==> after.writes[version.tx_idx as int].contains(
                    (#[trigger] ws[k]).0,
                )
            &&& after.lazy == memory.lazy
            &&& after.codes == memory.codes
        }),
{
    let gone = memory.writes[version.tx_idx as int].difference(locations(ws));
    lemma_written_at(cleared(memory.data, version.tx_idx, gone), version, ws, location);
    assert forall|k: int| 0 <= k < ws.len() implies locations(ws).contains((#[trigger] ws[k]).0) by {
        assert(ws[k].0 == ws[k].0);
    }
}

/// An abort turns every value of its transaction into an estimate, and changes nothing of others.
pub proof fn law_aborts_touch_only_their_own(
    memory: MvMemoryView,
    tx_idx: TxIdx,
    location: MemoryLocationHash,
    other: TxIdx,
)
    requires
        memory.wf(),
        tx_idx < memory.writes.len(),
        other != tx_idx,
    ensures
        ({
            let now = entries_at(memory.aborted(tx_idx).data, location);
            let then = entries_at(memory.data, location);
            &&& now.contains_key(other) == then.contains_key(other)
            &&& now.contains_key(other) ==> now[other] == then[other]
            &&& then.contains_key(tx_idx) ==> now.contains_key(tx_idx) && now[tx_idx] is Estimate
            &&& memory.aborted(tx_idx).reads == memory.reads
            &&& memory.aborted(tx_idx).writes == memory.writes
            &&& memory.aborted(tx_idx).lazy == memory.lazy
            &&& memory.aborted(tx_idx).codes == memory.codes
        }),
{
    if memory.data.contains_key(location) && memory.data[location].contains_key(tx_idx) {
        if memory.data[location][tx_idx] is Data {
            assert(memory.writes[tx_idx as int].contains(location));
        }
    }
}

/// A new block holds an estimate of a transaction at a location exactly where the last list for the
/// location names the transaction, and holds no value.
pub proof fn law_new_blocks_hold_their_estimates(
    estimates: Seq<(MemoryLocationHash, Vec<TxIdx>)>,
    last: int,
    t: TxIdx,
)
    requires
        0 <= last < estimates.len(),
        forall|k: int|
            last < k < estimates.len() ==> (#[trigger] estimates[k]).0 != estimates[last].0,
    ensures
        ({
            let entries = entries_at(initial(estimates), estimates[last].0);
            &&& entries.contains_key(t) <==> estimates[last].1@.contains(t)
            &&& entries.contains_key(t) ==> entries[t] is Estimate
        }),
    decreases estimates.len(),
{
    if last < estimates.len() - 1 {
        let rest = estimates.drop_last();
        assert(estimates[estimates.len() - 1].0 != estimates[last].0);
        law_new_blocks_hold_their_estimates(rest, last, t);
    }
}

/// A location without a list holds nothing in a new block.
pub proof fn law_new_blocks_hold_nothing_else(
    estimates: Seq<(MemoryLocationHash, Vec<TxIdx>)>,
    location: MemoryLocationHash,
)
    requires
        forall|k: int| 0 <= k < estimates.len() ==> (#[trigger] estimates[k]).0 != location,
    ensures
        !initial(estimates).contains_key(location),
    decreases estimates.len(),
{
    if estimates.len() > 0 {
        assert(estimates[estimates.len() - 1].0 != location);
        law_new_blocks_hold_nothing_else(estimates.drop_last(), location);
    }
}

} // verus!
