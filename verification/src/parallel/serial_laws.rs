//! That a parallel execution comes to what a sequential one comes to.

use crate::parallel::history::descending;
use crate::parallel::laws::{
    account_origins, law_recorded_values_are_the_write_set, law_valid_account_reads_hold,
    law_valid_code_hash_reads_hold, law_valid_slot_reads_hold, versions_agree,
};
use crate::parallel::memory::{
    MemoryLocationHash, MemoryValue, ReadOrigin, TxIdx, TxVersion,
};
use crate::parallel::mv_memory::{
    entries_at, last_value, location_valid, locations, reads_valid, MemoryData, MvMemoryView,
};
use crate::parallel::pevm::{
    are_taken, is_result_of, law_same_runs_give_the_same_receipts, results_of_runs, same_receipt,
};
use crate::parallel::settlement::same_receipts;
use crate::parallel::state::{PevmTxExecutionResult, RunOutcome};
use crate::parallel::vm_db::{code_hash_lookup, slot_lookup, walk, ReadError, Walked};
use vstd::prelude::*;

verus! {

/// The values that transactions have left, by the location and the transaction.
pub type Values = Map<(MemoryLocationHash, TxIdx), MemoryValue>;

/// What a version of a transaction comes to, given the values that earlier transactions have left.
/// Whether it executes lazily is for the rules to say, as it changes how it writes and not what.
pub struct Rules {
    pub writes: spec_fn(int, Values) -> Seq<(MemoryLocationHash, MemoryValue)>,
    pub outcome: spec_fn(int, Values) -> RunOutcome,
}

/// The values that the transactions before the bound have left in the memory.
pub open spec fn values_below(data: MemoryData, bound: int) -> Values {
    Map::new(
        |k: (MemoryLocationHash, TxIdx)|
            {
                &&& k.1 < bound
                &&& entries_at(data, k.0).contains_key(k.1)
                &&& entries_at(data, k.0)[k.1] is Data
            },
        |k: (MemoryLocationHash, TxIdx)| entries_at(data, k.0)[k.1]->Data_1,
    )
}

/// The values with those that one more transaction has written.
pub open spec fn with_writes(
    values: Values,
    tx_idx: int,
    ws: Seq<(MemoryLocationHash, MemoryValue)>,
) -> Values {
    Map::new(
        |k: (MemoryLocationHash, TxIdx)|
            values.contains_key(k) || (k.1 == tx_idx && locations(ws).contains(k.0)),
        |k: (MemoryLocationHash, TxIdx)|
            if k.1 == tx_idx && locations(ws).contains(k.0) {
                last_value(ws, k.0)
            } else {
                values[k]
            },
    )
}

/// The values after the first `n` transactions, each executed on what those before it have left.
pub open spec fn sequential_values(rules: Rules, n: nat) -> Values
    decreases n,
{
    if n == 0 {
        Map::empty()
    } else {
        let before = sequential_values(rules, (n - 1) as nat);
        with_writes(before, n - 1, (rules.writes)(n - 1, before))
    }
}

/// Whether the transaction has left at the location what it writes there on top of the values that the
/// memory holds of those before it.
pub open spec fn has_left(
    rules: Rules,
    data: MemoryData,
    tx_idx: TxIdx,
    location: MemoryLocationHash,
) -> bool {
    let entries = entries_at(data, location);
    let ws = (rules.writes)(tx_idx as int, values_below(data, tx_idx as int));
    let held = entries.contains_key(tx_idx) && entries[tx_idx] is Data;
    &&& held <==> locations(ws).contains(location)
    &&& held ==> entries[tx_idx]->Data_1 == last_value(ws, location)
}

/// Whether every transaction has left in the memory what it writes on top of the values that the
/// memory holds of those before it: what recording leaves of a version whose reads are valid.
pub open spec fn holds_all(rules: Rules, data: MemoryData, n: nat) -> bool {
    forall|t: TxIdx, l: MemoryLocationHash| t < n ==> #[trigger] has_left(rules, data, t, l)
}

/// A version that is recorded with what the transaction writes on top of those before it has left just
/// that.
pub proof fn law_recorded_versions_have_left_their_writes(
    rules: Rules,
    memory: MvMemoryView,
    version: TxVersion,
    reads: Map<MemoryLocationHash, Seq<ReadOrigin>>,
    ws: Seq<(MemoryLocationHash, MemoryValue)>,
    location: MemoryLocationHash,
)
    requires
        memory.wf(),
        version.tx_idx < memory.writes.len(),
        ws == (rules.writes)(
            version.tx_idx as int,
            values_below(memory.recorded(version, reads, ws).data, version.tx_idx as int),
        ),
    ensures
        has_left(rules, memory.recorded(version, reads, ws).data, version.tx_idx, location),
{
    law_recorded_values_are_the_write_set(memory, version, reads, ws, location);
}

/// A memory in which every transaction has left what it writes on top of those before it holds the
/// values of the sequential execution, in whichever order the versions were executed.
pub proof fn law_valid_memory_is_sequential(rules: Rules, data: MemoryData, n: nat)
    requires
        n <= usize::MAX,
        holds_all(rules, data, n),
    ensures
        values_below(data, n as int) == sequential_values(rules, n),
    decreases n,
{
    if n == 0 {
        assert(values_below(data, 0) =~= sequential_values(rules, 0));
    } else {
        let m = (n - 1) as nat;
        law_valid_memory_is_sequential(rules, data, m);
        let before = values_below(data, m as int);
        let ws = (rules.writes)(m as int, before);
        let t = m as usize;
        assert forall|k: (MemoryLocationHash, TxIdx)|
            values_below(data, n as int).contains_key(k) == with_writes(
                before,
                m as int,
                ws,
            ).contains_key(k) by {
            assert(has_left(rules, data, t, k.0));
        }
        assert forall|k: (MemoryLocationHash, TxIdx)|
            values_below(data, n as int).contains_key(k) implies values_below(data, n as int)[k]
            == with_writes(before, m as int, ws)[k] by {
            assert(has_left(rules, data, t, k.0));
        }
        assert(values_below(data, n as int) =~= with_writes(before, m as int, ws));
    }
}

/// The outcomes of a sequential execution.
pub open spec fn sequential_outcomes(rules: Rules, n: nat) -> Seq<RunOutcome> {
    Seq::new(n, |i: int| (rules.outcome)(i, sequential_values(rules, i as nat)))
}

/// Where what a transaction comes to depends on nothing but the values below it, and the memory at the
/// end of a parallel execution holds what every transaction writes on top of those before it, the
/// parallel execution gives the receipts of the sequential one.
pub proof fn law_parallel_receipts_are_sequential(
    rules: Rules,
    data: MemoryData,
    n: nat,
    kept: Seq<Option<PevmTxExecutionResult>>,
    taken: Seq<PevmTxExecutionResult>,
    parallel: Seq<PevmTxExecutionResult>,
    eip_161_enabled: bool,
    sequential: Seq<PevmTxExecutionResult>,
)
    requires
        n <= usize::MAX,
        holds_all(rules, data, n),
        kept.len() >= n,
        forall|i: int|
            0 <= i < n ==> ((#[trigger] kept[i]) matches Some(result) && is_result_of(
                (rules.outcome)(i, values_below(data, i)),
                result,
            )),
        taken.len() == n,
        are_taken(kept, taken),
        same_receipts(parallel, taken),
        results_of_runs(sequential_outcomes(rules, n), eip_161_enabled, sequential),
    ensures
        parallel.len() == sequential.len() == n,
        forall|i: int|
            0 <= i < n ==> same_receipt((#[trigger] parallel[i]).receipt, sequential[i].receipt),
{
    let outcomes = sequential_outcomes(rules, n);
    assert forall|i: int| 0 <= i < outcomes.len() implies ((#[trigger] kept[i]) matches Some(result)
        && is_result_of(outcomes[i], result)) by {
        law_valid_memory_is_sequential(rules, data, i as nat);
    }
    law_same_runs_give_the_same_receipts(
        outcomes,
        eip_161_enabled,
        sequential,
        kept,
        taken,
        parallel,
    );
}

/// Whether a transaction that read a storage slot from the memory remembers the origins.
pub open spec fn remembers_slot(
    data: MemoryData,
    tx_idx: TxIdx,
    location: MemoryLocationHash,
    origins: Seq<ReadOrigin>,
) -> bool {
    let look = slot_lookup(data, tx_idx, location, Seq::empty());
    look.found is Ok && look.origins == origins
}

/// Whether a transaction that read a code hash from the memory remembers the origins.
pub open spec fn remembers_code_hash(
    data: MemoryData,
    tx_idx: TxIdx,
    location: MemoryLocationHash,
    origins: Seq<ReadOrigin>,
) -> bool {
    let look = code_hash_lookup(data, tx_idx, location, Seq::empty());
    look.found is Ok && look.origins == origins
}

/// What a transaction finds of an account in the memory.
pub open spec fn account_walk(
    data: MemoryData,
    tx_idx: TxIdx,
    location: MemoryLocationHash,
) -> Result<Walked, ReadError> {
    walk(descending(entries_at(data, location), tx_idx as nat), Seq::empty(), 0, 0, 0)
}

/// Whether a transaction that read an account from the memory remembers the origins.
pub open spec fn remembers_account(
    data: MemoryData,
    tx_idx: TxIdx,
    location: MemoryLocationHash,
    origins: Seq<ReadOrigin>,
) -> bool {
    let entries = descending(entries_at(data, location), tx_idx as nat);
    match account_walk(data, tx_idx, location) {
        Ok(walked) => account_origins(entries, walked) == origins,
        Err(_) => false,
    }
}

/// Whether every read that a transaction remembers from one memory finds the same in another.
pub open spec fn finds_the_same(
    seen: MemoryData,
    now: MemoryData,
    tx_idx: TxIdx,
    reads: Map<MemoryLocationHash, Seq<ReadOrigin>>,
) -> bool {
    forall|l: MemoryLocationHash| #[trigger]
        reads.contains_key(l) ==> {
            &&& remembers_slot(seen, tx_idx, l, reads[l]) ==> slot_lookup(
                now,
                tx_idx,
                l,
                Seq::empty(),
            ) == slot_lookup(seen, tx_idx, l, Seq::empty())
            &&& remembers_code_hash(seen, tx_idx, l, reads[l]) ==> code_hash_lookup(
                now,
                tx_idx,
                l,
                Seq::empty(),
            ) == code_hash_lookup(seen, tx_idx, l, Seq::empty())
            &&& remembers_account(seen, tx_idx, l, reads[l]) ==> account_walk(now, tx_idx, l)
                == account_walk(seen, tx_idx, l)
        }
}

/// Whether a transaction comes to the same wherever its reads find the same.
pub open spec fn follows_its_reads(
    rules: Rules,
    seen: MemoryData,
    tx_idx: TxIdx,
    reads: Map<MemoryLocationHash, Seq<ReadOrigin>>,
) -> bool {
    forall|now: MemoryData| #[trigger]
        finds_the_same(seen, now, tx_idx, reads) ==> {
            &&& (rules.writes)(tx_idx as int, values_below(now, tx_idx as int)) == (rules.writes)(
                tx_idx as int,
                values_below(seen, tx_idx as int),
            )
            &&& (rules.outcome)(tx_idx as int, values_below(now, tx_idx as int)) == (
            rules.outcome)(tx_idx as int, values_below(seen, tx_idx as int))
        }
}

/// Whether the values that a transaction has in the memory are those of the write set.
pub open spec fn holds_writes(
    data: MemoryData,
    tx_idx: TxIdx,
    ws: Seq<(MemoryLocationHash, MemoryValue)>,
) -> bool {
    forall|l: MemoryLocationHash|
        {
            let entries = #[trigger] entries_at(data, l);
            let held = entries.contains_key(tx_idx) && entries[tx_idx] is Data;
            &&& held <==> locations(ws).contains(l)
            &&& held ==> entries[tx_idx]->Data_1 == last_value(ws, l)
        }
}

/// Whether all versions of all transactions agree between two states of a memory.
pub open spec fn all_agree(before: MemoryData, after: MemoryData) -> bool {
    forall|l: MemoryLocationHash| #[trigger] versions_agree(before, after, l)
}

/// Reads that are valid find what they found.
pub proof fn law_valid_reads_find_the_same(
    seen: MemoryData,
    now: MemoryData,
    tx_idx: TxIdx,
    reads: Map<MemoryLocationHash, Seq<ReadOrigin>>,
)
    requires
        reads_valid(now, tx_idx, reads),
        all_agree(seen, now),
    ensures
        finds_the_same(seen, now, tx_idx, reads),
{
    assert forall|l: MemoryLocationHash| #[trigger] reads.contains_key(l) implies {
        &&& remembers_slot(seen, tx_idx, l, reads[l]) ==> slot_lookup(now, tx_idx, l, Seq::empty())
            == slot_lookup(seen, tx_idx, l, Seq::empty())
        &&& remembers_code_hash(seen, tx_idx, l, reads[l]) ==> code_hash_lookup(
            now,
            tx_idx,
            l,
            Seq::empty(),
        ) == code_hash_lookup(seen, tx_idx, l, Seq::empty())
        &&& remembers_account(seen, tx_idx, l, reads[l]) ==> account_walk(now, tx_idx, l)
            == account_walk(seen, tx_idx, l)
    } by {
        assert(versions_agree(seen, now, l));
        assert(location_valid(now, tx_idx, l, reads[l]));
        if remembers_slot(seen, tx_idx, l, reads[l]) {
            law_valid_slot_reads_hold(seen, now, tx_idx, l);
        }
        if remembers_code_hash(seen, tx_idx, l, reads[l]) {
            law_valid_code_hash_reads_hold(seen, now, tx_idx, l);
        }
        if remembers_account(seen, tx_idx, l, reads[l]) {
            law_valid_account_reads_hold(seen, now, tx_idx, l);
        }
    }
}

/// A block whose transactions all validate is a sequential one. Each transaction has executed on some
/// state of the memory, comes to the same wherever its reads find the same, and has left there what
/// it writes; where all reads are valid in the end, every transaction has left what it writes on top
/// of those before it.
pub proof fn law_validated_block_is_sequential(
    rules: Rules,
    memory: MvMemoryView,
    seen: Seq<MemoryData>,
    n: nat,
)
    requires
        n <= usize::MAX,
        n <= seen.len(),
        forall|t: TxIdx|
            t < n ==> {
                &&& #[trigger] memory.valid(t)
                &&& all_agree(seen[t as int], memory.data)
                &&& follows_its_reads(rules, seen[t as int], t, memory.reads[t as int])
                &&& holds_writes(
                    memory.data,
                    t,
                    (rules.writes)(t as int, values_below(seen[t as int], t as int)),
                )
            },
    ensures
        holds_all(rules, memory.data, n),
        values_below(memory.data, n as int) == sequential_values(rules, n),
        forall|t: TxIdx|
            t < n ==> #[trigger] (rules.outcome)(t as int, values_below(seen[t as int], t as int))
                == sequential_outcomes(rules, n)[t as int],
{
    assert forall|t: TxIdx, l: MemoryLocationHash| t < n implies #[trigger] has_left(
        rules,
        memory.data,
        t,
        l,
    ) by {
        assert(memory.valid(t));
        law_valid_reads_find_the_same(
            seen[t as int],
            memory.data,
            t,
            memory.reads[t as int],
        );
        let entries = entries_at(memory.data, l);
    }
    law_valid_memory_is_sequential(rules, memory.data, n);
    assert forall|t: TxIdx| t < n implies #[trigger] (rules.outcome)(
        t as int,
        values_below(seen[t as int], t as int),
    ) == sequential_outcomes(rules, n)[t as int] by {
        assert(memory.valid(t));
        law_valid_reads_find_the_same(
            seen[t as int],
            memory.data,
            t,
            memory.reads[t as int],
        );
        law_valid_memory_is_sequential(rules, memory.data, t as nat);
    }
}

} // verus!
