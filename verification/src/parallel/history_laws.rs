//! That a block is sequential whichever way its transactions were recorded and aborted, once all of
//! them validate.

use crate::evm::tx_env::TxEnv;
use crate::parallel::laws::{law_recorded_values_are_the_write_set, same_value, versions_agree};
use crate::parallel::memory::{
    MemoryEntry, MemoryLocationHash, MemoryValue, ReadOrigin, TxIdx, TxVersion,
};
use crate::parallel::mv_memory::{
    cleared, entries_at, last_value, lemma_aborted_wf, lemma_recorded_wf, lemma_written_at,
    locations, MemoryData, MvMemoryView,
};
use crate::parallel::pevm::{
    are_taken, is_result_of, law_same_runs_give_the_same_receipts, results_of_runs, same_receipt,
};
use crate::parallel::serial_laws::{
    all_agree, follows_its_reads, holds_writes, law_validated_block_is_sequential,
    sequential_outcomes, sequential_values, values_below, Rules,
};
use crate::parallel::settlement::same_receipts;
use crate::parallel::state::{PevmTxExecutionResult, RunOutcome};
use crate::parallel::vm::{AccountsRead, Vm, VmExecutionError, VmExecutionResult};
use vstd::prelude::*;

verus! {

/// A change of the memory.
pub enum MemoryStep {
    /// A version is recorded, which has executed on the memory after the first `seen` steps.
    Record {
        version: TxVersion,
        reads: Map<MemoryLocationHash, Seq<ReadOrigin>>,
        ws: Seq<(MemoryLocationHash, MemoryValue)>,
        seen: int,
    },
    /// The writes of a transaction become estimates.
    Abort { tx_idx: TxIdx },
}

/// The transaction of a step.
pub open spec fn tx_of(step: MemoryStep) -> TxIdx {
    match step {
        MemoryStep::Record { version, reads, ws, seen } => version.tx_idx,
        MemoryStep::Abort { tx_idx } => tx_idx,
    }
}

/// The memory after one more step.
pub open spec fn after_step(memory: MvMemoryView, step: MemoryStep) -> MvMemoryView {
    match step {
        MemoryStep::Record { version, reads, ws, seen } => memory.recorded(version, reads, ws),
        MemoryStep::Abort { tx_idx } => memory.aborted(tx_idx),
    }
}

/// The memory after the first `n` steps.
pub open spec fn memory_after(start: MvMemoryView, steps: Seq<MemoryStep>, n: nat) -> MvMemoryView
    decreases n,
{
    if n == 0 {
        start
    } else {
        after_step(memory_after(start, steps, (n - 1) as nat), steps[n - 1])
    }
}

/// An execution that ends with a result changes what the memory holds as a record does: of the write set
/// that its run comes to, with what it has read.
pub proof fn law_executions_are_records(
    vm: Vm,
    before: MvMemoryView,
    tx_version: TxVersion,
    tx: TxEnv,
    is_lazy: bool,
    read: AccountsRead,
    reads: Map<MemoryLocationHash, Seq<ReadOrigin>>,
    outcome: RunOutcome,
    after: MvMemoryView,
    r: Result<VmExecutionResult, VmExecutionError>,
    seen: int,
)
    requires
        vm.ended(before, tx_version, tx, is_lazy, read, reads, outcome, after, r),
        r is Ok,
    ensures
        ({
            let written = vm.write_set(
                tx,
                is_lazy,
                read,
                outcome.accounts(),
                outcome.result().gas_used,
            );
            &&& written matches Some(ws) && {
                let step = MemoryStep::Record { version: tx_version, reads, ws, seen };
                &&& after.data == after_step(before, step).data
                &&& after.reads == after_step(before, step).reads
                &&& after.writes == after_step(before, step).writes
            }
            &&& is_result_of(outcome, (r->Ok_0).execution_result)
        }),
{
}

/// Whether the steps may happen to a memory: they are of transactions of the block, no version is
/// recorded twice, and no version executes on a memory that is yet to come.
pub open spec fn may_happen(start: MvMemoryView, steps: Seq<MemoryStep>) -> bool {
    &&& forall|i: int| 0 <= i < steps.len() ==> tx_of(#[trigger] steps[i]) < start.writes.len()
    &&& forall|i: int|
        0 <= i < steps.len() ==> ((#[trigger] steps[i]) matches MemoryStep::Record { seen, .. }
            ==> 0 <= seen <= i)
    &&& forall|i: int, j: int|
        0 <= i < steps.len() && 0 <= j < steps.len() && (#[trigger] steps[i]) is Record && (
        #[trigger] steps[j]) is Record && steps[i]->version == steps[j]->version ==> i == j
}

/// Whether the memory holds no values.
pub open spec fn holds_no_values(data: MemoryData) -> bool {
    forall|l: MemoryLocationHash, t: TxIdx|
        #![trigger entries_at(data, l)[t]]
        entries_at(data, l).contains_key(t) ==> entries_at(data, l)[t] is Estimate
}

proof fn lemma_steps_wf(start: MvMemoryView, steps: Seq<MemoryStep>, n: nat)
    requires
        start.wf(),
        may_happen(start, steps),
        n <= steps.len(),
    ensures
        memory_after(start, steps, n).wf(),
        memory_after(start, steps, n).writes.len() == start.writes.len(),
        memory_after(start, steps, n).reads.len() == start.writes.len(),
    decreases n,
{
    if n > 0 {
        let m = (n - 1) as nat;
        lemma_steps_wf(start, steps, m);
        let memory = memory_after(start, steps, m);
        assert(tx_of(steps[m as int]) < start.writes.len());
        match steps[m as int] {
            MemoryStep::Record { version, reads, ws, seen } => {
                lemma_recorded_wf(memory, version, reads, ws);
            },
            MemoryStep::Abort { tx_idx } => {
                lemma_aborted_wf(memory, tx_idx);
            },
        }
    }
}

/// Whether a step has recorded the value at the location.
spec fn has_recorded(
    step: MemoryStep,
    tx_idx: TxIdx,
    incarnation: usize,
    location: MemoryLocationHash,
    value: MemoryValue,
) -> bool {
    step matches MemoryStep::Record { version, ws, .. } && version == (TxVersion {
        tx_idx,
        tx_incarnation: incarnation,
    }) && locations(ws).contains(location) && last_value(ws, location) == value
}

/// Every value in the memory was recorded by a step.
proof fn lemma_values_were_recorded(
    start: MvMemoryView,
    steps: Seq<MemoryStep>,
    n: nat,
    location: MemoryLocationHash,
    t: TxIdx,
)
    requires
        start.wf(),
        holds_no_values(start.data),
        may_happen(start, steps),
        n <= steps.len(),
    ensures
        ({
            let entries = entries_at(memory_after(start, steps, n).data, location);
            entries.contains_key(t) ==> (entries[t] matches MemoryEntry::Data(incarnation, value)
                ==> exists|i: int|
                0 <= i < n && has_recorded(#[trigger] steps[i], t, incarnation, location, value))
        }),
    decreases n,
{
    if n == 0 {
        assert(entries_at(start.data, location).contains_key(t) ==> entries_at(
            start.data,
            location,
        )[t] is Estimate);
    } else {
        let m = (n - 1) as nat;
        lemma_values_were_recorded(start, steps, m, location, t);
        let memory = memory_after(start, steps, m);
        let entries = entries_at(memory_after(start, steps, n).data, location);
        if entries.contains_key(t) && entries[t] is Data {
            match steps[m as int] {
                MemoryStep::Record { version, reads, ws, seen } => {
                    let gone = memory.writes[version.tx_idx as int].difference(locations(ws));
                    let base = cleared(memory.data, version.tx_idx, gone);
                    lemma_written_at(base, version, ws, location);
                    if locations(ws).contains(location) && version.tx_idx == t {
                        assert(has_recorded(
                            steps[m as int],
                            t,
                            entries[t]->Data_0,
                            location,
                            entries[t]->Data_1,
                        ));
                    } else {
                        assert(entries_at(memory.data, location).contains_key(t));
                        assert(entries_at(memory.data, location)[t] == entries[t]);
                    }
                },
                MemoryStep::Abort { tx_idx } => {
                    assert(entries_at(memory.data, location).contains_key(t));
                    assert(entries_at(memory.data, location)[t] == entries[t]);
                },
            }
        }
    }
}

/// No version leaves different values at different times.
proof fn lemma_times_agree(start: MvMemoryView, steps: Seq<MemoryStep>, i: nat, j: nat)
    requires
        start.wf(),
        holds_no_values(start.data),
        may_happen(start, steps),
        i <= steps.len(),
        j <= steps.len(),
    ensures
        all_agree(memory_after(start, steps, i).data, memory_after(start, steps, j).data),
{
    let before = memory_after(start, steps, i).data;
    let after = memory_after(start, steps, j).data;
    assert forall|l: MemoryLocationHash| #[trigger] versions_agree(before, after, l) by {
        assert forall|t: TxIdx|
            #![trigger entries_at(after, l)[t]]
            entries_at(before, l).contains_key(t) && entries_at(after, l).contains_key(
                t,
            ) implies same_value(entries_at(before, l)[t], entries_at(after, l)[t]) by {
            lemma_values_were_recorded(start, steps, i, l, t);
            lemma_values_were_recorded(start, steps, j, l, t);
            match (entries_at(before, l)[t], entries_at(after, l)[t]) {
                (MemoryEntry::Data(a, v), MemoryEntry::Data(b, w)) => {
                    if a == b {
                        let x = choose|x: int|
                            0 <= x < i && has_recorded(#[trigger] steps[x], t, a, l, v);
                        let y = choose|y: int|
                            0 <= y < j && has_recorded(#[trigger] steps[y], t, b, l, w);
                        assert(steps[x]->version == steps[y]->version);
                        assert(x == y);
                    }
                },
                _ => {},
            }
        }
    }
}

/// What a transaction has in the memory stays until its next step.
proof fn lemma_kept_until_next_step(
    start: MvMemoryView,
    steps: Seq<MemoryStep>,
    t: TxIdx,
    k: nat,
    n: nat,
)
    requires
        start.wf(),
        may_happen(start, steps),
        k <= n <= steps.len(),
        t < start.writes.len(),
        forall|i: int| k <= i < n ==> tx_of(#[trigger] steps[i]) != t,
    ensures
        memory_after(start, steps, n).reads[t as int] == memory_after(
            start,
            steps,
            k,
        ).reads[t as int],
        forall|l: MemoryLocationHash|
            #![trigger entries_at(memory_after(start, steps, n).data, l)]
            {
                let now = entries_at(memory_after(start, steps, n).data, l);
                let then = entries_at(memory_after(start, steps, k).data, l);
                &&& now.contains_key(t) == then.contains_key(t)
                &&& now.contains_key(t) ==> now[t] == then[t]
            },
    decreases n - k,
{
    if k < n {
        let m = (n - 1) as nat;
        lemma_kept_until_next_step(start, steps, t, k, m);
        lemma_steps_wf(start, steps, m);
        let memory = memory_after(start, steps, m);
        let after = memory_after(start, steps, n);
        assert(tx_of(steps[m as int]) != t);
        assert forall|l: MemoryLocationHash|
            #![trigger entries_at(after.data, l)]
            entries_at(after.data, l).contains_key(t) == entries_at(memory.data, l).contains_key(t)
                && (entries_at(after.data, l).contains_key(t) ==> entries_at(after.data, l)[t]
                == entries_at(memory.data, l)[t]) by {
            match steps[m as int] {
                MemoryStep::Record { version, reads, ws, seen } => {
                    let gone = memory.writes[version.tx_idx as int].difference(locations(ws));
                    let base = cleared(memory.data, version.tx_idx, gone);
                    lemma_written_at(base, version, ws, l);
                },
                MemoryStep::Abort { tx_idx } => {},
            }
        }
    }
}

/// Whether the step with the number is the last of the transaction, and records a version of it that
/// came to what the rules say on the memory that it executed on, with what it read there.
pub open spec fn is_last_record(
    rules: Rules,
    start: MvMemoryView,
    steps: Seq<MemoryStep>,
    t: TxIdx,
    k: int,
) -> bool {
    &&& 0 <= k < steps.len()
    &&& forall|i: int| k < i < steps.len() ==> tx_of(#[trigger] steps[i]) != t
    &&& steps[k] matches MemoryStep::Record { version, reads, ws, seen } && {
        let on = memory_after(start, steps, seen as nat).data;
        &&& version.tx_idx == t
        &&& ws == (rules.writes)(t as int, values_below(on, t as int))
        &&& follows_its_reads(rules, on, t, reads)
    }
}

/// The memory that the version executed on which the step with the number records.
pub open spec fn seen_by(start: MvMemoryView, steps: Seq<MemoryStep>, k: int) -> MemoryData {
    memory_after(start, steps, steps[k]->seen as nat).data
}

/// However versions are executed, recorded and aborted: where the last version of every transaction
/// came to what the rules say on the memory that it executed on, and all reads are valid in the end,
/// the memory holds the values of the sequential execution, and every transaction ran to its outcome
/// there.
pub proof fn law_validated_history_is_sequential(
    rules: Rules,
    start: MvMemoryView,
    steps: Seq<MemoryStep>,
    last: Seq<int>,
)
    requires
        start.wf(),
        start.writes.len() <= usize::MAX,
        holds_no_values(start.data),
        may_happen(start, steps),
        last.len() == start.writes.len(),
        forall|t: TxIdx|
            t < last.len() ==> #[trigger] is_last_record(rules, start, steps, t, last[t as int]),
        forall|t: TxIdx|
            t < last.len() ==> #[trigger] memory_after(start, steps, steps.len()).valid(t),
    ensures
        values_below(memory_after(start, steps, steps.len()).data, last.len() as int)
            == sequential_values(rules, last.len()),
        forall|t: TxIdx|
            t < last.len() ==> #[trigger] (rules.outcome)(
                t as int,
                values_below(seen_by(start, steps, last[t as int]), t as int),
            ) == sequential_outcomes(rules, last.len())[t as int],
{
    let n = last.len();
    let memory = memory_after(start, steps, steps.len());
    let seen = Seq::new(n, |t: int| seen_by(start, steps, last[t]));
    assert forall|t: TxIdx| t < n implies {
        &&& #[trigger] memory.valid(t)
        &&& all_agree(seen[t as int], memory.data)
        &&& follows_its_reads(rules, seen[t as int], t, memory.reads[t as int])
        &&& holds_writes(
            memory.data,
            t,
            (rules.writes)(t as int, values_below(seen[t as int], t as int)),
        )
    } by {
        let k = last[t as int];
        assert(is_last_record(rules, start, steps, t, k));
        assert(steps[k] is Record);
        let version = steps[k]->version;
        let reads = steps[k]->reads;
        let ws = steps[k]->ws;
        lemma_steps_wf(start, steps, k as nat);
        lemma_times_agree(start, steps, steps[k]->seen as nat, steps.len());
        lemma_kept_until_next_step(start, steps, t, (k + 1) as nat, steps.len());
        let before = memory_after(start, steps, k as nat);
        let after = memory_after(start, steps, (k + 1) as nat);
        assert(after == before.recorded(version, reads, ws));
        assert(after.reads[t as int] == reads);
        assert forall|l: MemoryLocationHash|
            {
                let entries = #[trigger] entries_at(memory.data, l);
                let held = entries.contains_key(t) && entries[t] is Data;
                &&& held <==> locations(ws).contains(l)
                &&& held ==> entries[t]->Data_1 == last_value(ws, l)
            } by {
            law_recorded_values_are_the_write_set(before, version, reads, ws, l);
        }
    }
    law_validated_block_is_sequential(rules, memory, seen, n);
    assert forall|t: TxIdx| t < n implies #[trigger] (rules.outcome)(
        t as int,
        values_below(seen_by(start, steps, last[t as int]), t as int),
    ) == sequential_outcomes(rules, n)[t as int] by {
        assert(seen[t as int] == seen_by(start, steps, last[t as int]));
    }
}

/// A block whose transactions all validate gives the receipts of the sequential execution, in
/// whichever order its versions were executed, recorded and aborted.
pub proof fn law_validated_receipts_are_sequential(
    rules: Rules,
    start: MvMemoryView,
    steps: Seq<MemoryStep>,
    last: Seq<int>,
    kept: Seq<Option<PevmTxExecutionResult>>,
    taken: Seq<PevmTxExecutionResult>,
    parallel: Seq<PevmTxExecutionResult>,
    eip_161_enabled: bool,
    sequential: Seq<PevmTxExecutionResult>,
)
    requires
        start.wf(),
        start.writes.len() <= usize::MAX,
        holds_no_values(start.data),
        may_happen(start, steps),
        last.len() == start.writes.len(),
        forall|t: TxIdx|
            t < last.len() ==> #[trigger] is_last_record(rules, start, steps, t, last[t as int]),
        forall|t: TxIdx|
            t < last.len() ==> #[trigger] memory_after(start, steps, steps.len()).valid(t),
        kept.len() >= last.len(),
        forall|i: int|
            0 <= i < last.len() ==> ((#[trigger] kept[i]) matches Some(result) && is_result_of(
                (rules.outcome)(i, values_below(seen_by(start, steps, last[i]), i)),
                result,
            )),
        taken.len() == last.len(),
        are_taken(kept, taken),
        same_receipts(parallel, taken),
        results_of_runs(sequential_outcomes(rules, last.len()), eip_161_enabled, sequential),
    ensures
        parallel.len() == sequential.len() == last.len(),
        forall|i: int|
            0 <= i < parallel.len() ==> same_receipt(
                (#[trigger] parallel[i]).receipt,
                sequential[i].receipt,
            ),
{
    let outcomes = sequential_outcomes(rules, last.len());
    law_validated_history_is_sequential(rules, start, steps, last);
    assert forall|i: int| 0 <= i < outcomes.len() implies ((#[trigger] kept[i]) matches Some(result)
        && is_result_of(outcomes[i], result)) by {
        let t = i as usize;
        assert((rules.outcome)(
            t as int,
            values_below(seen_by(start, steps, last[t as int]), t as int),
        ) == outcomes[t as int]);
    }
    law_same_runs_give_the_same_receipts(
        outcomes,
        eip_161_enabled,
        sequential,
        kept,
        taken,
        parallel,
    );
}

} // verus!
