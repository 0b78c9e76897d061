//! What a virtual machine is made to do for a block, step by step.

use crate::evm::machine::Evm;
use crate::evm::system_calls::{EvmState, ResultAndState, SystemCall};
use crate::evm::tx_env::TxEnv;
use crate::parallel::storage::AccountInfo;
use crate::primitives::Address;
use vstd::prelude::*;

verus! {

/// One step of a virtual machine, with what came of it.
pub enum Step {
    Clear { on: bool },
    Call { call: SystemCall, outcome: Result<ResultAndState, String> },
    Run { tx: TxEnv, outcome: Result<ResultAndState, String> },
    Keep { state: EvmState },
    Drain { accounts: Vec<Address>, outcome: Result<Vec<u128>, String> },
    Grow { list: Vec<(Address, u128)>, outcome: Result<(), String> },
    Load { address: Address, outcome: Result<Option<AccountInfo>, String> },
    Merge,
}

/// Whether the machine may take the step.
pub open spec fn takes<E: Evm>(m: &mut E, step: Step) -> bool {
    match step {
        Step::Clear { on } => call_ensures(E::set_state_clear_flag, (m, on), ()),
        Step::Call { call, outcome } => call_ensures(E::transact_system_call, (m, &call), outcome),
        Step::Run { tx, outcome } => call_ensures(E::transact, (m, tx), outcome),
        Step::Keep { state } => call_ensures(E::commit, (m, state), ()),
        Step::Drain { accounts, outcome } => call_ensures(
            E::drain_balances,
            (m, &accounts),
            outcome,
        ),
        Step::Grow { list, outcome } => call_ensures(E::increment_balances, (m, &list), outcome),
        Step::Load { address, outcome } => call_ensures(E::load_account, (m, address), outcome),
        Step::Merge => call_ensures(E::merge_transitions, (m,), ()),
    }
}

/// Whether a step is one of the steps.
pub open spec fn is_step(steps: Seq<Step>, i: int) -> bool {
    0 <= i < steps.len()
}

/// Whether the machines are those before and after each of the steps, from the first to the last.
pub open spec fn is_path<E>(machines: Seq<E>, steps: Seq<Step>, from: E, to: E) -> bool {
    &&& machines.len() == steps.len() + 1
    &&& machines[0] == from
    &&& machines.last() == to
}

/// The path without a step.
pub proof fn lemma_no_step<E: Evm>(at: E)
    ensures
        is_path(seq![at], Seq::<Step>::empty(), at, at),
        forall|i: int| !#[trigger] is_step(Seq::<Step>::empty(), i),
{
}

/// The path of one step.
pub proof fn lemma_one_step<E: Evm>(from: E, step: Step, to: E)
    requires
        exists|m: &mut E| *m == from && *final(m) == to && #[trigger] takes(m, step),
    ensures
        is_path(seq![from, to], seq![step], from, to),
        forall|i: int| #[trigger]
            is_step(seq![step], i) ==> exists|m: &mut E|
                *m == seq![from, to][i] && *final(m) == seq![from, to][i + 1] && #[trigger] takes(
                    m,
                    seq![step][i],
                ),
{
    assert forall|i: int| #[trigger] is_step(seq![step], i) implies exists|m: &mut E|
        *m == seq![from, to][i] && *final(m) == seq![from, to][i + 1] && #[trigger] takes(
            m,
            seq![step][i],
        ) by {
        assert(i == 0);
        assert(seq![step][i] == step);
        assert(seq![from, to][i] == from);
        assert(seq![from, to][i + 1] == to);
    }
}

/// Two paths that meet are one.
pub proof fn lemma_paths_join<E: Evm>(
    machines: Seq<E>,
    steps: Seq<Step>,
    more_machines: Seq<E>,
    more_steps: Seq<Step>,
    from: E,
    between: E,
    to: E,
)
    requires
        is_path(machines, steps, from, between),
        is_path(more_machines, more_steps, between, to),
        forall|i: int| #[trigger]
            is_step(steps, i) ==> exists|m: &mut E|
                *m == machines[i] && *final(m) == machines[i + 1] && #[trigger] takes(m, steps[i]),
        forall|i: int| #[trigger]
            is_step(more_steps, i) ==> exists|m: &mut E|
                *m == more_machines[i] && *final(m) == more_machines[i + 1] && #[trigger] takes(
                    m,
                    more_steps[i],
                ),
    ensures
        is_path(machines + more_machines.drop_first(), steps + more_steps, from, to),
        forall|i: int| #[trigger]
            is_step(steps + more_steps, i) ==> exists|m: &mut E|
                *m == (machines + more_machines.drop_first())[i] && *final(m) == (machines
                    + more_machines.drop_first())[i + 1] && #[trigger] takes(
                    m,
                    (steps + more_steps)[i],
                ),
{
    let all = machines + more_machines.drop_first();
    let path = steps + more_steps;
    assert(is_path(all, path, from, to));
    assert forall|i: int| #[trigger] is_step(path, i) implies exists|m: &mut E|
        *m == all[i] && *final(m) == all[i + 1] && #[trigger] takes(m, path[i]) by {
        let n = steps.len() as int;
        if i < n {
            assert(is_step(steps, i));
            assert(path[i] == steps[i]);
            assert(all[i] == machines[i] && all[i + 1] == machines[i + 1]);
        } else {
            assert(is_step(more_steps, i - n));
            assert(path[i] == more_steps[i - n]);
            assert(all[i] == more_machines[i - n]);
            assert(all[i + 1] == more_machines[i - n + 1]);
        }
    }
}

} // verus!
