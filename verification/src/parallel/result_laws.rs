//! What the results of transactions hold, and what becomes of it in the state of the chain.

use crate::parallel::execution_laws::{holds_nothing, listed_once, slots_once};
use crate::parallel::executor::{
    answers_slot, brings_to, changes_to, merged, original_read, AccountChange, StateCache,
};
use crate::parallel::laws::{law_last_result_wins, law_last_slot_wins};
use crate::parallel::settlement::Transitions;
use crate::parallel::state::{
    present_slots, transitions, EvmAccountView, SlotChange, StateAccount,
};
use crate::primitives::{keccak_empty_spec, lemma_word, Address, U256};
use vstd::prelude::*;

verus! {

/// The slots that an account is left with are exactly those that a run lists, each with the value that
/// it is left with, zero included; of two entries for one slot the later holds.
pub proof fn law_every_slot_is_held(slots: Seq<SlotChange>)
    ensures
        forall|j: int|
            0 <= j < slots.len() ==> present_slots(slots).contains_key((#[trigger] slots[j]).slot),
        forall|k: U256| #[trigger]
            present_slots(slots).contains_key(k) ==> exists|j: int|
                {
                    &&& 0 <= j < slots.len()
                    &&& (#[trigger] slots[j]).slot == k
                    &&& slots[j].present == present_slots(slots)[k]
                    &&& forall|x: int| j < x < slots.len() ==> (#[trigger] slots[x]).slot != k
                },
        slots_once(slots) ==> forall|j: int|
            0 <= j < slots.len() ==> present_slots(slots)[(#[trigger] slots[j]).slot]
                == slots[j].present,
    decreases slots.len(),
{
    if slots.len() > 0 {
        let rest = slots.drop_last();
        let e = slots.len() - 1;
        law_every_slot_is_held(rest);
        assert forall|j: int| 0 <= j < slots.len() implies present_slots(slots).contains_key(
            (#[trigger] slots[j]).slot,
        ) by {
            if j < e {
                assert(rest[j] == slots[j]);
            }
        }
        assert forall|k: U256| #[trigger] present_slots(slots).contains_key(k) implies exists|j: int|
            {
                &&& 0 <= j < slots.len()
                &&& (#[trigger] slots[j]).slot == k
                &&& slots[j].present == present_slots(slots)[k]
                &&& forall|x: int| j < x < slots.len() ==> (#[trigger] slots[x]).slot != k
            } by {
            if slots[e].slot == k {
                assert(slots.last() == slots[e]);
            } else {
                assert(present_slots(rest).contains_key(k));
                let j = choose|j: int|
                    {
                        &&& 0 <= j < rest.len()
                        &&& (#[trigger] rest[j]).slot == k
                        &&& rest[j].present == present_slots(rest)[k]
                        &&& forall|x: int| j < x < rest.len() ==> (#[trigger] rest[x]).slot != k
                    };
                assert(slots[j] == rest[j]);
                assert forall|x: int| j < x < slots.len() implies (#[trigger] slots[x]).slot
                    != k by {
                    if x < e {
                        assert(rest[x] == slots[x]);
                    }
                }
            }
        }
        if slots_once(slots) {
            assert forall|j: int| 0 <= j < slots.len() implies present_slots(slots)[(
            #[trigger] slots[j]).slot] == slots[j].present by {
                let k = slots[j].slot;
                assert(present_slots(slots).contains_key(k));
                let x = choose|x: int|
                    {
                        &&& 0 <= x < slots.len()
                        &&& (#[trigger] slots[x]).slot == k
                        &&& slots[x].present == present_slots(slots)[k]
                    };
                assert(x == j);
            }
        }
    }
}

/// Whether an account that a result holds is that of the run: its balance, nonce and code, and every
/// slot of the run with the value that it is left with, and no other slot.
pub open spec fn holds_account_of(account: StateAccount, held: EvmAccountView) -> bool {
    let slots = account.storage@;
    &&& held.balance == account.info.balance
    &&& held.nonce == account.info.nonce
    &&& held.code_hash == if account.info.code_hash == keccak_empty_spec() {
        None
    } else {
        Some(account.info.code_hash)
    }
    &&& held.code == if account.info.code_hash == keccak_empty_spec() {
        None
    } else {
        account.info.code
    }
    &&& forall|j: int|
        0 <= j < slots.len() ==> held.storage.contains_key((#[trigger] slots[j]).slot)
            && held.storage[slots[j].slot] == slots[j].present
    &&& forall|k: U256| #[trigger]
        held.storage.contains_key(k) ==> exists|j: int|
            0 <= j < slots.len() && (#[trigger] slots[j]).slot == k
}

/// A result holds every account that a run has touched, and no other: as gone where it was destroyed, or
/// is empty and cleared; else as the run has left it, with all its slots.
pub proof fn law_results_hold_what_runs_leave(state: Seq<StateAccount>, eip_161_enabled: bool)
    requires
        listed_once(state),
    ensures
        forall|i: int|
            0 <= i < state.len() && (#[trigger] state[i]).touched ==> transitions(
                state,
                eip_161_enabled,
            ).contains_key(state[i].address) && match transitions(
                state,
                eip_161_enabled,
            )[state[i].address] {
                None => state[i].selfdestructed || (eip_161_enabled && holds_nothing(state[i])),
                Some(held) => !state[i].selfdestructed && !(eip_161_enabled && holds_nothing(
                    state[i],
                )) && holds_account_of(state[i], held),
            },
        forall|a: Address| #[trigger]
            transitions(state, eip_161_enabled).contains_key(a) ==> exists|i: int|
                0 <= i < state.len() && (#[trigger] state[i]).touched && state[i].address == a,
    decreases state.len(),
{
    if state.len() > 0 {
        let rest = state.drop_last();
        let e = state.len() - 1;
        let last = state[e];
        assert(last == state.last());
        assert(listed_once(rest)) by {
            assert forall|x: int, y: int|
                0 <= x < rest.len() && 0 <= y < rest.len() && x != y implies (
            #[trigger] rest[x]).address != (#[trigger] rest[y]).address by {
                assert(state[x].address != state[y].address);
            }
            assert forall|x: int| 0 <= x < rest.len() implies slots_once(
                (#[trigger] rest[x]).storage@,
            ) by {
                assert(slots_once(state[x].storage@));
            }
        }
        law_results_hold_what_runs_leave(rest, eip_161_enabled);
        assert(slots_once(last.storage@));
        law_every_slot_is_held(last.storage@);
        assert(holds_account_of(last, last.account_view()));
        assert forall|i: int| 0 <= i < state.len() && (#[trigger] state[i]).touched implies {
            let held = transitions(state, eip_161_enabled);
            &&& held.contains_key(state[i].address)
            &&& match held[state[i].address] {
                None => state[i].selfdestructed || (eip_161_enabled && holds_nothing(state[i])),
                Some(h) => !state[i].selfdestructed && !(eip_161_enabled && holds_nothing(
                    state[i],
                )) && holds_account_of(state[i], h),
            }
        } by {
            if i < e {
                assert(rest[i] == state[i]);
                assert(state[i].address != state[e].address);
            }
        }
        assert forall|a: Address| #[trigger]
            transitions(state, eip_161_enabled).contains_key(a) implies exists|i: int|
            0 <= i < state.len() && (#[trigger] state[i]).touched && state[i].address == a by {
            if transitions(rest, eip_161_enabled).contains_key(a) {
                let i = choose|i: int|
                    0 <= i < rest.len() && (#[trigger] rest[i]).touched && rest[i].address == a;
                assert(state[i] == rest[i]);
            } else {
                assert(state[e].touched);
            }
        }
    }
}

/// A slot that the merged results hold has the value that some result gives it, and no later result
/// says that the account is gone.
pub proof fn law_merged_slots_come_from_results(
    states: Seq<Transitions>,
    address: Address,
    slot: U256,
)
    requires
        merged(states).contains_key(address),
        merged(states)[address] matches Some(account) && account.storage.contains_key(slot),
    ensures
        exists|i: int|
            {
                &&& 0 <= i < states.len()
                &&& (#[trigger] states[i]).contains_key(address)
                &&& states[i][address] matches Some(account) && account.storage.contains_key(slot)
                    && account.storage[slot] == (merged(states)[address]->0).storage[slot]
                &&& forall|x: int|
                    i < x < states.len() && (#[trigger] states[x]).contains_key(address) ==> (
                    states[x][address] matches Some(later) && !later.storage.contains_key(slot))
            },
    decreases states.len(),
{
    let rest = states.drop_last();
    let e = states.len() - 1;
    assert(states[e] == states.last());
    let in_last = states[e].contains_key(address) && states[e][address] is Some && (
    states[e][address]->0).storage.contains_key(slot);
    if !in_last {
        law_merged_slots_come_from_results(rest, address, slot);
        let i = choose|i: int|
            {
                &&& 0 <= i < rest.len()
                &&& (#[trigger] rest[i]).contains_key(address)
                &&& rest[i][address] matches Some(account) && account.storage.contains_key(slot)
                    && account.storage[slot] == (merged(rest)[address]->0).storage[slot]
                &&& forall|x: int|
                    i < x < rest.len() && (#[trigger] rest[x]).contains_key(address) ==> (
                    rest[x][address] matches Some(later) && !later.storage.contains_key(slot))
            };
        assert(states[i] == rest[i]);
        assert forall|x: int|
            i < x < states.len() && (#[trigger] states[x]).contains_key(address) implies (
        states[x][address] matches Some(later) && !later.storage.contains_key(slot)) by {
            if x < e {
                assert(rest[x] == states[x]);
            }
        }
    }
}

/// The state is brought to what the last result of each account says: every account that a result holds
/// is changed, once; it is destroyed exactly where the last result says that it is gone, and else gets
/// the balance, the nonce and the code of the last result.
pub proof fn law_committed_accounts_are_the_last<S: StateCache>(
    cache: &S,
    states: Seq<Transitions>,
    changes: Seq<AccountChange>,
    address: Address,
    last: int,
)
    requires
        brings_to(cache, merged(states), changes),
        0 <= last < states.len(),
        states[last].contains_key(address),
        forall|i: int| last < i < states.len() ==> !(#[trigger] states[i]).contains_key(address),
    ensures
        exists|c: int|
            {
                &&& 0 <= c < changes.len()
                &&& (#[trigger] changes[c]).address == address
                &&& match states[last][address] {
                    None => changes[c].destroyed && changes[c].info.balance@ == 0
                        && changes[c].info.nonce == 0 && changes[c].storage@.len() == 0,
                    Some(account) => {
                        &&& !changes[c].destroyed
                        &&& changes[c].info.balance == account.balance
                        &&& changes[c].info.nonce == account.nonce
                        &&& changes[c].info.code == account.code
                        &&& changes[c].info.code_hash == match account.code_hash {
                            Some(h) => h,
                            None => keccak_empty_spec(),
                        }
                    },
                }
            },
        forall|c: int, d: int|
            0 <= c < changes.len() && 0 <= d < changes.len() && (#[trigger] changes[c]).address
                == address && (#[trigger] changes[d]).address == address ==> c == d,
{
    law_last_result_wins(states, address, last);
    let c = choose|c: int| 0 <= c < changes.len() && (#[trigger] changes[c]).address == address;
    assert(changes_to(cache, merged(states)[address], changes[c]));
    assert forall|x: int, y: int|
        0 <= x < changes.len() && 0 <= y < changes.len() && (#[trigger] changes[x]).address
            == address && (#[trigger] changes[y]).address == address implies x == y by {
        if x < y {
            assert(changes[x].address != changes[y].address);
        }
        if y < x {
            assert(changes[y].address != changes[x].address);
        }
    }
}

/// A slot is committed with the value that the last result with the slot gives it, zero included, next
/// to the value that the state had, if no later result says that the account is gone.
pub proof fn law_committed_slots_are_the_last<S: StateCache>(
    cache: &S,
    states: Seq<Transitions>,
    changes: Seq<AccountChange>,
    address: Address,
    slot: U256,
    last: int,
)
    requires
        brings_to(cache, merged(states), changes),
        0 <= last < states.len(),
        states[last].contains_key(address),
        states[last][address] matches Some(account) && account.storage.contains_key(slot),
        forall|i: int|
            last < i < states.len() && (#[trigger] states[i]).contains_key(address) ==> (
            states[i][address] matches Some(account) && !account.storage.contains_key(slot)),
    ensures
        exists|c: int, k: int|
            {
                &&& 0 <= c < changes.len()
                &&& changes[c].address == address
                &&& !changes[c].destroyed
                &&& 0 <= k < changes[c].storage@.len()
                &&& (#[trigger] changes[c].storage@[k]).slot == slot
                &&& changes[c].storage@[k].present == (states[last][address]->0).storage[slot]
                &&& exists|reply: Result<U256, String>| #[trigger]
                    answers_slot(cache, address, slot, reply) && match reply {
                        Ok(value) => changes[c].storage@[k].original == value,
                        Err(_) => changes[c].storage@[k].original@ == 0,
                    }
            },
{
    law_last_slot_wins(states, address, slot, last);
    let c = choose|c: int| 0 <= c < changes.len() && (#[trigger] changes[c]).address == address;
    assert(changes_to(cache, merged(states)[address], changes[c]));
    let slots = changes[c].storage@;
    let k = choose|k: int| 0 <= k < slots.len() && (#[trigger] slots[k]).slot == slot;
    assert(changes[c].storage@[k].slot == slot);
    assert(original_read(cache, address, slots[k]));
    lemma_word(0);
}

/// A slot that a transaction clears is cleared in the state of the chain: what a run leaves in a slot is
/// what is committed, if no other result of the block holds the account.
pub proof fn law_cleared_slots_are_committed<S: StateCache>(
    cache: &S,
    state: Seq<StateAccount>,
    eip_161_enabled: bool,
    states: Seq<Transitions>,
    changes: Seq<AccountChange>,
    t: int,
    i: int,
    j: int,
)
    requires
        listed_once(state),
        0 <= t < states.len(),
        states[t] == transitions(state, eip_161_enabled),
        brings_to(cache, merged(states), changes),
        0 <= i < state.len(),
        state[i].touched,
        !state[i].selfdestructed,
        !holds_nothing(state[i]),
        0 <= j < state[i].storage@.len(),
        forall|x: int|
            t < x < states.len() ==> !(#[trigger] states[x]).contains_key(state[i].address),
    ensures
        exists|c: int, k: int|
            {
                &&& 0 <= c < changes.len()
                &&& changes[c].address == state[i].address
                &&& 0 <= k < changes[c].storage@.len()
                &&& (#[trigger] changes[c].storage@[k]).slot == state[i].storage@[j].slot
                &&& changes[c].storage@[k].present == state[i].storage@[j].present
            },
{
    law_results_hold_what_runs_leave(state, eip_161_enabled);
    let address = state[i].address;
    let held = states[t][address]->0;
    assert(state[i].touched);
    assert(holds_account_of(state[i], held));
    assert(held.storage.contains_key(state[i].storage@[j].slot));
    law_committed_slots_are_the_last(
        cache,
        states,
        changes,
        address,
        state[i].storage@[j].slot,
        t,
    );
}

/// Every slot that is committed is one that a result holds, and has the value of the result.
pub proof fn law_nothing_else_is_committed<S: StateCache>(
    cache: &S,
    states: Seq<Transitions>,
    changes: Seq<AccountChange>,
    c: int,
    k: int,
)
    requires
        brings_to(cache, merged(states), changes),
        0 <= c < changes.len(),
        0 <= k < changes[c].storage@.len(),
    ensures
        exists|i: int|
            {
                &&& 0 <= i < states.len()
                &&& (#[trigger] states[i]).contains_key(changes[c].address)
                &&& states[i][changes[c].address] matches Some(account)
                    && account.storage.contains_key(changes[c].storage@[k].slot)
                    && account.storage[changes[c].storage@[k].slot]
                    == changes[c].storage@[k].present
            },
{
    let change = changes[c];
    assert(changes_to(cache, merged(states)[change.address], change));
    let slots = change.storage@;
    assert(slots[k].slot == slots[k].slot);
    law_merged_slots_come_from_results(states, change.address, slots[k].slot);
}

} // verus!
