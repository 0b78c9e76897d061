//! Balances that grow at the end of a block: rewards, and withdrawals from the beacon chain.

use crate::evm::assoc::{holds_at, lemma_map_at, map_of, one_per_key, AssocMap};
use crate::evm::chain_spec::{reached, ChainSpec};
use crate::evm::env::{BlockEnv, Header};
use crate::parallel::state::StateAccount;
use crate::parallel::storage::{AccountInfo, EvmCode};
use crate::primitives::{
    clamp, keccak_empty, keccak_empty_spec, u256_max, Address, Withdrawal, U256,
};
use std::sync::Arc;
use vstd::prelude::*;

verus! {

/// Wei per gwei.
pub const WEI_PER_GWEI: u128 = 1_000_000_000;

/// Wei per ether.
pub const WEI_PER_ETHER: u128 = 1_000_000_000_000_000_000;

/// What a block earns its miner before anything is added: 5 ether, 2 ether from Constantinople on, and
/// nothing once blocks are no longer mined.
pub open spec fn base_reward(spec: ChainSpec, number: u64) -> Option<u128> {
    if reached(spec.paris_block, number) {
        None
    } else if reached(spec.constantinople_block, number) {
        Some(2_000_000_000_000_000_000)
    } else {
        Some(5_000_000_000_000_000_000)
    }
}

/// The reward of the miner of an ommer: an eighth of the base less for each block that it is behind.
/// The count of the eighths starts over as a 64-bit number does.
pub open spec fn ommer_share(base: u128, number: u64, ommer_number: u64) -> int {
    (8 + ommer_number - number) % 0x1_0000_0000_0000_0000 * base / 8
}

/// The reward of the miner of a block: the base, and a 32nd of it for each ommer.
pub open spec fn miner_share(base: u128, ommers: nat) -> int {
    base + base / 32 * ommers
}

pub fn base_block_reward(spec: &ChainSpec, number: u64) -> (r: Option<u128>)
    ensures
        r == base_reward(*spec, number),
{
    if spec.is_paris_active_at_block(number) {
        None
    } else if spec.is_constantinople_active_at_block(number) {
        Some(2 * WEI_PER_ETHER)
    } else {
        Some(5 * WEI_PER_ETHER)
    }
}

pub fn ommer_reward(base: u128, number: u64, ommer_number: u64) -> (r: u128)
    requires
        base <= 5 * WEI_PER_ETHER,
    ensures
        r == ommer_share(base, number, ommer_number),
{
    let eighths: u64 = 8u64.wrapping_add(ommer_number).wrapping_sub(number);
    assert(eighths == (8 + ommer_number - number) % 0x1_0000_0000_0000_0000);
    assert(eighths as int * base as int <= u64::MAX * (5 * WEI_PER_ETHER)) by (nonlinear_arith)
        requires
            eighths <= u64::MAX,
            base <= 5 * WEI_PER_ETHER,
    ;
    (eighths as u128) * base / 8
}

pub fn block_reward(base: u128, ommers: usize) -> (r: u128)
    requires
        base <= 5 * WEI_PER_ETHER,
    ensures
        r == miner_share(base, ommers as nat),
{
    assert((base / 32) as int * ommers as int <= (5 * WEI_PER_ETHER) * u64::MAX) by (nonlinear_arith)
        requires
            base / 32 <= 5 * WEI_PER_ETHER,
            ommers <= u64::MAX,
    ;
    base + base / 32 * (ommers as u128)
}

/// The balances that grow, each by how much.
pub struct BalanceIncrements {
    amounts: AssocMap<Address, u128>,
}

/// How many amounts there are. A sum beyond them starts over.
pub open spec fn amount_count() -> int {
    0x1_0000_0000_0000_0000_0000_0000_0000_0000int
}

/// What each address gets of a list of credits.
pub open spec fn credited(credits: Seq<(Address, int)>) -> Map<Address, int>
    decreases credits.len(),
{
    if credits.len() == 0 {
        Map::empty()
    } else {
        let before = credited(credits.drop_last());
        let (address, amount) = credits.last();
        before.insert(address, (amount_of(before, address) + amount) % amount_count())
    }
}

/// What an address gets; nothing where it is not listed.
pub open spec fn amount_of(amounts: Map<Address, int>, address: Address) -> int {
    if amounts.contains_key(address) {
        amounts[address]
    } else {
        0
    }
}

/// Whether the list holds the amounts, once each.
pub open spec fn lists(entries: Seq<(Address, u128)>, amounts: Map<Address, int>) -> bool {
    &&& one_per_key(entries)
    &&& forall|i: int|
        0 <= i < entries.len() ==> amounts.contains_key((#[trigger] entries[i]).0)
            && amounts[entries[i].0] == entries[i].1
    &&& forall|a: Address| #[trigger]
        amounts.contains_key(a) ==> exists|i: int| holds_at(entries, a, i)
}

/// Whether the list holds the amounts that are not zero, once each.
pub open spec fn lists_nonzero(entries: Seq<(Address, u128)>, amounts: Map<Address, int>) -> bool {
    &&& one_per_key(entries)
    &&& forall|i: int|
        0 <= i < entries.len() ==> amounts.contains_key((#[trigger] entries[i]).0)
            && amounts[entries[i].0] == entries[i].1 && entries[i].1 != 0
    &&& forall|a: Address| #[trigger]
        amounts.contains_key(a) && amounts[a] != 0 ==> exists|i: int| holds_at(entries, a, i)
}

/// All credits together.
pub open spec fn total(credits: Seq<(Address, int)>) -> int
    decreases credits.len(),
{
    if credits.len() == 0 {
        0
    } else {
        total(credits.drop_last()) + credits.last().1
    }
}

/// The credits of mining: those of the miners of the ommers, and that of the miner of the block. Of a
/// block that was not mined there are none.
pub open spec fn reward_credits(spec: ChainSpec, block: BlockEnv, ommers: Seq<Header>) -> Seq<
    (Address, int),
> {
    let number = clamp(block.number@, 0, u64::MAX as int) as u64;
    match base_reward(spec, number) {
        None => Seq::empty(),
        Some(base) => Seq::new(
            ommers.len(),
            |i: int| (ommers[i].beneficiary, ommer_share(base, number, ommers[i].number)),
        ).push((block.beneficiary, miner_share(base, ommers.len()))),
    }
}

/// The credits of withdrawals, in wei; a withdrawal of nothing is none.
pub open spec fn withdrawal_credits(withdrawals: Seq<Withdrawal>) -> Seq<(Address, int)>
    decreases withdrawals.len(),
{
    if withdrawals.len() == 0 {
        Seq::empty()
    } else {
        let rest = withdrawal_credits(withdrawals.drop_last());
        let last = withdrawals.last();
        if last.amount > 0 {
            rest.push((last.address, last.amount * WEI_PER_GWEI))
        } else {
            rest
        }
    }
}

/// The credits of a block: its rewards, and from Shanghai on its withdrawals.
pub open spec fn block_credits(
    spec: ChainSpec,
    block: BlockEnv,
    ommers: Seq<Header>,
    withdrawals: Option<Seq<Withdrawal>>,
) -> Seq<(Address, int)> {
    let timestamp = clamp(block.timestamp@, 0, u64::MAX as int) as u64;
    reward_credits(spec, block, ommers) + if reached(spec.shanghai_time, timestamp) {
        match withdrawals {
            Some(w) => withdrawal_credits(w),
            None => Seq::empty(),
        }
    } else {
        Seq::empty()
    }
}

pub open spec fn listed(withdrawals: Option<&Vec<Withdrawal>>) -> Option<Seq<Withdrawal>> {
    match withdrawals {
        Some(w) => Some(w@),
        None => None,
    }
}

impl View for BalanceIncrements {
    type V = Map<Address, int>;

    closed spec fn view(&self) -> Map<Address, int> {
        self.amounts@.map_values(|amount: u128| amount as int)
    }
}

impl BalanceIncrements {
    pub fn new() -> (r: Self)
        ensures
            r@ == Map::<Address, int>::empty(),
    {
        let r = BalanceIncrements { amounts: AssocMap::new() };
        assert(r@ =~= Map::<Address, int>::empty());
        r
    }

    /// Whether no balance grows.
    pub fn is_empty(&self) -> (r: bool)
        ensures
            r == (self@ == Map::<Address, int>::empty()),
    {
        let entries = self.amounts.entries();
        proof {
            if entries@.len() > 0 {
                lemma_map_at(entries@, 0);
                assert(self@.contains_key(entries@[0].0));
            } else {
                assert forall|a: Address| !self@.contains_key(a) by {
                    if map_of(entries@).contains_key(a) {
                        let i = choose|i: int| holds_at(entries@, a, i);
                        assert(holds_at(entries@, a, i));
                    }
                }
                assert(self@ =~= Map::<Address, int>::empty());
            }
        }
        entries.len() == 0
    }

    /// Adds to what an address gets.
    pub fn credit(&mut self, address: Address, amount: u128)
        ensures
            final(self)@ == old(self)@.insert(
                address,
                (amount_of(old(self)@, address) + amount) % amount_count(),
            ),
    {
        let ghost before = self@;
        let held: u128 = match self.amounts.get(address) {
            Some(held) => *held,
            None => 0,
        };
        self.amounts.insert(address, held.wrapping_add(amount));
        assert(self@ =~= before.insert(
            address,
            (amount_of(before, address) + amount) % amount_count(),
        ));
    }

    /// The balances that grow, each by how much, once each.
    pub fn entries(&self) -> (r: &Vec<(Address, u128)>)
        ensures
            lists(r@, self@),
    {
        let r = self.amounts.entries();
        proof {
            assert forall|i: int| 0 <= i < r@.len() implies self@.contains_key((#[trigger] r@[i]).0)
                && self@[r@[i].0] == r@[i].1 by {
                lemma_map_at(r@, i);
            }
            assert forall|a: Address| #[trigger] self@.contains_key(a) implies exists|i: int|
                holds_at(r@, a, i) by {
                assert(map_of(r@).contains_key(a));
            }
        }
        r
    }

    /// The balances that grow by something, each by how much, once each.
    pub fn nonzero(&self) -> (r: Vec<(Address, u128)>)
        ensures
            lists_nonzero(r@, self@),
    {
        let entries = self.amounts.entries();
        let mut r: Vec<(Address, u128)> = Vec::new();
        let mut i: usize = 0;
        while i < entries.len()
            invariant
                i <= entries@.len(),
                one_per_key(entries@),
                one_per_key(r@),
                forall|k: int|
                    0 <= k < r@.len() ==> (#[trigger] r@[k]).1 != 0 && entries@.take(
                        i as int,
                    ).contains(r@[k]),
                forall|j: int|
                    0 <= j < i && (#[trigger] entries@[j]).1 != 0 ==> r@.contains(entries@[j]),
            decreases entries@.len() - i,
        {
            let ghost before = r@;
            let ghost seen = entries@.take(i as int);
            let ghost next = entries@.take(i + 1);
            let entry = entries[i];
            if entry.1 != 0 {
                r.push(entry);
                proof {
                    assert forall|a: int, b: int| 0 <= a < b < r@.len() implies (
                    #[trigger] r@[a]).0 != (#[trigger] r@[b]).0 by {
                        if b == before.len() {
                            assert(before[a].1 != 0);
                            let j = choose|j: int| 0 <= j < seen.len() && seen[j] == before[a];
                            assert(entries@[j].0 != entries@[i as int].0);
                        } else {
                            assert(before[a].0 != before[b].0);
                        }
                    }
                    assert forall|j: int|
                        0 <= j < i + 1 && (#[trigger] entries@[j]).1 != 0 implies r@.contains(
                        entries@[j],
                    ) by {
                        if j < i {
                            assert(before.contains(entries@[j]));
                            let k = choose|k: int|
                                0 <= k < before.len() && before[k] == entries@[j];
                            assert(r@[k] == entries@[j]);
                        } else {
                            assert(r@[before.len() as int] == entries@[j]);
                        }
                    }
                }
            }
            proof {
                assert forall|k: int| 0 <= k < r@.len() implies next.contains(
                    #[trigger] r@[k],
                ) by {
                    if k < before.len() {
                        assert(before[k].1 != 0);
                        let j = choose|j: int| 0 <= j < seen.len() && seen[j] == before[k];
                        assert(next[j] == r@[k]);
                    } else {
                        assert(next[i as int] == r@[k]);
                    }
                }
            }
            i = i + 1;
        }
        proof {
            let seen = entries@.take(i as int);
            assert forall|k: int| 0 <= k < r@.len() implies self@.contains_key(
                (#[trigger] r@[k]).0,
            ) && self@[r@[k].0] == r@[k].1 && r@[k].1 != 0 by {
                let j = choose|j: int| 0 <= j < seen.len() && seen[j] == r@[k];
                lemma_map_at(entries@, j);
            }
            assert forall|a: Address| #[trigger]
                self@.contains_key(a) && self@[a] != 0 implies exists|i: int| holds_at(
                r@,
                a,
                i,
            ) by {
                let j = choose|j: int| holds_at(entries@, a, j);
                assert(holds_at(entries@, a, j));
                lemma_map_at(entries@, j);
                assert(entries@[j].1 != 0);
                let k = choose|k: int| 0 <= k < r@.len() && r@[k] == entries@[j];
                assert(holds_at(r@, a, k));
            }
        }
        r
    }
}

/// Adds the credits of a list of amounts, after others.
fn credit_all(
    increments: &mut BalanceIncrements,
    Ghost(before): Ghost<Seq<(Address, int)>>,
    credits: &Vec<(Address, u128)>,
)
    requires
        old(increments)@ == credited(before),
    ensures
        final(increments)@ == credited(before + amounts(credits@)),
{
    let ghost all = before + amounts(credits@);
    let ghost n = before.len() as int;
    assert(all.take(n) =~= before);
    let mut i: usize = 0;
    while i < credits.len()
        invariant
            i <= credits@.len(),
            n == before.len(),
            all == before + amounts(credits@),
            increments@ == credited(all.take(n + i)),
        decreases credits@.len() - i,
    {
        let (address, amount) = credits[i];
        proof {
            let seen = all.take(n + i);
            let next = all.take(n + i + 1);
            assert(next.drop_last() =~= seen);
            assert(next.last() == (address, amount as int));
        }
        increments.credit(address, amount);
        i = i + 1;
    }
    assert(all.take(n + i) =~= all);
}

/// Amounts as numbers.
pub open spec fn amounts(credits: Seq<(Address, u128)>) -> Seq<(Address, int)> {
    Seq::new(credits.len(), |i: int| (credits[i].0, credits[i].1 as int))
}

/// The credits of withdrawals, in wei.
fn withdrawal_amounts(withdrawals: &Vec<Withdrawal>) -> (r: Vec<(Address, u128)>)
    ensures
        amounts(r@) == withdrawal_credits(withdrawals@),
{
    let mut r: Vec<(Address, u128)> = Vec::new();
    let mut i: usize = 0;
    assert(amounts(r@) =~= withdrawal_credits(withdrawals@.take(0)));
    while i < withdrawals.len()
        invariant
            i <= withdrawals@.len(),
            amounts(r@) == withdrawal_credits(withdrawals@.take(i as int)),
        decreases withdrawals@.len() - i,
    {
        let ghost before = r@;
        let withdrawal = withdrawals[i];
        assert(withdrawals@.take(i + 1).drop_last() =~= withdrawals@.take(i as int));
        if withdrawal.amount > 0 {
            let wei: u128 = withdrawal.amount as u128 * WEI_PER_GWEI;
            r.push((withdrawal.address, wei));
            assert(amounts(r@) =~= amounts(before).push((withdrawal.address, wei as int)));
        }
        i = i + 1;
    }
    assert(withdrawals@.take(i as int) =~= withdrawals@);
    r
}

/// What the balances grow by at the end of a block.
pub fn post_block_balance_increments(
    spec: &ChainSpec,
    block: &BlockEnv,
    ommers: &Vec<Header>,
    withdrawals: Option<&Vec<Withdrawal>>,
) -> (r: BalanceIncrements)
    ensures
        r@ == credited(block_credits(*spec, *block, ommers@, listed(withdrawals))),
{
    let mut increments = BalanceIncrements::new();
    let mut credits: Vec<(Address, u128)> = Vec::new();
    let number: u64 = block.number.saturating_to_u64();
    if let Some(base) = base_block_reward(spec, number) {
        let mut i: usize = 0;
        while i < ommers.len()
            invariant
                i <= ommers@.len(),
                base <= 5 * WEI_PER_ETHER,
                credits@.len() == i,
                forall|j: int|
                    0 <= j < i ==> (#[trigger] credits@[j]).0 == ommers@[j].beneficiary
                        && credits@[j].1 == ommer_share(base, number, ommers@[j].number),
            decreases ommers@.len() - i,
        {
            let ommer = &ommers[i];
            credits.push((ommer.beneficiary, ommer_reward(base, number, ommer.number)));
            i = i + 1;
        }
        credits.push((block.beneficiary, block_reward(base, ommers.len())));
    }
    assert(amounts(credits@) =~= reward_credits(*spec, *block, ommers@));
    let ghost first = amounts(credits@);
    let timestamp: u64 = block.timestamp.saturating_to_u64();
    let second: Vec<(Address, u128)> = if spec.is_shanghai_active_at_timestamp(timestamp) {
        match withdrawals {
            Some(w) => withdrawal_amounts(w),
            None => Vec::new(),
        }
    } else {
        Vec::new()
    };
    proof {
        assert(Seq::<(Address, int)>::empty() + first =~= first);
        assert(amounts(second@).len() == 0 ==> amounts(second@) =~= Seq::empty());
        assert(first + amounts(second@) =~= block_credits(
            *spec,
            *block,
            ommers@,
            listed(withdrawals),
        ));
    }
    credit_all(&mut increments, Ghost(Seq::empty()), &credits);
    credit_all(&mut increments, Ghost(first), &second);
    increments
}

/// The sum of drained balances.
pub open spec fn drained_sum(drained: Seq<u128>) -> int
    decreases drained.len(),
{
    if drained.len() == 0 {
        0
    } else {
        drained_sum(drained.drop_last()) + drained.last()
    }
}

/// Gives what was drained from the accounts of the DAO to its beneficiary.
pub fn credit_drained(
    increments: &mut BalanceIncrements,
    beneficiary: Address,
    drained: &Vec<u128>,
)
    ensures
        final(increments)@ == old(increments)@.insert(
            beneficiary,
            (amount_of(old(increments)@, beneficiary) + drained_sum(drained@)) % amount_count(),
        ),
{
    let mut sum: u128 = 0;
    let mut i: usize = 0;
    while i < drained.len()
        invariant
            i <= drained@.len(),
            sum == drained_sum(drained@.take(i as int)) % amount_count(),
        decreases drained@.len() - i,
    {
        proof {
            assert(drained@.take(i + 1).drop_last() =~= drained@.take(i as int));
            let before = drained_sum(drained@.take(i as int));
            vstd::arithmetic::div_mod::lemma_add_mod_noop(
                before,
                drained@[i as int] as int,
                amount_count(),
            );
            vstd::arithmetic::div_mod::lemma_small_mod(
                drained@[i as int] as nat,
                amount_count() as nat,
            );
        }
        sum = sum.wrapping_add(drained[i]);
        i = i + 1;
    }
    assert(drained@.take(i as int) =~= drained@);
    let ghost held = amount_of(increments@, beneficiary);
    increments.credit(beneficiary, sum);
    proof {
        vstd::arithmetic::div_mod::lemma_add_mod_noop_right(
            held,
            drained_sum(drained@),
            amount_count(),
        );
    }
}

/// Whether the account is the loaded one with the amount added to its balance: touched, without
/// storage. An account that does not exist starts empty.
pub open spec fn is_incremented(
    account: StateAccount,
    address: Address,
    loaded: Option<AccountInfo>,
    amount: u128,
) -> bool {
    &&& account.address == address
    &&& account.touched
    &&& !account.selfdestructed
    &&& account.storage@.len() == 0
    &&& match loaded {
        Some(info) => {
            &&& account.info.balance@ == (info.balance@ + amount) % (u256_max() + 1)
            &&& account.info.nonce == info.nonce
            &&& account.info.code_hash == info.code_hash
            &&& account.info.code == info.code
        },
        None => {
            &&& account.info.balance@ == amount
            &&& account.info.nonce == 0
            &&& account.info.code_hash == keccak_empty_spec()
            &&& account.info.code matches Some(code) && code.is_default()
        },
    }
}

/// The accounts whose balances grow, given the accounts as they were loaded.
pub fn balance_increment_state(
    increments: &Vec<(Address, u128)>,
    loaded: Vec<Option<AccountInfo>>,
) -> (r: Vec<StateAccount>)
    requires
        loaded@.len() == increments@.len(),
    ensures
        r@.len() == increments@.len(),
        forall|i: int|
            0 <= i < r@.len() ==> is_incremented(
                #[trigger] r@[i],
                increments@[i].0,
                loaded@[i],
                increments@[i].1,
            ),
{
    let mut accounts: Vec<StateAccount> = Vec::new();
    let mut i: usize = 0;
    let mut loaded_left = loaded;
    while i < increments.len()
        invariant
            i <= increments@.len(),
            loaded_left@.len() == increments@.len() == loaded@.len(),
            forall|j: int| i <= j < loaded@.len() ==> loaded_left@[j] == loaded@[j],
            accounts@.len() == i,
            forall|j: int|
                0 <= j < i ==> is_incremented(
                    #[trigger] accounts@[j],
                    increments@[j].0,
                    loaded@[j],
                    increments@[j].1,
                ),
        decreases increments@.len() - i,
    {
        let (address, amount) = increments[i];
        let mut slot = None;
        std::mem::swap(&mut slot, &mut loaded_left[i]);
        let info = match slot {
            Some(info) => info,
            None => AccountInfo {
                balance: U256::zero(),
                nonce: 0,
                code_hash: keccak_empty(),
                code: Some(Arc::new(EvmCode::default())),
            },
        };
        let info = AccountInfo {
            balance: info.balance.wrapping_add(U256::from_u128(amount)),
            nonce: info.nonce,
            code_hash: info.code_hash,
            code: info.code,
        };
        let account = StateAccount {
            address,
            info,
            touched: true,
            selfdestructed: false,
            storage: Vec::new(),
        };
        proof {
            vstd::arithmetic::div_mod::lemma_small_mod(amount as nat, (u256_max() + 1) as nat);
        }
        assert(is_incremented(account, address, loaded@[i as int], amount));
        accounts.push(account);
        i = i + 1;
    }
    accounts
}

/// What the balances of a block grow by is, address for address, the sum of its credits, as far as
/// an amount can hold it.
pub proof fn law_every_credit_is_paid(credits: Seq<(Address, int)>, address: Address)
    ensures
        amount_of(credited(credits), address) == total(
            credits.filter(|c: (Address, int)| c.0 == address),
        ) % amount_count(),
    decreases credits.len(),
{
    reveal(Seq::filter);
    let p = |c: (Address, int)| c.0 == address;
    if credits.len() > 0 {
        law_every_credit_is_paid(credits.drop_last(), address);
        let rest = credits.drop_last().filter(p);
        if credits.last().0 == address {
            assert(credits.filter(p) =~= rest.push(credits.last()));
            assert(rest.push(credits.last()).drop_last() =~= rest);
            vstd::arithmetic::div_mod::lemma_add_mod_noop_right(
                credits.last().1,
                total(rest),
                amount_count(),
            );
        } else {
            assert(credits.filter(p) =~= rest);
        }
    }
}

} // verus!
