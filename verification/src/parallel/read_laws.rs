//! What a transaction is told of accounts, code and slots.

use crate::evm::tx_env::TxEnv;
use crate::parallel::history::{closest_before, descending};
use crate::parallel::memory::{
    location_hash, AccountBasic, MemoryEntry, MemoryLocation, MemoryLocationHash, MemoryValue,
    ReadOrigin, TxIdx,
};
use crate::parallel::mv_memory::{entries_at, MemoryData, MvMemory};
use crate::parallel::storage::{
    answers_basic, answers_code, answers_code_hash, served_account, AccountInfo, EvmCode, Storage,
    StorageWrapperError,
};
use crate::parallel::vm_db::{
    code_hash_lookup, code_hash_read, kept, origins_at, settles_to, slot_lookup, versions, walk,
    ReadError, VmDb, Walked,
};
use crate::primitives::{clamp, keccak_empty_spec, lemma_u256_bounds, u256_max, Address, B256, U256};
use std::sync::Arc;
use vstd::prelude::*;

verus! {

/// The most that lazy entries may change a balance by, added up.
pub open spec fn spread(entries: Seq<(TxIdx, MemoryEntry)>) -> int
    decreases entries.len(),
{
    if entries.len() == 0 {
        0
    } else {
        spread(entries.drop_first()) + match entries.first().1 {
            MemoryEntry::Data(_, MemoryValue::LazyRecipient(add)) => add@,
            MemoryEntry::Data(_, MemoryValue::LazySender(sub)) => sub@,
            _ => 0,
        }
    }
}

proof fn lemma_spread_nonnegative(entries: Seq<(TxIdx, MemoryEntry)>)
    ensures
        spread(entries) >= 0,
    decreases entries.len(),
{
    if entries.len() > 0 {
        lemma_spread_nonnegative(entries.drop_first());
        match entries.first().1 {
            MemoryEntry::Data(_, MemoryValue::LazyRecipient(add)) => lemma_u256_bounds(add),
            MemoryEntry::Data(_, MemoryValue::LazySender(sub)) => lemma_u256_bounds(sub),
            _ => {},
        }
    }
}

/// A walk that starts later, with more added, ends with as much more.
proof fn lemma_walk_shifts(
    entries: Seq<(TxIdx, MemoryEntry)>,
    longer: Seq<(TxIdx, MemoryEntry)>,
    i: nat,
    delta: int,
    nonce_add: nat,
    more: int,
    more_nonce: nat,
)
    requires
        i <= entries.len(),
        longer.len() == entries.len() + 1,
        longer.drop_first() == entries,
        -u256_max() <= delta - spread(entries.skip(i as int)),
        delta + spread(entries.skip(i as int)) <= u256_max(),
        -u256_max() <= delta + more - spread(entries.skip(i as int)),
        delta + more + spread(entries.skip(i as int)) <= u256_max(),
    ensures
        walk(longer, Seq::empty(), i + 1, delta + more, nonce_add + more_nonce) == match walk(
            entries,
            Seq::empty(),
            i,
            delta,
            nonce_add,
        ) {
            Ok(w) => Ok(
                Walked {
                    base: w.base,
                    delta: w.delta + more,
                    nonce_add: w.nonce_add + more_nonce,
                    depth: w.depth + 1,
                },
            ),
            Err(e) => Err(e),
        },
    decreases entries.len() - i,
{
    if i < entries.len() {
        assert(longer[(i + 1) as int] == entries[i as int]);
        let rest = entries.skip(i as int);
        assert(rest.drop_first() =~= entries.skip((i + 1) as int));
        assert(rest.first() == entries[i as int]);
        lemma_spread_nonnegative(entries.skip((i + 1) as int));
        match entries[i as int].1 {
            MemoryEntry::Data(_, MemoryValue::LazyRecipient(add)) => {
                lemma_u256_bounds(add);
                lemma_walk_shifts(
                    entries,
                    longer,
                    i + 1,
                    delta + add@,
                    nonce_add,
                    more,
                    more_nonce,
                );
                assert(delta + add@ + more == delta + more + add@);
            },
            MemoryEntry::Data(_, MemoryValue::LazySender(sub)) => {
                lemma_u256_bounds(sub);
                lemma_walk_shifts(
                    entries,
                    longer,
                    i + 1,
                    delta - sub@,
                    nonce_add + 1,
                    more,
                    more_nonce,
                );
                assert(delta - sub@ + more == delta + more - sub@);
                assert(nonce_add + 1 + more_nonce == nonce_add + more_nonce + 1);
            },
            _ => {},
        }
    }
}

/// An entry on top of others adds what it holds to what they come to: a recipient gains, a sender loses
/// and counts one more nonce, a full account hides all below it, and an estimate blocks the read.
pub proof fn law_newer_entries_count_on_top(
    entries: Seq<(TxIdx, MemoryEntry)>,
    tx_idx: TxIdx,
    entry: MemoryEntry,
)
    requires
        spread(seq![(tx_idx, entry)] + entries) <= u256_max(),
    ensures
        ({
            let below = walk(entries, Seq::empty(), 0, 0, 0);
            let all = walk(seq![(tx_idx, entry)] + entries, Seq::empty(), 0, 0, 0);
            match entry {
                MemoryEntry::Estimate => all == Err::<Walked, _>(ReadError::Blocking(tx_idx)),
                MemoryEntry::Data(_, MemoryValue::Basic(basic)) => all matches Ok(w) && w.base
                    == Some(basic) && w.delta == 0 && w.nonce_add == 0,
                MemoryEntry::Data(_, MemoryValue::LazyRecipient(add)) => match below {
                    Ok(w) => all matches Ok(v) && v.base == w.base && v.delta == w.delta + add@
                        && v.nonce_add == w.nonce_add,
                    Err(e) => all == Err::<Walked, _>(e),
                },
                MemoryEntry::Data(_, MemoryValue::LazySender(sub)) => match below {
                    Ok(w) => all matches Ok(v) && v.base == w.base && v.delta == w.delta - sub@
                        && v.nonce_add == w.nonce_add + 1,
                    Err(e) => all == Err::<Walked, _>(e),
                },
                _ => all == Err::<Walked, _>(ReadError::InvalidMemoryValueType),
            }
        }),
{
    let longer = seq![(tx_idx, entry)] + entries;
    assert(longer.drop_first() =~= entries);
    assert(longer.first() == (tx_idx, entry));
    assert(longer[0] == (tx_idx, entry));
    assert(entries.skip(0) =~= entries);
    lemma_spread_nonnegative(entries);
    match entry {
        MemoryEntry::Data(_, MemoryValue::LazyRecipient(add)) => {
            lemma_u256_bounds(add);
            lemma_walk_shifts(entries, longer, 0, 0, 0, add@, 0);
            assert(walk(longer, Seq::empty(), 0, 0, 0) == walk(longer, Seq::empty(), 1, add@, 0));
        },
        MemoryEntry::Data(_, MemoryValue::LazySender(sub)) => {
            lemma_u256_bounds(sub);
            lemma_walk_shifts(entries, longer, 0, 0, 0, -sub@, 1);
            assert(walk(longer, Seq::empty(), 0, 0, 0) == walk(longer, Seq::empty(), 1, -sub@, 1));
        },
        _ => {},
    }
}

/// An account without entries is the one below; and an account below with lazy entries on top has their
/// sum, if a balance can hold it, and one nonce more for each transaction that it sent.
pub proof fn law_accounts_settle_to_their_sum(base: AccountBasic, w: Walked, account: AccountBasic)
    requires
        settles_to(base, w, account),
        0 <= base.balance@ + w.delta <= u256_max(),
        base.nonce + w.nonce_add <= u64::MAX,
    ensures
        account.balance@ == base.balance@ + w.delta,
        account.nonce == base.nonce + w.nonce_add,
{
}

/// The entries that a transaction reads of an account, latest first.
pub open spec fn entries_before<S: Storage>(db: VmDb<S>, address: Address) -> Seq<
    (TxIdx, MemoryEntry),
> {
    descending(
        entries_at(db.mv_memory@.data, location_hash(MemoryLocation::Basic(address))),
        db.tx_idx as nat,
    )
}

/// Whether the database is one that was opened for its transaction.
pub open spec fn hashes_are_own<S: Storage>(db: VmDb<S>) -> bool {
    &&& db.from_hash == location_hash(MemoryLocation::Basic(db.tx_caller))
    &&& db.to_hash == match db.tx_kind.target() {
        Some(to) => Some(location_hash(MemoryLocation::Basic(to))),
        None => None,
    }
}

/// Whether the address is not one side of a lazy transfer.
pub open spec fn is_read<S: Storage>(db: VmDb<S>, address: Address) -> bool {
    let location = location_hash(MemoryLocation::Basic(address));
    !(db.is_lazy && (location == db.from_hash || Some(location) == db.to_hash))
}

/// An account that a transaction is told of has the balance and the nonce that the entries of earlier
/// transactions come to, on top of the full account among them, else of what storage holds, else of
/// nothing.
pub proof fn law_accounts_are_told_as_they_stand<S: Storage>(
    db: VmDb<S>,
    address: Address,
    info: AccountInfo,
    after: VmDb<S>,
)
    requires
        hashes_are_own(db),
        is_read(db, address),
        db.basic_read(address, Ok(Some(info)), after),
    ensures
        walk(
            entries_before(db, address),
            origins_at(db.read_set@, location_hash(MemoryLocation::Basic(address))),
            0,
            0,
            0,
        ) matches Ok(w) && exists|base: AccountBasic| #[trigger]
            is_base(db, address, w, base) && {
                &&& info.balance@ == clamp(base.balance@ + w.delta, 0, u256_max())
                &&& info.nonce == (base.nonce + w.nonce_add) % 0x1_0000_0000_0000_0000
            },
        address == db.tx_caller ==> info.nonce == db.tx_nonce,
        after.read_accounts@.contains_key(location_hash(MemoryLocation::Basic(address))),
        after.read_accounts@[location_hash(MemoryLocation::Basic(address))].0 == (AccountBasic {
            balance: info.balance,
            nonce: info.nonce,
        }),
        info.code_hash == match after.read_accounts@[location_hash(
            MemoryLocation::Basic(address),
        )].1 {
            Some(h) => h,
            None => keccak_empty_spec(),
        },
{
    let location = location_hash(MemoryLocation::Basic(address));
    assert(db.basic_hash(address) == location);
    let entries = entries_before(db, address);
    let prior = origins_at(db.read_set@, location);
    let w = walk(entries, prior, 0, 0, 0)->Ok_0;
    match w.base {
        Some(base) => {
            let noted = choose|noted: VmDb<S>| #[trigger]
                db.with_origins(
                    location,
                    kept(
                        prior,
                        versions(entries, w.depth),
                    ),
                    noted,
                ) && noted.settled(address, location, base, w, Ok(Some(info)), after);
            lemma_told(noted, address, location, base, w, info, after);
            assert(is_base(db, address, w, base));
        },
        None => {
            let reply = choose|reply: Result<Option<AccountBasic>, String>| #[trigger]
                answers_basic(db.storage, address, reply) && db.storage_read(
                    address,
                    location,
                    entries,
                    w,
                    reply,
                    Ok(Some(info)),
                    after,
                );
            let origins = kept(
                prior,
                versions(entries, w.depth).push(ReadOrigin::Storage),
            );
            match reply {
                Ok(Some(base)) => {
                    let noted = choose|noted: VmDb<S>| #[trigger]
                        db.with_origins(location, origins, noted) && noted.settled(
                            address,
                            location,
                            base,
                            w,
                            Ok(Some(info)),
                            after,
                        );
                    lemma_told(noted, address, location, base, w, info, after);
                    assert(is_base(db, address, w, base));
                },
                _ => {
                    let (noted, base) = choose|noted: VmDb<S>, base: AccountBasic| #[trigger]
                        db.with_origins(location, origins, noted) && base.balance@ == 0
                            && base.nonce == 0 && #[trigger] noted.settled(
                            address,
                            location,
                            base,
                            w,
                            Ok(Some(info)),
                            after,
                        );
                    lemma_told(noted, address, location, base, w, info, after);
                    assert(is_base(db, address, w, base));
                },
            }
        },
    }
}

/// Whether the account is what lazy entries are added to: the full account among the entries, else what
/// storage holds, else an account without balance and nonce.
pub open spec fn is_base<S: Storage>(
    db: VmDb<S>,
    address: Address,
    w: Walked,
    base: AccountBasic,
) -> bool {
    match w.base {
        Some(found) => base == found,
        None => exists|reply: Result<Option<AccountBasic>, String>| #[trigger]
            answers_basic(db.storage, address, reply) && match reply {
                Ok(Some(held)) => base == held,
                Ok(None) => base.balance@ == 0 && base.nonce == 0,
                Err(_) => false,
            },
    }
}

proof fn lemma_told<S: Storage>(
    db: VmDb<S>,
    address: Address,
    location: MemoryLocationHash,
    base: AccountBasic,
    w: Walked,
    info: AccountInfo,
    after: VmDb<S>,
)
    requires
        db.settled(address, location, base, w, Ok(Some(info)), after),
    ensures
        info.balance@ == clamp(base.balance@ + w.delta, 0, u256_max()),
        info.nonce == (base.nonce + w.nonce_add) % 0x1_0000_0000_0000_0000,
        location == db.from_hash ==> info.nonce == db.tx_nonce,
        after.read_accounts@.contains_key(location),
        after.read_accounts@[location].0 == (AccountBasic {
            balance: info.balance,
            nonce: info.nonce,
        }),
        info.code_hash == match after.read_accounts@[location].1 {
            Some(h) => h,
            None => keccak_empty_spec(),
        },
{
}

/// An account that nobody has written in the block is told as storage holds it, and is not there where
/// storage has none.
pub proof fn law_untouched_accounts_are_those_of_storage<S: Storage>(
    db: VmDb<S>,
    address: Address,
    r: Result<Option<AccountInfo>, ReadError>,
    after: VmDb<S>,
)
    requires
        hashes_are_own(db),
        is_read(db, address),
        entries_before(db, address).len() == 0,
        !db.read_set@.contains_key(location_hash(MemoryLocation::Basic(address))),
        db.basic_read(address, r, after),
    ensures
        exists|reply: Result<Option<AccountBasic>, String>| #[trigger]
            answers_basic(db.storage, address, reply) && match reply {
                Err(e) => r == Err::<Option<AccountInfo>, _>(ReadError::StorageError(e)),
                Ok(None) => r == Ok::<Option<AccountInfo>, ReadError>(None),
                Ok(Some(held)) => (r matches Ok(told) ==> told matches Some(info) && info.balance@
                    == held.balance@ && info.nonce == held.nonce),
            },
{
    let location = location_hash(MemoryLocation::Basic(address));
    assert(db.basic_hash(address) == location);
    let entries = entries_before(db, address);
    let w = Walked { base: None, delta: 0, nonce_add: 0, depth: 0 };
    assert(walk(entries, Seq::empty(), 0, 0, 0) == Ok::<_, ReadError>(w));
    let reply = choose|reply: Result<Option<AccountBasic>, String>| #[trigger]
        answers_basic(db.storage, address, reply) && db.storage_read(
            address,
            location,
            entries,
            w,
            reply,
            r,
            after,
        );
    if let Ok(Some(held)) = reply {
        lemma_u256_bounds(held.balance);
        let origins = kept(
            Seq::empty(),
            versions(entries, w.depth).push(ReadOrigin::Storage),
        );
        let noted = choose|noted: VmDb<S>| #[trigger]
            db.with_origins(location, origins, noted) && noted.settled(
                address,
                location,
                held,
                w,
                r,
                after,
            );
        if let Ok(told) = r {
            assert(told is Some);
            lemma_told(noted, address, location, held, w, told->0, after);
        }
    }
}

/// Whether the code is what the hash stands for: that which the block has deployed, else that which
/// storage holds; no hash stands for no code.
pub open spec fn is_code_of<S: Storage>(
    db: VmDb<S>,
    hash: Option<B256>,
    code: Option<Arc<EvmCode>>,
) -> bool {
    match hash {
        None => code is None,
        Some(h) => if db.mv_memory@.codes.contains_key(h) {
            code == Some(db.mv_memory@.codes[h])
        } else {
            exists|reply: Result<Option<Arc<EvmCode>>, String>| #[trigger]
                answers_code(db.storage, h, reply) && reply == Ok::<_, String>(code)
        },
    }
}

proof fn lemma_told_code<S: Storage>(
    db: VmDb<S>,
    address: Address,
    location: MemoryLocationHash,
    base: AccountBasic,
    w: Walked,
    info: AccountInfo,
    after: VmDb<S>,
)
    requires
        db.settled(address, location, base, w, Ok(Some(info)), after),
    ensures
        is_code_of(db, after.read_accounts@[location].1, info.code),
        Some(location) == db.to_hash ==> after.read_accounts@[location].1 == db.to_code_hash,
        Some(location) != db.to_hash ==> code_hash_read(
            db.storage,
            address,
            code_hash_lookup(
                db.mv_memory@.data,
                db.tx_idx,
                location_hash(MemoryLocation::CodeHash(address)),
                origins_at(db.read_set@, location_hash(MemoryLocation::CodeHash(address))),
            ).found,
            Ok(after.read_accounts@[location].1),
        ),
{
}

/// An account that a transaction is told of comes with its code: the called account with the code hash
/// that was read first, any other with the code hash that the transaction finds, and with the code that
/// the hash stands for.
pub proof fn law_accounts_are_told_with_their_code<S: Storage>(
    db: VmDb<S>,
    address: Address,
    info: AccountInfo,
    after: VmDb<S>,
)
    requires
        hashes_are_own(db),
        is_read(db, address),
        db.basic_read(address, Ok(Some(info)), after),
        location_hash(MemoryLocation::Basic(address)) != location_hash(
            MemoryLocation::CodeHash(address),
        ),
    ensures
        ({
            let hash = after.read_accounts@[location_hash(MemoryLocation::Basic(address))].1;
            let location = location_hash(MemoryLocation::CodeHash(address));
            &&& is_code_of(db, hash, info.code)
            &&& if Some(location_hash(MemoryLocation::Basic(address))) == db.to_hash {
                hash == db.to_code_hash
            } else {
                code_hash_read(
                    db.storage,
                    address,
                    code_hash_lookup(
                        db.mv_memory@.data,
                        db.tx_idx,
                        location,
                        origins_at(db.read_set@, location),
                    ).found,
                    Ok(hash),
                )
            }
        }),
{
    let location = location_hash(MemoryLocation::Basic(address));
    assert(db.basic_hash(address) == location);
    let entries = entries_before(db, address);
    let prior = origins_at(db.read_set@, location);
    let w = walk(entries, prior, 0, 0, 0)->Ok_0;
    match w.base {
        Some(base) => {
            let noted = choose|noted: VmDb<S>| #[trigger]
                db.with_origins(location, kept(prior, versions(entries, w.depth)), noted)
                    && noted.settled(address, location, base, w, Ok(Some(info)), after);
            lemma_told_code(noted, address, location, base, w, info, after);
        },
        None => {
            let reply = choose|reply: Result<Option<AccountBasic>, String>| #[trigger]
                answers_basic(db.storage, address, reply) && db.storage_read(
                    address,
                    location,
                    entries,
                    w,
                    reply,
                    Ok(Some(info)),
                    after,
                );
            let origins = kept(prior, versions(entries, w.depth).push(ReadOrigin::Storage));
            match reply {
                Ok(Some(base)) => {
                    let noted = choose|noted: VmDb<S>| #[trigger]
                        db.with_origins(location, origins, noted) && noted.settled(
                            address,
                            location,
                            base,
                            w,
                            Ok(Some(info)),
                            after,
                        );
                    lemma_told_code(noted, address, location, base, w, info, after);
                },
                _ => {
                    let (noted, base) = choose|noted: VmDb<S>, base: AccountBasic| #[trigger]
                        db.with_origins(location, origins, noted) && base.balance@ == 0
                            && base.nonce == 0 && #[trigger] noted.settled(
                            address,
                            location,
                            base,
                            w,
                            Ok(Some(info)),
                            after,
                        );
                    lemma_told_code(noted, address, location, base, w, info, after);
                },
            }
        },
    }
}

/// The sides of a lazy transfer are not looked up: the sender is told of with all there is to spend and
/// with the nonce that it needs, the recipient is not there, and nothing is remembered of either.
pub proof fn law_lazy_sides_are_not_read<S: Storage>(
    db: VmDb<S>,
    address: Address,
    r: Result<Option<AccountInfo>, ReadError>,
    after: VmDb<S>,
)
    requires
        hashes_are_own(db),
        db.is_lazy,
        db.basic_read(address, r, after),
    ensures
        address == db.tx_caller ==> (r matches Ok(Some(info)) && info.nonce == db.tx_nonce
            && info.balance@ == u256_max() && info.code_hash == keccak_empty_spec()),
        Some(address) == db.tx_kind.target() && location_hash(MemoryLocation::Basic(address))
            != db.from_hash ==> r == Ok::<Option<AccountInfo>, ReadError>(None),
        !is_read(db, address) ==> after.read_set@ == db.read_set@ && after.read_accounts@
            == db.read_accounts@,
{
}

/// A transfer is lazy exactly where it calls an account without code and one of its sides stands in the
/// memory.
pub proof fn law_transfers_are_lazy<S: Storage>(
    mv_memory: &MvMemory,
    storage: &S,
    tx_idx: TxIdx,
    tx: TxEnv,
    from_hash: MemoryLocationHash,
    to_hash: Option<MemoryLocationHash>,
    db: VmDb<S>,
)
    requires
        VmDb::<S>::started(mv_memory, storage, tx_idx, tx, from_hash, to_hash, Ok(db)),
        tx.kind is Call ==> to_hash is Some,
    ensures
        db.is_lazy <==> tx.kind is Call && db.to_code_hash is None && (
        mv_memory@.data.contains_key(from_hash) || mv_memory@.data.contains_key(to_hash->0)),
        tx.kind is Create ==> db.to_code_hash is None,
        db.tx_idx == tx_idx,
        db.mv_memory == mv_memory,
        db.storage == storage,
        db.tx_caller == tx.caller,
        db.tx_nonce == tx.nonce,
{
}

/// A transaction reads from a slot what the closest earlier transaction has left there, and asks storage
/// only where none has left anything.
pub proof fn law_slots_are_read_as_they_were_left(
    data: MemoryData,
    tx_idx: TxIdx,
    location: MemoryLocationHash,
)
    ensures
        ({
            let found = slot_lookup(data, tx_idx, location, Seq::empty()).found;
            match closest_before(entries_at(data, location), tx_idx) {
                None => found == Ok::<Option<U256>, ReadError>(None),
                Some((t, MemoryEntry::Estimate)) => found == Err::<Option<U256>, _>(
                    ReadError::Blocking(t),
                ),
                Some((_, MemoryEntry::Data(_, value))) => match value {
                    MemoryValue::Storage(v) => found == Ok::<_, ReadError>(Some(v)),
                    _ => found is Err,
                },
            }
        }),
{
}

/// A transaction is told of the code hash that the closest earlier transaction has left, or that the
/// account is destroyed; storage is asked where none has left a code hash.
pub proof fn law_code_hashes_are_read_as_they_were_left<S: Storage>(
    storage: &S,
    address: Address,
    data: MemoryData,
    tx_idx: TxIdx,
    r: Result<Option<B256>, ReadError>,
)
    requires
        ({
            let location = location_hash(MemoryLocation::CodeHash(address));
            code_hash_read(
                storage,
                address,
                code_hash_lookup(data, tx_idx, location, Seq::empty()).found,
                r,
            )
        }),
    ensures
        match closest_before(
            entries_at(data, location_hash(MemoryLocation::CodeHash(address))),
            tx_idx,
        ) {
            Some((_, MemoryEntry::Data(_, MemoryValue::CodeHash(h)))) => r == Ok::<_, ReadError>(
                Some(h),
            ),
            Some((_, MemoryEntry::Data(_, MemoryValue::SelfDestructed))) => r == Err::<
                Option<B256>,
                _,
            >(ReadError::SelfDestructedAccount),
            _ => exists|reply: Result<Option<B256>, String>| #[trigger]
                answers_code_hash(storage, address, reply) && r == match reply {
                    Ok(held) => Ok(held),
                    Err(e) => Err(ReadError::StorageError(e)),
                },
        },
{
}

/// An account that storage serves to the virtual machine has the balance, the nonce, the code hash and
/// the code that storage holds; it has the hash of no code where storage holds none.
pub proof fn law_served_accounts_are_those_of_storage<S: Storage>(
    storage: &S,
    address: Address,
    r: Result<Option<AccountInfo>, StorageWrapperError<String>>,
)
    requires
        served_account(storage, address, r),
    ensures
        r == Ok::<Option<AccountInfo>, StorageWrapperError<String>>(None) ==> exists|
            reply: Result<Option<AccountBasic>, String>,
        | #[trigger] answers_basic(storage, address, reply) && reply == Ok::<
            Option<AccountBasic>,
            String,
        >(None),
        r matches Ok(Some(info)) ==> exists|
            reply: Result<Option<AccountBasic>, String>,
            hash: Result<Option<B256>, String>,
        |
            {
                &&& #[trigger] answers_basic(storage, address, reply)
                &&& #[trigger] answers_code_hash(storage, address, hash)
                &&& reply matches Ok(Some(held)) && held.balance == info.balance && held.nonce
                    == info.nonce
                &&& match hash {
                    Ok(Some(h)) => {
                        &&& info.code_hash == h
                        &&& exists|code: Result<Option<Arc<EvmCode>>, String>| #[trigger]
                            answers_code(storage, h, code) && code == Ok::<_, String>(info.code)
                    },
                    Ok(None) => info.code_hash == keccak_empty_spec() && info.code is None,
                    Err(_) => false,
                }
            },
{
}

} // verus!
