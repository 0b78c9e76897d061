//! The concurrent and hashed collections that the executor keeps its memory in. What each holds
//! has a name, and each operation states what it does to the named contents.

use crate::parallel::hashers::{IdentityHasher, SuffixHasher};
use crate::parallel::history::WriteHistory;
use crate::parallel::memory::{
    AccountBasic, MemoryEntry, MemoryLocationHash, ReadOrigin, TxIdx,
};
use crate::parallel::storage::EvmCode;
use crate::primitives::B256;
use dashmap::DashMap;
use std::hash::BuildHasherDefault;
use std::sync::Arc;
use vstd::prelude::*;

verus! {

/// Hashes keys by the last run of 8 bytes or more that is written of them.
pub type BuildSuffixHasher = BuildHasherDefault<SuffixHasher>;

/// Hashes integer keys to themselves.
pub type BuildIdentityHasher = BuildHasherDefault<IdentityHasher>;

#[verifier::external_type_specification]
#[verifier::external_body]
#[verifier::reject_recursive_types(H)]
pub struct ExBuildHasherDefault<H>(BuildHasherDefault<H>);

#[verifier::external_type_specification]
#[verifier::external_body]
#[verifier::reject_recursive_types(K)]
#[verifier::reject_recursive_types(V)]
#[verifier::reject_recursive_types(S)]
pub struct ExDashMap<K, V, S>(DashMap<K, V, S>);

/// The write histories of all memory locations.
pub type LocationMap = DashMap<MemoryLocationHash, WriteHistory, BuildIdentityHasher>;

/// What a `LocationMap` holds.
pub uninterp spec fn location_contents(map: LocationMap) -> Map<
    MemoryLocationHash,
    Map<TxIdx, MemoryEntry>,
>;

/// `dashmap::DashMap::default`: a map that holds nothing.
#[verifier::external_body]
pub(crate) fn new_locations() -> (r: LocationMap)
    ensures
        location_contents(r).dom() == Set::<MemoryLocationHash>::empty(),
{
    DashMap::default()
}

/// `dashmap::DashMap::contains_key`: whether the location has a history.
#[verifier::external_body]
pub(crate) fn has_location(map: &LocationMap, location: MemoryLocationHash) -> (r: bool)
    ensures
        r == location_contents(*map).contains_key(location),
{
    map.contains_key(&location)
}

/// `dashmap::DashMap::get`: a copy of the history of the location, if it has one.
#[verifier::external_body]
pub(crate) fn get_location(map: &LocationMap, location: MemoryLocationHash) -> (r: Option<
    WriteHistory,
>)
    ensures
        match r {
            Some(h) => location_contents(*map).contains_key(location) && h@ == location_contents(
                *map,
            )[location],
            None => !location_contents(*map).contains_key(location),
        },
{
    map.get(&location).map(|entry| entry.value().clone())
}

/// `dashmap::DashMap::insert`, on a map that nobody else holds: the history becomes that of the
/// location, in place of one that was there.
#[verifier::external_body]
pub(crate) fn put_location(
    map: &mut LocationMap,
    location: MemoryLocationHash,
    history: WriteHistory,
)
    ensures
        location_contents(*final(map)) == location_contents(*old(map)).insert(location, history@),
{
    map.insert(location, history);
}

/// `dashmap::DashMap::remove`, on a map that nobody else holds: takes the history of the location
/// out, if it has one.
#[verifier::external_body]
pub(crate) fn take_location(map: &mut LocationMap, location: MemoryLocationHash) -> (r: Option<
    WriteHistory,
>)
    ensures
        location_contents(*final(map)) == location_contents(*old(map)).remove(location),
        match r {
            Some(h) => location_contents(*old(map)).contains_key(location) && h@
                == location_contents(*old(map))[location],
            None => !location_contents(*old(map)).contains_key(location),
        },
{
    map.remove(&location).map(|pair| pair.1)
}

/// Code by its hash.
pub type CodeMap = DashMap<(u128, u128), Arc<EvmCode>, BuildSuffixHasher>;

/// What a `CodeMap` holds.
pub uninterp spec fn code_contents(map: CodeMap) -> Map<B256, Arc<EvmCode>>;

/// `dashmap::DashMap::default`: a map that holds nothing.
#[verifier::external_body]
pub(crate) fn new_codes() -> (r: CodeMap)
    ensures
        code_contents(r).dom() == Set::<B256>::empty(),
{
    DashMap::default()
}

/// `dashmap::DashMap::get`: the code under the hash, if there is one.
#[verifier::external_body]
pub(crate) fn get_code(map: &CodeMap, hash: B256) -> (r: Option<Arc<EvmCode>>)
    ensures
        match r {
            Some(c) => code_contents(*map).contains_key(hash) && c == code_contents(*map)[hash],
            None => !code_contents(*map).contains_key(hash),
        },
{
    map.get(&(hash.hi, hash.lo)).map(|entry| entry.value().clone())
}

/// `dashmap::DashMap::insert`, on a map that nobody else holds.
#[verifier::external_body]
pub(crate) fn put_code(map: &mut CodeMap, hash: B256, code: Arc<EvmCode>)
    ensures
        code_contents(*final(map)) == code_contents(*old(map)).insert(hash, code),
{
    map.insert((hash.hi, hash.lo), code);
}

/// The origins of the reads of one location: one for most, more for a lazily updated account.
#[verifier::external_body]
pub struct ReadOrigins {
    inner: smallvec::SmallVec<[ReadOrigin; 1]>,
}

/// What a `ReadOrigins` holds, in order.
pub uninterp spec fn origin_contents(origins: ReadOrigins) -> Seq<ReadOrigin>;

impl View for ReadOrigins {
    type V = Seq<ReadOrigin>;

    open spec fn view(&self) -> Seq<ReadOrigin> {
        origin_contents(*self)
    }
}

impl ReadOrigins {
    /// `smallvec::SmallVec::new`: no origins.
    #[verifier::external_body]
    pub(crate) fn new() -> (r: Self)
        ensures
            origin_contents(r) == Seq::<ReadOrigin>::empty(),
    {
        ReadOrigins { inner: smallvec::SmallVec::new() }
    }

    /// `smallvec::SmallVec::push`: adds an origin at the end.
    #[verifier::external_body]
    pub(crate) fn push(&mut self, origin: ReadOrigin)
        ensures
            origin_contents(*final(self)) == origin_contents(*old(self)).push(origin),
    {
        self.inner.push(origin);
    }

    /// The length of the slice that a `smallvec::SmallVec` dereferences to.
    #[verifier::external_body]
    pub(crate) fn len(&self) -> (r: usize)
        ensures
            r == origin_contents(*self).len(),
    {
        self.inner.len()
    }

    /// An element of the slice that a `smallvec::SmallVec` dereferences to.
    #[verifier::external_body]
    pub(crate) fn get(&self, i: usize) -> (r: ReadOrigin)
        requires
            i < origin_contents(*self).len(),
        ensures
            r == origin_contents(*self)[i as int],
    {
        self.inner[i]
    }
}

/// The origins of all reads of one execution.
#[verifier::external_body]
pub struct ReadSet {
    inner: hashbrown::HashMap<MemoryLocationHash, ReadOrigins, BuildIdentityHasher>,
}

/// What a `ReadSet` holds.
pub uninterp spec fn read_contents(reads: ReadSet) -> Map<MemoryLocationHash, Seq<ReadOrigin>>;

impl View for ReadSet {
    type V = Map<MemoryLocationHash, Seq<ReadOrigin>>;

    open spec fn view(&self) -> Map<MemoryLocationHash, Seq<ReadOrigin>> {
        read_contents(*self)
    }
}

impl ReadSet {
    /// `hashbrown::HashMap::with_capacity_and_hasher`: a map that holds nothing. It panics on a
    /// capacity that no memory can hold.
    #[verifier::external_body]
    pub(crate) fn with_capacity(capacity: usize) -> (r: Self)
        requires
            capacity <= u8::MAX,
        ensures
            read_contents(r).dom() == Set::<MemoryLocationHash>::empty(),
    {
        ReadSet { inner: hashbrown::HashMap::with_capacity_and_hasher(capacity, Default::default()) }
    }

    /// `hashbrown::HashMap::insert`: the origins become those of the location.
    #[verifier::external_body]
    pub(crate) fn insert(&mut self, location: MemoryLocationHash, origins: ReadOrigins)
        ensures
            read_contents(*final(self)) == read_contents(*old(self)).insert(
                location,
                origin_contents(origins),
            ),
    {
        self.inner.insert(location, origins);
    }

    /// `hashbrown::HashMap::remove`: takes the origins of the location out, if it has any.
    #[verifier::external_body]
    pub(crate) fn take(&mut self, location: MemoryLocationHash) -> (r: Option<ReadOrigins>)
        ensures
            read_contents(*final(self)) == read_contents(*old(self)).remove(location),
            match r {
                Some(o) => read_contents(*old(self)).contains_key(location) && origin_contents(o)
                    == read_contents(*old(self))[location],
                None => !read_contents(*old(self)).contains_key(location),
            },
    {
        self.inner.remove(&location)
    }

    /// `hashbrown::HashMap::iter`: every location with its origins, once each. In which order they
    /// come is not stated.
    #[verifier::external_body]
    pub(crate) fn entries(&self) -> (r: Vec<(MemoryLocationHash, &ReadOrigins)>)
        ensures
            forall|i: int|
                0 <= i < r@.len() ==> read_contents(*self).contains_key(#[trigger] r@[i].0)
                    && read_contents(*self)[r@[i].0] == origin_contents(*r@[i].1),
            forall|k: MemoryLocationHash| #[trigger]
                read_contents(*self).contains_key(k) ==> exists|i: int|
                    0 <= i < r@.len() && #[trigger] r@[i].0 == k,
            forall|i: int, j: int|
                0 <= i < j < r@.len() ==> #[trigger] r@[i].0 != #[trigger] r@[j].0,
    {
        self.inner.iter().map(|pair| (*pair.0, pair.1)).collect()
    }
}

/// The accounts that one execution has read, with the code hash that came with each.
#[verifier::external_body]
pub struct ReadAccounts {
    inner: hashbrown::HashMap<
        MemoryLocationHash,
        (AccountBasic, Option<B256>),
        BuildIdentityHasher,
    >,
}

/// What a `ReadAccounts` holds.
pub uninterp spec fn account_contents(accounts: ReadAccounts) -> Map<
    MemoryLocationHash,
    (AccountBasic, Option<B256>),
>;

impl View for ReadAccounts {
    type V = Map<MemoryLocationHash, (AccountBasic, Option<B256>)>;

    open spec fn view(&self) -> Map<MemoryLocationHash, (AccountBasic, Option<B256>)> {
        account_contents(*self)
    }
}

impl ReadAccounts {
    /// `hashbrown::HashMap::with_capacity_and_hasher`: a map that holds nothing. It panics on a
    /// capacity that no memory can hold.
    #[verifier::external_body]
    pub(crate) fn with_capacity(capacity: usize) -> (r: Self)
        requires
            capacity <= u8::MAX,
        ensures
            account_contents(r).dom() == Set::<MemoryLocationHash>::empty(),
    {
        ReadAccounts {
            inner: hashbrown::HashMap::with_capacity_and_hasher(capacity, Default::default()),
        }
    }

    /// `hashbrown::HashMap::insert`: the account becomes that of the location.
    #[verifier::external_body]
    pub(crate) fn insert(
        &mut self,
        location: MemoryLocationHash,
        account: (AccountBasic, Option<B256>),
    )
        ensures
            account_contents(*final(self)) == account_contents(*old(self)).insert(
                location,
                account,
            ),
    {
        self.inner.insert(location, account);
    }

    /// `hashbrown::HashMap::get`: the account of the location, if it was read.
    #[verifier::external_body]
    pub(crate) fn get(&self, location: MemoryLocationHash) -> (r: Option<
        (AccountBasic, Option<B256>),
    >)
        ensures
            match r {
                Some(a) => account_contents(*self).contains_key(location) && a == account_contents(
                    *self,
                )[location],
                None => !account_contents(*self).contains_key(location),
            },
    {
        self.inner.get(&location).copied()
    }
}

} // verus!
