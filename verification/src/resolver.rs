//! Resolving destination names, with an optional cache.
//!
//! The lookup itself is the caller's work. The cache decides whether one is
//! needed, and keeps what a successful one found for a fixed time to live.
//! A failed lookup leaves no trace, so that a passing fault of the name
//! service is not remembered. Time is a count of seconds that the caller
//! reads from a clock of its choice.

use vstd::prelude::*;
use crate::address::{Host, HostView};
use crate::table;
use crate::wire::{bytes_equal, copy_bytes};

verus! {

/// The most names that the cache holds. When a new name arrives at a full
/// cache, the cache starts over with that name alone.
pub const MAX_ENTRIES: usize = 1024;

/// The time to live of an entry where the configuration names none.
pub const DEFAULT_TTL: u64 = 30;

/// A resolved address.
#[derive(Debug, Clone, Copy, PartialEq, Eq)]
pub enum IpAddress {
    V4([u8; 4]),
    V6([u8; 16]),
}

/// Why a name has no address.
#[derive(Debug, Clone, Copy, PartialEq, Eq, Structural)]
pub enum ResolveError {
    /// The lookup found nothing.
    NotFound,
}

/// What to do about a destination host.
#[derive(Debug, Clone, Copy, PartialEq, Eq)]
pub enum Lookup {
    /// The address is known: the host is a literal, or the cache has it.
    Known(IpAddress),
    /// The name has to be looked up.
    Needed,
}

/// What the cache remembers of one name.
pub struct Cached {
    pub addr: IpAddress,
    /// When the address was stored.
    pub stored_at: u64,
}

/// The cache as the contracts see it.
pub struct CacheView {
    /// Whether the configuration asks for caching at all.
    pub enabled: bool,
    /// How long an entry counts, in seconds.
    pub ttl: u64,
    /// What is remembered, by name.
    pub entries: Map<Seq<u8>, Cached>,
}

/// Whether what was stored at `stored_at` still counts at `now`: it is
/// younger than `ttl`. An entry from the future of a clock that has been
/// set back does not count.
pub open spec fn is_fresh(stored_at: u64, now: u64, ttl: u64) -> bool {
    stored_at <= now && now - stored_at < ttl
}

impl CacheView {
    /// The address that the cache has for `name` at `now`, if it has one
    /// that still counts.
    pub open spec fn hit(self, name: Seq<u8>, now: u64) -> Option<IpAddress> {
        if self.enabled && self.entries.contains_key(name) && is_fresh(
            self.entries[name].stored_at,
            now,
            self.ttl,
        ) {
            Some(self.entries[name].addr)
        } else {
            None
        }
    }

    /// The cache after `addr` has been stored for `name` at `now`.
    pub open spec fn store(self, name: Seq<u8>, addr: IpAddress, now: u64) -> CacheView {
        if !self.enabled {
            self
        } else if self.entries.contains_key(name) || self.entries.dom().len() < MAX_ENTRIES {
            CacheView { entries: self.entries.insert(name, Cached { addr, stored_at: now }), ..self }
        } else {
            CacheView {
                entries: Map::<Seq<u8>, Cached>::empty().insert(
                    name,
                    Cached { addr, stored_at: now },
                ),
                ..self
            }
        }
    }

    /// What to do about `host` at `now`.
    pub open spec fn plan(self, host: HostView, now: u64) -> LookupView {
        match host {
            HostView::Ipv4(a) => LookupView::KnownV4(a),
            HostView::Ipv6(a) => LookupView::KnownV6(a),
            HostView::Domain(n) => match self.hit(n, now) {
                Some(addr) => LookupView::Cached(addr),
                None => LookupView::Needed,
            },
        }
    }

    /// What holds of every cache: it is finite and within its bound.
    pub open spec fn wf(self) -> bool {
        self.entries.dom().finite() && self.entries.dom().len() <= MAX_ENTRIES
    }
}

/// What to do about a host, as the contracts see it.
pub enum LookupView {
    /// The host is this IPv4 literal.
    KnownV4(Seq<u8>),
    /// The host is this IPv6 literal.
    KnownV6(Seq<u8>),
    /// The cache has this address for the name.
    Cached(IpAddress),
    /// The name has to be looked up.
    Needed,
}

/// Whether `l` is what `v` describes.
pub open spec fn lookup_matches(l: Lookup, v: LookupView) -> bool {
    match v {
        LookupView::KnownV4(a) => l matches Lookup::Known(IpAddress::V4(b)) && b@ == a,
        LookupView::KnownV6(a) => l matches Lookup::Known(IpAddress::V6(b)) && b@ == a,
        LookupView::Cached(addr) => l == Lookup::Known(addr),
        LookupView::Needed => l == Lookup::Needed,
    }
}

/// An address that has been stored is found for as long as it is younger
/// than the time to live, and not a second longer.
pub proof fn law_stored_address_expires(c: CacheView, name: Seq<u8>, addr: IpAddress, at: u64, now: u64)
    requires
        c.enabled,
    ensures
        c.store(name, addr, at).hit(name, now) == (if at <= now && now - at < c.ttl {
            Some(addr)
        } else {
            None::<IpAddress>
        }),
{
}

/// Storing one name leaves what the cache answers for every other name as
/// it was, unless the cache was full and started over; then it answers
/// nothing for them. It never answers with an address that was not stored
/// for the name asked.
pub proof fn law_store_keeps_other_names(
    c: CacheView,
    name: Seq<u8>,
    addr: IpAddress,
    at: u64,
    other: Seq<u8>,
    now: u64,
)
    requires
        other != name,
    ensures
        c.store(name, addr, at).hit(other, now) == c.hit(other, now) || c.store(
            name,
            addr,
            at,
        ).hit(other, now).is_none(),
        (!c.enabled || c.entries.contains_key(name) || c.entries.dom().len() < MAX_ENTRIES)
            ==> c.store(name, addr, at).hit(other, now) == c.hit(other, now),
{
}

/// A cache that is switched off never answers.
pub proof fn law_disabled_cache_never_hits(c: CacheView, name: Seq<u8>, now: u64)
    requires
        !c.enabled,
    ensures
        c.hit(name, now).is_none(),
{
}

struct Entry {
    name: Vec<u8>,
    addr: IpAddress,
    stored_at: u64,
}

/// A cache of resolved names.
pub struct AddressCache {
    enabled: bool,
    ttl: u64,
    entries: Vec<Entry>,
}

spec fn name_of() -> spec_fn(Entry) -> Seq<u8> {
    |e: Entry| e.name@
}

spec fn cached_fn() -> spec_fn(Entry) -> Cached {
    |e: Entry| cached_of(e)
}

spec fn cached_of(e: Entry) -> Cached {
    Cached { addr: e.addr, stored_at: e.stored_at }
}

spec fn has_name(entries: Seq<Entry>, name: Seq<u8>) -> bool {
    table::has_key(entries, name_of(), name)
}

spec fn index_of(entries: Seq<Entry>, name: Seq<u8>) -> int {
    table::index_of(entries, name_of(), name)
}

spec fn unique_names(entries: Seq<Entry>) -> bool {
    table::unique(entries, name_of())
}

spec fn map_of(entries: Seq<Entry>) -> Map<Seq<u8>, Cached> {
    table::table(entries, name_of(), cached_fn())
}

proof fn lemma_at(entries: Seq<Entry>, i: int)
    requires
        unique_names(entries),
        0 <= i < entries.len(),
    ensures
        has_name(entries, entries[i].name@),
        index_of(entries, entries[i].name@) == i,
        map_of(entries).contains_key(entries[i].name@),
        map_of(entries)[entries[i].name@] == cached_of(entries[i]),
{
    table::lemma_at(entries, name_of(), cached_fn(), i);
}

proof fn lemma_push(entries: Seq<Entry>, e: Entry)
    requires
        unique_names(entries),
        !has_name(entries, e.name@),
    ensures
        unique_names(entries.push(e)),
        map_of(entries.push(e)) == map_of(entries).insert(e.name@, cached_of(e)),
{
    table::lemma_push(entries, name_of(), cached_fn(), e);
}

proof fn lemma_update(entries: Seq<Entry>, i: int, e: Entry)
    requires
        unique_names(entries),
        0 <= i < entries.len(),
        e.name@ == entries[i].name@,
    ensures
        unique_names(entries.update(i, e)),
        map_of(entries.update(i, e)) == map_of(entries).insert(e.name@, cached_of(e)),
{
    table::lemma_update(entries, name_of(), cached_fn(), i, e);
}

proof fn lemma_len(entries: Seq<Entry>)
    requires
        unique_names(entries),
    ensures
        map_of(entries).dom().finite(),
        map_of(entries).dom().len() == entries.len(),
{
    table::lemma_len(entries, name_of(), cached_fn());
}

impl View for AddressCache {
    type V = CacheView;

    closed spec fn view(&self) -> CacheView {
        CacheView { enabled: self.enabled, ttl: self.ttl, entries: map_of(self.entries@) }
    }
}

impl AddressCache {
    /// What holds of every cache.
    pub closed spec fn wf(&self) -> bool {
        unique_names(self.entries@) && self.entries@.len() <= MAX_ENTRIES
    }

    /// A well-formed cache has a well-formed view.
    pub proof fn lemma_view_wf(&self)
        requires
            self.wf(),
        ensures
            self@.wf(),
    {
        lemma_len(self.entries@);
    }

    /// An empty cache. With `enabled` false it stays empty and never
    /// answers.
    pub fn new(enabled: bool, ttl: u64) -> (c: AddressCache)
        ensures
            c.wf(),
            c@ == (CacheView { enabled, ttl, entries: Map::<Seq<u8>, Cached>::empty() }),
    {
        let c = AddressCache { enabled, ttl, entries: Vec::new() };
        proof {
            assert(map_of(c.entries@) =~= Map::<Seq<u8>, Cached>::empty());
        }
        c
    }

    /// The number of names that are remembered.
    pub fn len(&self) -> (n: usize)
        requires
            self.wf(),
        ensures
            n == self@.entries.dom().len(),
            n <= MAX_ENTRIES,
    {
        proof {
            lemma_len(self.entries@);
        }
        self.entries.len()
    }

    fn find(&self, name: &[u8]) -> (r: Option<usize>)
        requires
            unique_names(self.entries@),
        ensures
            match r {
                Some(i) => i < self.entries@.len() && self.entries@[i as int].name@ == name@
                    && self@.entries.contains_key(name@) && self@.entries[name@] == cached_of(
                    self.entries@[i as int],
                ),
                None => !self@.entries.contains_key(name@) && !has_name(self.entries@, name@),
            },
    {
        let n: usize = self.entries.len();
        let mut i: usize = 0;
        while i < n
            invariant
                n == self.entries@.len(),
                i <= n,
                unique_names(self.entries@),
                forall|j: int| 0 <= j < i ==> (#[trigger] self.entries@[j]).name@ != name@,
            decreases n - i,
        {
            if bytes_equal(self.entries[i].name.as_slice(), name) {
                proof {
                    lemma_at(self.entries@, i as int);
                }
                return Some(i);
            }
            i = i + 1;
        }
        proof {
            if has_name(self.entries@, name@) {
                let k = index_of(self.entries@, name@);
                assert(self.entries@[k].name@ == name@);
            }
        }
        None
    }

    /// The address that the cache has for `name` at `now`, if it has one
    /// that is younger than the time to live.
    pub fn lookup(&self, name: &[u8], now: u64) -> (r: Option<IpAddress>)
        requires
            self.wf(),
        ensures
            r == self@.hit(name@, now),
    {
        if !self.enabled {
            return None;
        }
        match self.find(name) {
            None => None,
            Some(i) => {
                let stored_at: u64 = self.entries[i].stored_at;
                if stored_at <= now && now - stored_at < self.ttl {
                    Some(self.entries[i].addr)
                } else {
                    None
                }
            },
        }
    }

    /// Remembers `addr` for `name` from `now` on. A cache that is switched
    /// off remembers nothing.
    pub fn store(&mut self, name: &[u8], addr: IpAddress, now: u64)
        requires
            old(self).wf(),
        ensures
            final(self).wf(),
            final(self)@ == old(self)@.store(name@, addr, now),
    {
        if !self.enabled {
            return ;
        }
        proof {
            lemma_len(self.entries@);
        }
        let ghost before = self.entries@;
        match self.find(name) {
            Some(i) => {
                self.entries[i].addr = addr;
                self.entries[i].stored_at = now;
                proof {
                    assert(self.entries@ =~= before.update(i as int, self.entries@[i as int]));
                    lemma_update(before, i as int, self.entries@[i as int]);
                }
            },
            None => {
                if self.entries.len() >= MAX_ENTRIES {
                    self.entries = Vec::new();
                    proof {
                        assert(map_of(self.entries@) =~= Map::<Seq<u8>, Cached>::empty());
                    }
                }
                let e = Entry { name: copy_bytes(name), addr, stored_at: now };
                proof {
                    lemma_push(self.entries@, e);
                }
                self.entries.push(e);
            },
        }
    }

    /// Decides what to do about `host` at `now`: a literal address is used
    /// as it stands, a name that the cache still has is answered from it,
    /// and any other name has to be looked up.
    pub fn plan(&self, host: &Host, now: u64) -> (l: Lookup)
        requires
            self.wf(),
        ensures
            lookup_matches(l, self@.plan(host@, now)),
    {
        match host {
            Host::Ipv4(a) => Lookup::Known(IpAddress::V4(*a)),
            Host::Ipv6(a) => Lookup::Known(IpAddress::V6(*a)),
            Host::Domain(n) => match self.lookup(n.as_slice(), now) {
                Some(addr) => Lookup::Known(addr),
                None => Lookup::Needed,
            },
        }
    }

    /// Takes in what a lookup of `name` gave at `now`. An address is
    /// remembered and returned. A failure is reported and leaves the cache
    /// as it was.
    pub fn complete(&mut self, name: &[u8], found: Option<IpAddress>, now: u64) -> (r: Result<
        IpAddress,
        ResolveError,
    >)
        requires
            old(self).wf(),
        ensures
            final(self).wf(),
            match found {
                Some(addr) => r == Ok::<IpAddress, ResolveError>(addr) && final(self)@ == old(
                    self,
                )@.store(name@, addr, now),
                None => r == Err::<IpAddress, ResolveError>(ResolveError::NotFound) && final(self)@
                    == old(self)@,
            },
    {
        match found {
            Some(addr) => {
                self.store(name, addr, now);
                Ok(addr)
            },
            None => Err(ResolveError::NotFound),
        }
    }
}

} // verus!
