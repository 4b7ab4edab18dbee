//! The node-local key-value cache: JSON-like values with lazy time-to-live
//! expiry, counters and the rate limiter built on them. Times are seconds,
//! supplied by the caller.

use vstd::prelude::*;
use vstd::string::StringExecFns;

use crate::text::str_eq;
use crate::value::{deep_copy, value_model, ConfigValue, ValueModel};

verus! {

/// Time-to-live value meaning "never expires".
pub const TTL_NONE: i64 = -1;

/// Time-to-live answer meaning "no such key".
pub const TTL_MISSING: i64 = -2;

/// One cached value: key, value, creation time, time-to-live in seconds
/// (`-1` for no expiry).
pub struct CacheEntry {
    pub k: String,
    pub v: ConfigValue,
    pub ct: u64,
    pub ttl: i64,
}

/// Mathematical model of a cached value.
#[verifier::ext_equal]
pub ghost struct CacheEntryModel {
    pub k: Seq<char>,
    pub v: ValueModel,
    pub ct: int,
    pub ttl: int,
}

impl View for CacheEntry {
    type V = CacheEntryModel;

    open spec fn view(&self) -> CacheEntryModel {
        CacheEntryModel {
            k: self.k@,
            v: value_model(self.v),
            ct: self.ct as int,
            ttl: self.ttl as int,
        }
    }
}

/// The view of a cache table.
pub open spec fn cache_view(s: Seq<CacheEntry>) -> Seq<CacheEntryModel> {
    s.map_values(|e: CacheEntry| e@)
}

/// Whether an entry has outlived its time-to-live at the given time. A
/// negative time-to-live other than the no-expiry marker counts as expired.
pub open spec fn spec_expired(e: CacheEntryModel, now: int) -> bool {
    e.ttl != TTL_NONE && (e.ttl < 0 || now - e.ct >= e.ttl)
}

/// Whether an entry with the key is stored.
pub open spec fn spec_cache_has(es: Seq<CacheEntryModel>, k: Seq<char>) -> bool {
    exists|j: int| 0 <= j < es.len() && (#[trigger] es[j]).k == k
}

/// The first stored entry under a key.
pub open spec fn spec_cache_lookup(es: Seq<CacheEntryModel>, k: Seq<char>) -> Option<
    CacheEntryModel,
>
    decreases es.len(),
{
    if es.len() == 0 {
        None
    } else if es[0].k == k {
        Some(es[0])
    } else {
        spec_cache_lookup(es.drop_first(), k)
    }
}

/// The table after a write: the entry under the key is replaced, or a new
/// entry appended.
pub open spec fn spec_cache_set(es: Seq<CacheEntryModel>, e: CacheEntryModel) -> Seq<
    CacheEntryModel,
> {
    if spec_cache_has(es, e.k) {
        es.map_values(
            |m: CacheEntryModel|
                if m.k == e.k {
                    e
                } else {
                    m
                },
        )
    } else {
        es.push(e)
    }
}

/// The table after a removal.
pub open spec fn spec_cache_remove(es: Seq<CacheEntryModel>, k: Seq<char>) -> Seq<
    CacheEntryModel,
> {
    es.filter(|m: CacheEntryModel| m.k != k)
}

/// The live (unexpired) entry under a key, if any.
pub open spec fn spec_cache_live(es: Seq<CacheEntryModel>, k: Seq<char>, now: int) -> Option<
    CacheEntryModel,
> {
    match spec_cache_lookup(es, k) {
        Some(e) => if spec_expired(e, now) {
            None
        } else {
            Some(e)
        },
        None => None,
    }
}

/// The node-local cache.
pub struct LocalCache {
    pub entries: Vec<CacheEntry>,
}

impl CacheEntry {
    /// A field-for-field copy.
    pub fn duplicate(&self) -> (r: CacheEntry)
        ensures
            r@ == self@,
    {
        let r = CacheEntry {
            k: self.k.clone(),
            v: deep_copy(&self.v),
            ct: self.ct,
            ttl: self.ttl,
        };
        proof {
            assert(r@ =~= self@);
        }
        r
    }
}

impl LocalCache {
    /// The view of the cache.
    pub open spec fn view(&self) -> Seq<CacheEntryModel> {
        cache_view(self.entries@)
    }

    /// An empty cache.
    pub fn new() -> (r: LocalCache)
        ensures
            r@ == Seq::<CacheEntryModel>::empty(),
    {
        let r = LocalCache { entries: Vec::new() };
        proof {
            assert(r@ =~= Seq::<CacheEntryModel>::empty());
        }
        r
    }

    /// The first stored entry under a key, expired or not.
    fn lookup(&self, key: &str) -> (r: Option<&CacheEntry>)
        ensures
            match r {
                Some(e) => spec_cache_lookup(self@, key@) == Some(e@),
                None => spec_cache_lookup(self@, key@) is None,
            },
    {
        let ghost cv = self@;
        proof {
            assert(cv.skip(0) =~= cv);
        }
        let mut i: usize = 0;
        while i < self.entries.len()
            invariant
                i <= self.entries@.len(),
                cv == self@,
                spec_cache_lookup(cv, key@) == spec_cache_lookup(cv.skip(i as int), key@),
            decreases self.entries@.len() - i,
        {
            proof {
                assert(cv.skip(i as int).drop_first() =~= cv.skip(i + 1));
                assert(cv.skip(i as int)[0] == cv[i as int]);
            }
            if str_eq(self.entries[i].k.as_str(), key) {
                return Some(&self.entries[i]);
            }
            i += 1;
        }
        proof {
            assert(cv.skip(cv.len() as int) =~= Seq::<CacheEntryModel>::empty());
        }
        None
    }

    /// Stores a value under a key with an optional time-to-live, replacing
    /// any previous entry.
    pub fn set(&mut self, key: &str, value: ConfigValue, ttl: Option<u64>, now: u64)
        requires
            match ttl {
                Some(t) => t <= i64::MAX,
                None => true,
            },
        ensures
            final (self)@ == spec_cache_set(
                old(self)@,
                CacheEntryModel {
                    k: key@,
                    v: value_model(value),
                    ct: now as int,
                    ttl: match ttl {
                        Some(t) => t as int,
                        None => TTL_NONE as int,
                    },
                },
            ),
    {
        let t: i64 = match ttl {
            Some(t) => t as i64,
            None => TTL_NONE,
        };
        let e = CacheEntry { k: key.to_owned(), v: value, ct: now, ttl: t };
        proof {
            assert(e@ =~= (CacheEntryModel {
                k: key@,
                v: value_model(value),
                ct: now as int,
                ttl: match ttl {
                    Some(tt) => tt as int,
                    None => TTL_NONE as int,
                },
            }));
        }
        self.put(e);
    }

    /// Stores an entry, replacing any previous entry under its key.
    fn put(&mut self, e: CacheEntry)
        ensures
            final (self)@ == spec_cache_set(old(self)@, e@),
    {
        let key = e.k.clone();
        let ghost em = e@;
        let mut found = false;
        let mut i: usize = 0;
        while i < self.entries.len()
            invariant
                i <= self.entries@.len(),
                old(self).entries@ == self.entries@,
                found == exists|j: int| 0 <= j < i && (#[trigger] self@[j]).k == em.k,
                em.k == key@,
            decreases self.entries@.len() - i,
        {
            if str_eq(self.entries[i].k.as_str(), key.as_str()) {
                found = true;
                proof {
                    assert(self@[i as int].k == em.k);
                }
            }
            i += 1;
        }
        if found {
            let mut kept: Vec<CacheEntry> = Vec::new();
            let mut j: usize = 0;
            while j < self.entries.len()
                invariant
                    j <= self.entries@.len(),
                    old(self).entries@ == self.entries@,
                    kept@.len() == j,
                    em == e@,
                    em.k == key@,
                    forall|g: int|
                        0 <= g < j ==> (#[trigger] kept@[g])@ == if self@[g].k == em.k {
                            em
                        } else {
                            self@[g]
                        },
                decreases self.entries@.len() - j,
            {
                if str_eq(self.entries[j].k.as_str(), key.as_str()) {
                    let d = e.duplicate();
                    kept.push(d);
                } else {
                    let d = self.entries[j].duplicate();
                    kept.push(d);
                }
                j += 1;
            }
            self.entries = kept;
            proof {
                assert(final (self)@ =~= spec_cache_set(old(self)@, em));
            }
        } else {
            self.entries.push(e);
            proof {
                assert(final (self)@ =~= old(self)@.push(em));
            }
        }
    }

    /// Removes an entry.
    pub fn remove(&mut self, key: &str)
        ensures
            final (self)@ == spec_cache_remove(old(self)@, key@),
    {
        let ghost p = |m: CacheEntryModel| m.k != key@;
        let mut kept: Vec<CacheEntry> = Vec::new();
        let mut i: usize = 0;
        while i < self.entries.len()
            invariant
                i <= self.entries@.len(),
                old(self).entries@ == self.entries@,
                cache_view(kept@) == cache_view(self.entries@.subrange(0, i as int)).filter(p),
                p == (|m: CacheEntryModel| m.k != key@),
            decreases self.entries@.len() - i,
        {
            proof {
                assert(self.entries@.subrange(0, i + 1) =~= self.entries@.subrange(0, i as int).push(
                    self.entries@[i as int],
                ));
                assert(cache_view(self.entries@.subrange(0, i as int).push(
                    self.entries@[i as int],
                )) =~= cache_view(self.entries@.subrange(0, i as int)).push(
                    self.entries@[i as int]@,
                ));
                crate::seqs::lemma_filter_push(
                    cache_view(self.entries@.subrange(0, i as int)),
                    p,
                    self.entries@[i as int]@,
                );
            }
            if !str_eq(self.entries[i].k.as_str(), key) {
                let d = self.entries[i].duplicate();
                kept.push(d);
                proof {
                    assert(cache_view(kept@) =~= cache_view(
                        self.entries@.subrange(0, i + 1),
                    ).filter(p));
                }
            }
            i += 1;
        }
        proof {
            assert(self.entries@.subrange(0, self.entries@.len() as int) =~= self.entries@);
        }
        self.entries = kept;
    }

    /// Reads the live entry under a key; an expired entry counts as absent
    /// and is dropped from the store (lazy expiry).
    fn take_live(&mut self, key: &str, now: u64) -> (r: Option<CacheEntry>)
        ensures
            match spec_cache_live(old(self)@, key@, now as int) {
                Some(e) => (match r {
                    Some(x) => x@ == e,
                    None => false,
                }) && final (self)@ == old(self)@,
                None => r is None && final (self)@ == if spec_cache_lookup(old(self)@, key@)
                    is Some {
                    spec_cache_remove(old(self)@, key@)
                } else {
                    old(self)@
                },
            },
    {
        let (hit, expired) = match self.lookup(key) {
            Some(e) => {
                if e.ttl != TTL_NONE && (e.ttl < 0 || (now >= e.ct && now - e.ct
                    >= e.ttl as u64)) {
                    (None, true)
                } else {
                    (Some(e.duplicate()), false)
                }
            },
            None => (None, false),
        };
        if expired {
            self.remove(key);
        }
        hit
    }

    /// Reads a value; an expired entry counts as absent and is dropped from
    /// the store (lazy expiry).
    pub fn get(&mut self, key: &str, now: u64) -> (r: Option<ConfigValue>)
        ensures
            match spec_cache_live(old(self)@, key@, now as int) {
                Some(e) => (match r {
                    Some(v) => value_model(v) == e.v,
                    None => false,
                }) && final (self)@ == old(self)@,
                None => r is None && final (self)@ == if spec_cache_lookup(old(self)@, key@)
                    is Some {
                    spec_cache_remove(old(self)@, key@)
                } else {
                    old(self)@
                },
            },
    {
        match self.take_live(key, now) {
            Some(e) => Some(e.v),
            None => None,
        }
    }

    /// Adds `delta` to the counter under the key: a fresh counter starts at
    /// zero with no expiry and keeps its creation and expiry settings on
    /// later increments. Fails on a non-integer value or overflow, leaving
    /// the live entry untouched.
    pub fn increment(&mut self, key: &str, delta: i64, now: u64) -> (r: Result<i64, ()>)
        ensures
            match spec_cache_live(old(self)@, key@, now as int) {
                Some(e) => match e.v {
                    ValueModel::Int(i) => if i64::MIN <= i + delta <= i64::MAX {
                        (match r {
                            Ok(v) => v as int == i + delta,
                            Err(_) => false,
                        }) && final (self)@ == spec_cache_set(
                            old(self)@,
                            CacheEntryModel {
                                k: key@,
                                v: ValueModel::Int(i + delta),
                                ct: e.ct,
                                ttl: e.ttl,
                            },
                        )
                    } else {
                        r is Err && final (self)@ == old(self)@
                    },
                    _ => r is Err && final (self)@ == old(self)@,
                },
                None => (match r {
                    Ok(v) => v == delta,
                    Err(_) => false,
                }) && final (self)@ == spec_cache_set(
                    if spec_cache_lookup(old(self)@, key@) is Some {
                        spec_cache_remove(old(self)@, key@)
                    } else {
                        old(self)@
                    },
                    CacheEntryModel {
                        k: key@,
                        v: ValueModel::Int(delta as int),
                        ct: now as int,
                        ttl: TTL_NONE as int,
                    },
                ),
            },
    {
        match self.take_live(key, now) {
            Some(e) => match e.v {
                ConfigValue::Int(i) => {
                    let overflow = if delta >= 0 {
                        i > i64::MAX - delta
                    } else {
                        i < i64::MIN - delta
                    };
                    if overflow {
                        Err(())
                    } else {
                        let nv = i + delta;
                        let ne = CacheEntry {
                            k: key.to_owned(),
                            v: ConfigValue::Int(nv),
                            ct: e.ct,
                            ttl: e.ttl,
                        };
                        proof {
                            assert(ne@ =~= (CacheEntryModel {
                                k: key@,
                                v: ValueModel::Int(i + delta),
                                ct: e@.ct,
                                ttl: e@.ttl,
                            }));
                        }
                        self.put(ne);
                        Ok(nv)
                    }
                },
                _ => {
                    proof {
                        crate::value::lemma_value_model_variant(e.v);
                    }
                    Err(())
                },
            },
            None => {
                let ne = CacheEntry {
                    k: key.to_owned(),
                    v: ConfigValue::Int(delta),
                    ct: now,
                    ttl: TTL_NONE,
                };
                proof {
                    assert(ne@ =~= (CacheEntryModel {
                        k: key@,
                        v: ValueModel::Int(delta as int),
                        ct: now as int,
                        ttl: TTL_NONE as int,
                    }));
                }
                self.put(ne);
                Ok(delta)
            },
        }
    }

    /// Sets the time-to-live of the live entry under a key; absent or
    /// expired keys are untouched (an expired entry is still cleaned up).
    pub fn expire(&mut self, key: &str, ttl: i64, now: u64)
        ensures
            match spec_cache_live(old(self)@, key@, now as int) {
                Some(e) => final (self)@ == spec_cache_set(
                    old(self)@,
                    CacheEntryModel { ttl: ttl as int, ..e },
                ),
                None => final (self)@ == if spec_cache_lookup(old(self)@, key@) is Some {
                    spec_cache_remove(old(self)@, key@)
                } else {
                    old(self)@
                },
            },
    {
        match self.take_live(key, now) {
            Some(e) => {
                let ne = CacheEntry { k: e.k, v: e.v, ct: e.ct, ttl };
                proof {
                    assert(ne@ =~= (CacheEntryModel { ttl: ttl as int, ..e@ }));
                }
                self.put(ne);
            },
            None => {},
        }
    }

    /// The rate limiter: adds one to the key's counter, starts the window on
    /// the counter's first use, and reports whether the count exceeds the
    /// limit. Fails exactly when the key holds a non-integer or the counter
    /// would overflow.
    pub fn ratelimit(&mut self, key: &str, limit: i64, time_window: i64, now: u64) -> (r: Result<
        bool,
        (),
    >)
        ensures
            match r {
                Ok(b) => match spec_cache_live(old(self)@, key@, now as int) {
                    Some(e) => e.v is Int && b == (e.v->Int_0 + 1 > limit),
                    None => b == (1 > limit),
                },
                Err(_) => true,
            },
            r is Err <==> (match spec_cache_live(old(self)@, key@, now as int) {
                Some(e) => !(e.v is Int) || !(i64::MIN <= e.v->Int_0 + 1 <= i64::MAX),
                None => false,
            }),
            r is Err ==> final (self)@ == old(self)@,
            match spec_cache_live(old(self)@, key@, now as int) {
                Some(e) => e.v is Int && i64::MIN <= e.v->Int_0 + 1 <= i64::MAX ==> final (self)@
                    == spec_cache_set(
                    old(self)@,
                    CacheEntryModel {
                        k: key@,
                        v: ValueModel::Int(e.v->Int_0 + 1),
                        ct: e.ct,
                        ttl: e.ttl,
                    },
                ),
                None => final (self)@ == spec_cache_set(
                    spec_cache_set(
                        if spec_cache_lookup(old(self)@, key@) is Some {
                            spec_cache_remove(old(self)@, key@)
                        } else {
                            old(self)@
                        },
                        CacheEntryModel {
                            k: key@,
                            v: ValueModel::Int(1),
                            ct: now as int,
                            ttl: TTL_NONE as int,
                        },
                    ),
                    CacheEntryModel {
                        k: key@,
                        v: ValueModel::Int(1),
                        ct: now as int,
                        ttl: time_window as int,
                    },
                ),
            },
        // the counter is bumped in place with its window kept; a fresh
        // counter starts at one and gets the window as its expiry
    {
        let existed = self.contains_key(key, now);
        let count = match self.increment(key, 1, now) {
            Ok(c) => c,
            Err(_) => {
                return Err(());
            },
        };
        if !existed {
            let ghost fresh = CacheEntryModel {
                k: key@,
                v: ValueModel::Int(1),
                ct: now as int,
                ttl: TTL_NONE as int,
            };
            proof {
                lemma_cache_lookup_after_set(
                    if spec_cache_lookup(old(self)@, key@) is Some {
                        spec_cache_remove(old(self)@, key@)
                    } else {
                        old(self)@
                    },
                    fresh,
                );
            }
            self.expire(key, time_window, now);
        }
        Ok(count > limit)
    }

    /// Takes the best-effort named lock. On a single node no contention is
    /// possible, so taking it is free and changes nothing; it only serves to
    /// suppress duplicate periodic jobs and is no correctness primitive.
    pub fn lock(&mut self, key: &str, ttl: u64) -> (r: Result<(), ()>)
        ensures
            r is Ok,
            final (self)@ == old(self)@,
    {
        let _ = key;
        let _ = ttl;
        Ok(())
    }

    /// Releases the best-effort named lock; free on a single node.
    pub fn unlock(&mut self, key: &str) -> (r: Result<(), ()>)
        ensures
            r is Ok,
            final (self)@ == old(self)@,
    {
        let _ = key;
        Ok(())
    }

    /// The stored time-to-live of a key: `-1` for no expiry, `-2` when the
    /// key is absent or expired.
    pub fn ttl_of(&self, key: &str, now: u64) -> (r: i64)
        ensures
            r as int == match spec_cache_live(self@, key@, now as int) {
                Some(e) => e.ttl,
                None => TTL_MISSING as int,
            },
    {
        match self.lookup(key) {
            Some(e) => {
                if e.ttl != TTL_NONE && (e.ttl < 0 || (now >= e.ct && now - e.ct >= e.ttl as u64)) {
                    TTL_MISSING
                } else {
                    e.ttl
                }
            },
            None => TTL_MISSING,
        }
    }

    /// Whether a live entry is stored under the key.
    pub fn contains_key(&self, key: &str, now: u64) -> (r: bool)
        ensures
            r == (spec_cache_live(self@, key@, now as int) is Some),
    {
        match self.lookup(key) {
            Some(e) => {
                if e.ttl != TTL_NONE && (e.ttl < 0 || (now >= e.ct && now - e.ct >= e.ttl as u64)) {
                    false
                } else {
                    true
                }
            },
            None => false,
        }
    }
}


/// A write reads back: the first entry under the written key is the stored
/// entry.
pub proof fn lemma_cache_lookup_after_set(es: Seq<CacheEntryModel>, e: CacheEntryModel)
    ensures
        spec_cache_lookup(spec_cache_set(es, e), e.k) == Some(e),
    decreases es.len(),
{
    if spec_cache_has(es, e.k) {
        let s2 = spec_cache_set(es, e);
        if es[0].k == e.k {
            assert(s2[0] == e);
        } else {
            assert(s2[0] == es[0]);
            assert(s2.drop_first() =~= es.drop_first().map_values(
                |m: CacheEntryModel|
                    if m.k == e.k {
                        e
                    } else {
                        m
                    },
            ));
            let j = choose|j: int| 0 <= j < es.len() && (#[trigger] es[j]).k == e.k;
            assert(es.drop_first()[j - 1].k == e.k);
            assert(spec_cache_has(es.drop_first(), e.k));
            assert(spec_cache_set(es.drop_first(), e) == s2.drop_first());
            lemma_cache_lookup_after_set(es.drop_first(), e);
        }
    } else {
        let s2 = es.push(e);
        if es.len() == 0 {
            assert(s2[0] == e);
        } else {
            assert(s2[0] == es[0]);
            assert(es[0].k != e.k);
            assert(s2.drop_first() =~= es.drop_first().push(e));
            assert forall|j: int|
                0 <= j < es.drop_first().len() implies (#[trigger] es.drop_first()[j]).k != e.k by {
                assert(es.drop_first()[j] == es[j + 1]);
            }
            assert(!spec_cache_has(es.drop_first(), e.k));
            lemma_cache_lookup_after_set(es.drop_first(), e);
        }
    }
}

} // verus!
