//! A cache for an expensive asynchronous computation, keyed by its input parameters.
//!
//! Whenever the inputs may have changed, the caller asks `request(key, f, abort)`: if the key is
//! neither stored nor in flight, the computation in flight is aborted with `abort` and the new
//! one is started with `f` (`is_fresh` and `start` are the two halves of this). Finished computations come back through `store(key, value)`, which ignores results
//! of computations that were superseded. The stale stored value is kept during a recomputation
//! so views do not flicker.
use vstd::prelude::*;

verus! {

/// The decisions-relevant state of a cache: the stored result and the key in flight.
pub struct CacheModel<K, V> {
    pub stored: Option<(K, V)>,
    pub computing: Option<K>,
}

/// A cache of one computed value `V` for key `K`; `H` is the handle that aborts the computation
/// in flight.
pub struct AsyncCache<K, V, H> {
    stored: Option<(K, V)>,
    computing: Option<(K, H)>,
}

pub open spec fn key_of<K, H>(c: Option<(K, H)>) -> Option<K> {
    match c {
        Some((k, _)) => Some(k),
        None => None,
    }
}

pub open spec fn handle_of<K, H>(c: Option<(K, H)>) -> Option<H> {
    match c {
        Some((_, h)) => Some(h),
        None => None,
    }
}

/// Whether a request for `key` needs no new computation: the key is in flight or stored.
pub open spec fn fresh_spec<K, V>(m: CacheModel<K, V>, key: K) -> bool {
    m.computing == Some(key) || (m.stored matches Some((k, _)) && k == key)
}

/// The cache after starting a computation for `key`: it is in flight; the stored value stays.
pub open spec fn start_spec<K, V>(m: CacheModel<K, V>, key: K) -> CacheModel<K, V> {
    CacheModel { stored: m.stored, computing: Some(key) }
}

/// The cache after a computation for `key` delivered `value`: stored if `key` is the one in
/// flight, ignored otherwise.
pub open spec fn store_spec<K, V>(m: CacheModel<K, V>, key: K, value: V) -> CacheModel<K, V> {
    if m.computing == Some(key) {
        CacheModel { stored: Some((key, value)), computing: None }
    } else {
        m
    }
}

/// The cache after a reset: empty.
pub open spec fn reset_spec<K, V>() -> CacheModel<K, V> {
    CacheModel { stored: None, computing: None }
}

/// Whether the key type's `==` is structural equality, as it is for integers and derived
/// `PartialEq` over such fields.
pub open spec fn keys_compare_structurally<K: PartialEq>() -> bool {
    vstd::laws_eq::obeys_concrete_eq::<K>()
}

impl<K, V, H> AsyncCache<K, V, H> {
    pub closed spec fn model(&self) -> CacheModel<K, V> {
        CacheModel { stored: self.stored, computing: key_of(self.computing) }
    }

    /// The handle of the computation in flight, if any.
    pub closed spec fn in_flight_handle(&self) -> Option<H> {
        handle_of(self.computing)
    }

    /// An empty cache.
    pub fn new() -> (r: Self)
        ensures
            r.model() == reset_spec::<K, V>(),
            r.in_flight_handle() is None,
    {
        AsyncCache { stored: None, computing: None }
    }

    /// Returns the stored key and value, for use in view code.
    pub fn get_stored(&self) -> (r: Option<(&K, &V)>)
        ensures
            match (r, self.model().stored) {
                (Some((k, v)), Some((sk, sv))) => *k == sk && *v == sv,
                (None, None) => true,
                _ => false,
            },
    {
        match &self.stored {
            Some((k, v)) => Some((k, v)),
            None => None,
        }
    }

    /// Whether a computation is in flight.
    pub fn busy(&self) -> (r: bool)
        ensures
            r == (self.model().computing is Some),
    {
        self.computing.is_some()
    }

    /// Clears both the stored result and the in-flight computation, aborting the latter with
    /// `abort`. Use when inputs become entirely invalid so nothing stale is displayed.
    pub fn reset<A: FnOnce(H)>(&mut self, abort: A)
        requires
            forall|h: H| #[trigger] abort.requires((h,)),
        ensures
            final(self).model() == reset_spec::<K, V>(),
            final(self).in_flight_handle() is None,
            old(self).in_flight_handle() matches Some(h) ==> abort.ensures((h,), ()),
    {
        let old = self.computing.take();
        self.stored = None;
        match old {
            Some((_, h)) => abort(h),
            None => {},
        }
    }

    /// Records that a computation for `key` was started with abort handle `handle`, aborting
    /// the computation it supersedes with `abort`.
    pub fn start<A: FnOnce(H)>(&mut self, key: K, handle: H, abort: A)
        requires
            forall|h: H| #[trigger] abort.requires((h,)),
        ensures
            final(self).model() == start_spec(old(self).model(), key),
            final(self).in_flight_handle() == Some(handle),
            old(self).in_flight_handle() matches Some(h) ==> abort.ensures((h,), ()),
    {
        let old = self.computing.take();
        match old {
            Some((_, h)) => abort(h),
            None => {},
        }
        self.computing = Some((key, handle));
    }
}

impl<K, V, H> Default for AsyncCache<K, V, H> {
    /// An empty cache.
    fn default() -> (r: Self)
        ensures
            r.model() == reset_spec::<K, V>(),
            r.in_flight_handle() is None,
    {
        AsyncCache { stored: None, computing: None }
    }
}

impl<K: PartialEq, V, H> AsyncCache<K, V, H> {
    /// Whether `key` is already covered by the computation in flight or the stored result, so
    /// that no new computation is needed.
    pub fn is_fresh(&self, key: &K) -> (r: bool)
        ensures
            keys_compare_structurally::<K>() ==> r == fresh_spec(self.model(), *key),
    {
        proof {
            reveal(vstd::laws_eq::obeys_concrete_eq);
        }
        let in_flight = match &self.computing {
            Some((k, _)) => k == key,
            None => false,
        };
        if in_flight {
            return true;
        }
        match &self.stored {
            Some((k, _)) => k == key,
            None => false,
        }
    }

    /// Asks for the value of `key`. When the key is neither in flight nor stored, aborts the
    /// computation in flight, if any, with `abort`, starts the computation with `f`, which gets
    /// a copy of the key and returns the task and its abort handle, and returns the task.
    /// Returns `None`, and changes nothing, when the value is already fresh or in flight. The
    /// stale stored value is kept during the recomputation to avoid flicker.
    pub fn request<T, F: FnOnce(K) -> (T, H), A: FnOnce(H)>(&mut self, key: K, f: F, abort: A) -> (r:
        Option<T>)
        where
            K: Clone,
        requires
            forall|k: K| #[trigger] f.requires((k,)),
            forall|h: H| #[trigger] abort.requires((h,)),
        ensures
            keys_compare_structurally::<K>() ==> (r is None <==> fresh_spec(old(self).model(), key)),
            r is None ==> final(self).model() == old(self).model() && final(self).in_flight_handle()
                == old(self).in_flight_handle(),
            r is Some ==> final(self).model() == start_spec(old(self).model(), key),
            r is Some && old(self).in_flight_handle() is Some ==> abort.ensures(
                (old(self).in_flight_handle().unwrap(),),
                (),
            ),
            r is Some ==> final(self).in_flight_handle() is Some,
            r is Some ==> exists|k: K|
                cloned(key, k) && #[trigger] f.ensures(
                    (k,),
                    (r.unwrap(), final(self).in_flight_handle().unwrap()),
                ),
    {
        if self.is_fresh(&key) {
            return None;
        }
        let superseded = self.computing.take();
        match superseded {
            Some((_, h)) => abort(h),
            None => {},
        }
        let k = key.clone();
        let ghost kg = k;
        let (task, handle) = f(k);
        self.computing = Some((key, handle));
        let r = Some(task);
        proof {
            assert(cloned(key, kg));
            assert(f.ensures((kg,), (r.unwrap(), self.in_flight_handle().unwrap())));
        }
        r
    }

    /// Stores the result of a completed computation. Results of computations that are no longer
    /// in flight (superseded or reset) are ignored.
    pub fn store(&mut self, key: K, value: V)
        ensures
            keys_compare_structurally::<K>() ==> final(self).model() == store_spec(
                old(self).model(),
                key,
                value,
            ),
            keys_compare_structurally::<K>() && old(self).model().computing != Some(key)
                ==> final(self).in_flight_handle() == old(self).in_flight_handle(),
    {
        proof {
            reveal(vstd::laws_eq::obeys_concrete_eq);
        }
        let is_current = match &self.computing {
            Some((k, _)) => *k == key,
            None => false,
        };
        if is_current {
            self.computing = None;
            self.stored = Some((key, value));
        }
    }
}

/// A computation that was started and then delivered its result leaves that result stored,
/// nothing in flight, and the key fresh.
pub proof fn lemma_start_then_store<K, V>(m: CacheModel<K, V>, key: K, value: V)
    ensures
        store_spec(start_spec(m, key), key, value) == (CacheModel {
            stored: Some((key, value)),
            computing: None,
        }),
        fresh_spec(store_spec(start_spec(m, key), key, value), key),
{
}

/// A result for any other key than the one in flight changes nothing: results of superseded
/// computations are dropped.
pub proof fn lemma_superseded_result_ignored<K, V>(m: CacheModel<K, V>, old_key: K, key: K, value: V)
    requires
        old_key != key,
    ensures
        store_spec(start_spec(m, key), old_key, value) == start_spec(m, key),
{
}

/// Starting a computation keeps the stale stored value visible, and makes the key fresh so it is
/// not started twice.
pub proof fn lemma_start_keeps_stored_and_is_fresh<K, V>(m: CacheModel<K, V>, key: K)
    ensures
        start_spec(m, key).stored == m.stored,
        fresh_spec(start_spec(m, key), key),
{
}

/// After a reset nothing is stored, nothing is fresh, and a late result is ignored.
pub proof fn lemma_reset_forgets<K, V>(key: K, value: V)
    ensures
        reset_spec::<K, V>().stored is None,
        !fresh_spec(reset_spec::<K, V>(), key),
        store_spec(reset_spec::<K, V>(), key, value) == reset_spec::<K, V>(),
{
}

} // verus!
