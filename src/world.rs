//! The owning contexts, the registry of states, and the per-tick passes.

use vstd::prelude::*;
use crate::components::{StateData, Request};
use crate::config::{StateConfig, default_config};
use crate::state::{StateCatalog, StateError, UpdateRule};
use crate::state_set::lemma_highest_prefix;
use crate::util::GlobalMarker;

verus! {

/// A state's registration: the configuration it was registered with.
#[derive(Clone, Copy, Debug, PartialEq, Eq)]
pub struct RegisteredState {
    pub config: StateConfig,
}

/// One owning context: the global one, marked, or a local one.
#[derive(Debug)]
pub struct Context {
    pub marker: Option<GlobalMarker>,
    /// The record of each declared state on this context, if initialized.
    pub records: Vec<Option<StateData>>,
}

/// The declared states, which of them are registered, and the contexts.
pub struct StateWorld {
    pub catalog: StateCatalog,
    /// The registration of each declared state, if it is registered.
    pub registered: Vec<Option<RegisteredState>>,
    pub contexts: Vec<Context>,
}

/// A context with no records.
pub open spec fn empty_records(n: nat) -> Seq<Option<StateData>> {
    Seq::new(n, |i: int| None)
}

impl StateWorld {
    /// The records, by context and then by state.
    pub open spec fn recs(&self) -> Seq<Seq<Option<StateData>>> {
        Seq::new(self.contexts@.len(), |c: int| self.contexts@[c].records@)
    }

    /// Which contexts carry the global marker.
    pub open spec fn globals(&self) -> Seq<bool> {
        Seq::new(self.contexts@.len(), |c: int| self.contexts@[c].marker is Some)
    }

    /// The number of declared states.
    pub open spec fn n(&self) -> nat {
        self.catalog.len()
    }

    /// The order of state `s`.
    pub open spec fn ord(&self, s: int) -> u32 {
        self.catalog.orders@[s]
    }

    /// Whether state `s` names `d` among its dependencies.
    pub open spec fn depends_on(&self, s: int, d: int) -> bool {
        exists|k: int| 0 <= k < self.catalog.deps(s).len() && #[trigger] self.catalog.deps(s)[k] == d
    }

    /// Whether state `s` is registered.
    pub open spec fn is_registered(&self, s: int) -> bool {
        self.registered@[s] is Some
    }

    /// The registry: one slot per declared state, and a registered state's
    /// dependencies are registered.
    pub open spec fn registry_wf(&self) -> bool {
        let n = self.n();
        &&& self.registered@.len() == n
        &&& forall|s: int, k: int| 0 <= s < n && self.is_registered(s) && 0 <= k < self.catalog.deps(s).len()
            ==> self.is_registered(#[trigger] self.catalog.deps(s)[k] as int)
    }

    /// The contexts: one record slot per declared state, a record only where
    /// the records of its dependencies are, and at most one global context.
    pub open spec fn contexts_wf(&self) -> bool {
        let n = self.n();
        let recs = self.recs();
        &&& forall|c: int| 0 <= c < recs.len() ==> (#[trigger] recs[c]).len() == n
        &&& forall|c: int, s: int, k: int| 0 <= c < recs.len() && 0 <= s < n
            && (#[trigger] recs[c][s]) is Some && 0 <= k < self.catalog.deps(s).len()
            ==> recs[c][#[trigger] self.catalog.deps(s)[k] as int] is Some
        &&& forall|a: int, b: int| 0 <= a < recs.len() && 0 <= b < recs.len()
            && #[trigger] self.globals()[a] && #[trigger] self.globals()[b] ==> a == b
    }

    pub open spec fn wf(&self) -> bool {
        &&& self.catalog.wf()
        &&& self.registry_wf()
        &&& self.contexts_wf()
    }

    /// The global context, if there is one.
    pub open spec fn spec_global(&self) -> Option<int> {
        if exists|c: int| 0 <= c < self.contexts@.len() && #[trigger] self.globals()[c] {
            Some(choose|c: int| 0 <= c < self.contexts@.len() && #[trigger] self.globals()[c])
        } else {
            None
        }
    }

    /// The context an operation on `local` addresses: `local` itself, or the
    /// global context for `None`.
    pub open spec fn spec_target(&self, local: Option<usize>) -> Option<int> {
        match local {
            Some(c) => Some(c as int),
            None => self.spec_global(),
        }
    }

    /// Creates a world over the declared states, with no context and nothing registered.
    pub fn new(catalog: StateCatalog) -> (r: StateWorld)
        requires
            catalog.wf(),
        ensures
            r.wf(),
            r.catalog == catalog,
            r.contexts@.len() == 0,
            forall|s: int| 0 <= s < r.n() ==> !#[trigger] r.is_registered(s),
    {
        let mut registered: Vec<Option<RegisteredState>> = Vec::new();
        let mut i: usize = 0;
        while i < catalog.defs.len()
            invariant
                i <= catalog.defs@.len(),
                registered@.len() == i,
                forall|s: int| 0 <= s < i ==> #[trigger] registered@[s] is None,
            decreases catalog.defs@.len() - i,
        {
            registered.push(None);
            i = i + 1;
        }
        StateWorld { catalog, registered, contexts: Vec::new() }
    }

    /// Returns the global context, if there is one.
    pub fn global_context(&self) -> (r: Option<usize>)
        requires
            self.wf(),
        ensures
            r == match self.spec_global() {
                Some(g) => Some(g as usize),
                None => None::<usize>,
            },
            r matches Some(g) ==> g < self.contexts@.len() && self.globals()[g as int],
    {
        let mut c: usize = 0;
        while c < self.contexts.len()
            invariant
                c <= self.contexts@.len(),
                self.wf(),
                forall|j: int| 0 <= j < c ==> !#[trigger] self.globals()[j],
            decreases self.contexts@.len() - c,
        {
            if self.contexts[c].marker.is_some() {
                assert(self.globals()[c as int]);
                proof {
                    let g = choose|g: int| 0 <= g < self.contexts@.len() && #[trigger] self.globals()[g];
                    assert(self.globals()[g] && self.globals()[c as int]);
                }
                return Some(c);
            }
            c = c + 1;
        }
        None
    }

    /// Resolves `local` to a context: itself, or the global context for `None`.
    pub fn state_target_entity(&self, local: Option<usize>) -> (r: Option<usize>)
        requires
            self.wf(),
        ensures
            r == match self.spec_target(local) {
                Some(c) => Some(c as usize),
                None => None::<usize>,
            },
    {
        match local {
            Some(c) => Some(c),
            None => self.global_context(),
        }
    }

    /// Adds a local context without records and returns its index.
    pub fn spawn_context(&mut self) -> (r: usize)
        requires
            old(self).wf(),
            old(self).contexts@.len() < usize::MAX,
        ensures
            final(self).wf(),
            r == old(self).contexts@.len(),
            final(self).catalog == old(self).catalog,
            final(self).registered == old(self).registered,
            final(self).recs() == old(self).recs().push(empty_records(old(self).n())),
            final(self).globals() == old(self).globals().push(false),
    {
        let records = self.empty_context_records();
        let r = self.contexts.len();
        self.contexts.push(Context { marker: None, records });
        proof {
            assert(self.recs() =~= old(self).recs().push(empty_records(old(self).n())));
            assert(self.globals() =~= old(self).globals().push(false));
        }
        r
    }

    fn empty_context_records(&self) -> (r: Vec<Option<StateData>>)
        requires
            self.wf(),
        ensures
            r@ == empty_records(self.n()),
    {
        let mut records: Vec<Option<StateData>> = Vec::new();
        let mut i: usize = 0;
        while i < self.catalog.defs.len()
            invariant
                i <= self.n(),
                self.n() == self.catalog.defs@.len(),
                records@ == empty_records(i as nat),
            decreases self.n() - i,
        {
            records.push(None);
            i = i + 1;
            assert(records@ =~= empty_records(i as nat));
        }
        records
    }
}



/// What registering `s` with `config` did: `r` tells whether `s` was new.
/// Registrations already made stay as they were; the ones added are `s` and
/// states declared before it that a newly registered state depends on, those
/// with the default configuration.
pub open spec fn register_post(
    w0: &StateWorld,
    w1: &StateWorld,
    s: usize,
    config: StateConfig,
    r: Result<bool, StateError>,
) -> bool {
    &&& w1.wf()
    &&& w1.catalog == w0.catalog
    &&& w1.contexts == w0.contexts
    &&& (s >= w0.n() ==> r == Err::<bool, StateError>(StateError::UnknownState)
        && w1.registered == w0.registered)
    &&& (s < w0.n() ==> r == Ok::<bool, StateError>(!w0.is_registered(s as int)))
    &&& (s < w0.n() && w0.is_registered(s as int) ==> w1.registered == w0.registered)
    &&& (s < w0.n() && !w0.is_registered(s as int) ==> w1.registered@[s as int]
        == Some(RegisteredState { config }))
    &&& registry_grows(w0, w1, s as int)
    &&& cascades(w0, w1, s as int)
}

/// Whether `w1` registers `t` and `w0` does not.
pub open spec fn newly(w0: &StateWorld, w1: &StateWorld, t: int) -> bool {
    w1.is_registered(t) && !w0.is_registered(t)
}

/// Every state that `w1` adds, but `s`, has the default configuration and is
/// a dependency of another state that `w1` adds.
pub open spec fn cascades(w0: &StateWorld, w1: &StateWorld, s: int) -> bool {
    forall|t: int| 0 <= t < w0.n() && #[trigger] newly(w0, w1, t) && t != s
        ==> w1.registered@[t] == Some(RegisteredState { config: default_config() })
            && exists|u: int| 0 <= u < w0.n() && newly(w0, w1, u) && #[trigger] w0.depends_on(u, t)
}

/// `w1` keeps every registration of `w0` and adds only states up to `bound`.
pub open spec fn registry_grows(w0: &StateWorld, w1: &StateWorld, bound: int) -> bool {
    &&& w1.registered@.len() == w0.registered@.len()
    &&& forall|t: int| 0 <= t < w0.registered@.len() && w0.is_registered(t)
        ==> #[trigger] w1.registered@[t] == w0.registered@[t]
    &&& forall|t: int| 0 <= t < w0.registered@.len() && #[trigger] w1.is_registered(t)
        && !w0.is_registered(t) ==> t <= bound
}

/// A dependency's order is below its dependent's, and so is its index.
pub proof fn lemma_dependency_order(cat: &StateCatalog, s: int, k: int)
    requires
        cat.wf(),
        0 <= s < cat.len(),
        0 <= k < cat.deps(s).len(),
    ensures
        cat.orders@[cat.deps(s)[k] as int] < cat.orders@[s],
        cat.deps(s)[k] < s,
{
    let deps = cat.deps(s);
    assert(deps[k] < s);
    assert forall|i: int| 0 <= i < deps.len() implies #[trigger] deps[i] < cat.orders@.len() by {
        assert(cat.defs@[s].dependencies.members@[i] < s);
    }
    lemma_highest_prefix(deps, cat.orders@, deps.len() as int);
}

impl StateWorld {
    /// Registers state `s` and, first, every state it depends on that is not
    /// registered yet (those with the default configuration). Registering a
    /// registered state changes nothing and returns `Ok(false)`.
    pub fn register_state(&mut self, s: usize, config: StateConfig) -> (r: Result<bool, StateError>)
        requires
            old(self).wf(),
        ensures
            register_post(old(self), final(self), s, config, r),
    {
        if s >= self.registered.len() {
            return Err(StateError::UnknownState);
        }
        let fresh = self.registered[s].is_none();
        self.register_inner(s, config);
        Ok(fresh)
    }

    fn register_inner(&mut self, s: usize, config: StateConfig)
        requires
            old(self).wf(),
            s < old(self).n(),
        ensures
            register_post(old(self), final(self), s, config, Ok(!old(self).is_registered(s as int))),
        decreases s,
    {
        if self.registered[s].is_some() {
            return;
        }
        let ghost w0 = *old(self);
        let ndeps = self.catalog.defs[s].dependencies.members.len();
        let mut k: usize = 0;
        while k < ndeps
            invariant
                self.wf(),
                w0.wf(),
                s < w0.n(),
                k <= ndeps,
                ndeps == w0.catalog.deps(s as int).len(),
                self.catalog == w0.catalog,
                self.contexts == w0.contexts,
                !self.is_registered(s as int),
                forall|j: int| 0 <= j < k ==> self.is_registered(#[trigger] w0.catalog.deps(s as int)[j] as int),
                registry_grows(&w0, self, s as int - 1),
                forall|t: int| 0 <= t < w0.n() && #[trigger] newly(&w0, self, t)
                    ==> self.registered@[t] == Some(RegisteredState { config: default_config() })
                    && (w0.depends_on(s as int, t) || exists|u: int| 0 <= u < w0.n() && newly(&w0, self, u)
                    && #[trigger] w0.depends_on(u, t)),
            decreases ndeps - k,
        {
            let d = self.catalog.defs[s].dependencies.members[k];
            proof {
                lemma_dependency_order(&self.catalog, s as int, k as int);
            }
            let ghost w1 = *self;
            self.register_inner(d, StateConfig::default());
            proof {
                assert forall|j: int| 0 <= j < k + 1 implies self.is_registered(
                    #[trigger] w0.catalog.deps(s as int)[j] as int) by {
                    if j < k {
                        assert(w1.is_registered(w0.catalog.deps(s as int)[j] as int));
                    }
                }
                assert(w0.depends_on(s as int, d as int));
                assert forall|t: int| 0 <= t < w0.n() && #[trigger] newly(&w0, self, t)
                    implies self.registered@[t] == Some(RegisteredState { config: default_config() })
                    && (w0.depends_on(s as int, t) || exists|u: int| 0 <= u < w0.n() && newly(&w0, self, u)
                    && #[trigger] w0.depends_on(u, t)) by {
                    if newly(&w0, &w1, t) {
                        assert(self.registered@[t] == w1.registered@[t]);
                        if !w0.depends_on(s as int, t) {
                            let u = choose|u: int| 0 <= u < w0.n() && newly(&w0, &w1, u) && #[trigger] w0.depends_on(u, t);
                            assert(newly(&w0, self, u));
                        }
                    } else {
                        assert(newly(&w1, self, t));
                        if t != d {
                            let u = choose|u: int| 0 <= u < w0.n() && newly(&w1, self, u) && #[trigger] w1.depends_on(u, t);
                            assert(newly(&w0, self, u));
                            assert(w0.depends_on(u, t));
                        }
                    }
                }
            }
            k = k + 1;
        }
        let ghost w2 = *self;
        self.registered.set(s, Some(RegisteredState { config }));
        proof {
            assert forall|t: int, j: int| 0 <= t < self.n() && self.is_registered(t)
                && 0 <= j < self.catalog.deps(t).len()
                implies self.is_registered(#[trigger] self.catalog.deps(t)[j] as int) by {
                if t != s {
                    lemma_dependency_order(&self.catalog, t, j);
                }
            }
            assert(self.recs() == w0.recs());
            assert(self.globals() == w0.globals());
            assert(self.registry_wf());
            assert(self.contexts_wf());
            assert(self.wf());
            assert forall|t: int| 0 <= t < w0.registered@.len() && w0.is_registered(t)
                implies #[trigger] self.registered@[t] == w0.registered@[t] by {
                assert(t != s);
                assert(w2.registered@[t] == w0.registered@[t]);
            }
            assert forall|t: int| 0 <= t < w0.registered@.len() && #[trigger] self.is_registered(t)
                && !w0.is_registered(t) implies t <= s by {
                if t != s {
                    assert(w2.is_registered(t));
                }
            }
            assert forall|t: int| 0 <= t < w0.n() && #[trigger] newly(&w0, self, t) && t != s
                implies self.registered@[t] == Some(RegisteredState { config: default_config() })
                && exists|u: int| 0 <= u < w0.n() && newly(&w0, self, u) && #[trigger] w0.depends_on(u, t) by {
                assert(newly(&w0, &w2, t));
                assert(self.registered@[t] == w2.registered@[t]);
                if w0.depends_on(s as int, t) {
                    assert(newly(&w0, self, s as int));
                } else {
                    let u = choose|u: int| 0 <= u < w0.n() && newly(&w0, &w2, u) && #[trigger] w0.depends_on(u, t);
                    assert(newly(&w0, self, u));
                }
            }
        }
    }
}


/// Converts a value into the request it makes of a state.
pub trait IntoStateUpdate: Sized {
    /// The request that this value makes.
    spec fn spec_update(&self) -> Request;

    fn into_state_update(self) -> (r: Request)
        ensures
            r == self.spec_update();
}

impl IntoStateUpdate for u32 {
    /// A variant asks the state to take it.
    open spec fn spec_update(&self) -> Request {
        Request::Select(*self)
    }

    fn into_state_update(self) -> (r: Request) {
        Request::Select(self)
    }
}

impl IntoStateUpdate for Request {
    open spec fn spec_update(&self) -> Request {
        *self
    }

    fn into_state_update(self) -> (r: Request) {
        self
    }
}

/// A record as it is created: the initial value, nothing else.
pub open spec fn fresh_record(initial: Option<u32>) -> StateData {
    StateData { is_reentrant: false, previous: None, current: initial, update: None, is_updated: false }
}

impl StateWorld {
    /// Whether every dependency of `s` has a record on context `c`.
    pub open spec fn deps_present(&self, c: int, s: int) -> bool {
        forall|k: int| 0 <= k < self.catalog.deps(s).len()
            ==> (#[trigger] self.recs()[c][self.catalog.deps(s)[k] as int]) is Some
    }

    /// What `init_state` returns.
    pub open spec fn spec_init_result(&self, local: Option<usize>, s: usize, initial: Option<u32>) -> Result<usize, StateError> {
        if s >= self.n() {
            Err(StateError::UnknownState)
        } else if self.catalog.defs@[s as int].rule is Replace && initial is None {
            Err(StateError::MissingValue)
        } else {
            match self.spec_target(local) {
                Some(c) => if c >= self.contexts@.len() {
                    Err(StateError::UnknownContext)
                } else if self.recs()[c][s as int] is Some {
                    Err(StateError::AlreadyInitialized)
                } else if !self.deps_present(c, s as int) {
                    Err(StateError::MissingDependency)
                } else {
                    Ok(c as usize)
                },
                None => if self.catalog.deps(s as int).len() > 0 {
                    Err(StateError::MissingDependency)
                } else {
                    Ok(self.contexts@.len() as usize)
                },
            }
        }
    }

    /// What `update_state` returns.
    pub open spec fn spec_wake_result(&self, local: Option<usize>, s: usize) -> Result<usize, StateError> {
        if s >= self.n() {
            Err(StateError::UnknownState)
        } else {
            match self.spec_target(local) {
                None => Err(StateError::NoGlobalContext),
                Some(c) => if c >= self.contexts@.len() {
                    Err(StateError::UnknownContext)
                } else if self.recs()[c][s as int] is None {
                    Err(StateError::NotInitialized)
                } else {
                    Ok(c as usize)
                },
            }
        }
    }

    pub(crate) fn set_record(&mut self, c: usize, s: usize, rec: Option<StateData>)
        requires
            c < old(self).contexts@.len(),
            s < old(self).contexts@[c as int].records@.len(),
        ensures
            final(self).catalog == old(self).catalog,
            final(self).registered == old(self).registered,
            final(self).recs() == old(self).recs().update(c as int, old(self).recs()[c as int].update(s as int, rec)),
            final(self).globals() == old(self).globals(),
    {
        self.contexts[c].records.set(s, rec);
        proof {
            assert(self.recs() =~= old(self).recs().update(c as int, old(self).recs()[c as int].update(s as int, rec)));
            assert(self.globals() =~= old(self).globals());
        }
    }

    fn check_record_slot(&self, c: usize, s: usize) -> (r: Result<(), StateError>)
        requires
            self.wf(),
            c < self.contexts@.len(),
            s < self.n(),
        ensures
            r == (if self.recs()[c as int][s as int] is Some {
                Err::<(), StateError>(StateError::AlreadyInitialized)
            } else if !self.deps_present(c as int, s as int) {
                Err(StateError::MissingDependency)
            } else {
                Ok(())
            }),
    {
        assert(self.recs()[c as int] == self.contexts@[c as int].records@);
        if self.contexts[c].records[s].is_some() {
            return Err(StateError::AlreadyInitialized);
        }
        let ndeps = self.catalog.defs[s].dependencies.members.len();
        let mut k: usize = 0;
        while k < ndeps
            invariant
                self.wf(),
                c < self.contexts@.len(),
                s < self.n(),
                k <= ndeps,
                ndeps == self.catalog.deps(s as int).len(),
                forall|j: int| 0 <= j < k ==> (#[trigger] self.recs()[c as int][self.catalog.deps(s as int)[j] as int]) is Some,
            decreases ndeps - k,
        {
            let d = self.catalog.defs[s].dependencies.members[k];
            proof {
                lemma_dependency_order(&self.catalog, s as int, k as int);
                assert(self.recs()[c as int] == self.contexts@[c as int].records@);
            }
            if self.contexts[c].records[d].is_none() {
                return Err(StateError::MissingDependency);
            }
            k = k + 1;
        }
        Ok(())
    }

    /// Creates the record of state `s` on context `local` (the global context
    /// for `None`, created on first use) holding `initial`. Leaves everything
    /// unchanged and returns the error that `spec_init_result` gives otherwise.
    pub fn init_state(&mut self, local: Option<usize>, s: usize, initial: Option<u32>) -> (r: Result<usize, StateError>)
        requires
            old(self).wf(),
            old(self).contexts@.len() < usize::MAX,
        ensures
            final(self).wf(),
            r == old(self).spec_init_result(local, s, initial),
            final(self).catalog == old(self).catalog,
            final(self).registered == old(self).registered,
            r is Err ==> final(self).recs() == old(self).recs() && final(self).globals() == old(self).globals(),
            r matches Ok(c) ==> (old(self).spec_target(local) is Some ==> final(self).recs()
                == old(self).recs().update(c as int, old(self).recs()[c as int].update(s as int, Some(fresh_record(initial))))
                && final(self).globals() == old(self).globals()),
            r is Ok && old(self).spec_target(local) is None ==> final(self).recs()
                == old(self).recs().push(empty_records(old(self).n()).update(s as int, Some(fresh_record(initial))))
                && final(self).globals() == old(self).globals().push(true),
    {
        if s >= self.registered.len() {
            return Err(StateError::UnknownState);
        }
        match &self.catalog.defs[s].rule {
            UpdateRule::Replace => {
                if initial.is_none() {
                    return Err(StateError::MissingValue);
                }
            },
            _ => {},
        }
        let target = self.state_target_entity(local);
        let c = match target {
            Some(c) => {
                if c >= self.contexts.len() {
                    return Err(StateError::UnknownContext);
                }
                match self.check_record_slot(c, s) {
                    Err(e) => {
                        return Err(e);
                    },
                    Ok(()) => {},
                }
                c
            },
            None => {
                if self.catalog.defs[s].dependencies.members.len() > 0 {
                    return Err(StateError::MissingDependency);
                }
                let records = self.empty_context_records();
                let c = self.contexts.len();
                self.contexts.push(Context { marker: Some(GlobalMarker), records });
                proof {
                    assert(self.recs() =~= old(self).recs().push(empty_records(old(self).n())));
                    assert(self.globals() =~= old(self).globals().push(true));
                    assert(old(self).spec_global() is None);
                    assert forall|a: int| 0 <= a < c implies !old(self).globals()[a] by {
                        if old(self).globals()[a] {
                            assert(exists|x: int| 0 <= x < old(self).contexts@.len() && #[trigger] old(self).globals()[x]);
                        }
                    }
                }
                c
            },
        };
        let ghost mid = *self;
        assert(mid.deps_present(c as int, s as int));
        self.set_record(c, s, Some(StateData::new(initial)));
        proof {
            assert forall|c2: int, s2: int, k: int| 0 <= c2 < self.recs().len() && 0 <= s2 < self.n()
                && (#[trigger] self.recs()[c2][s2]) is Some && 0 <= k < self.catalog.deps(s2).len()
                implies self.recs()[c2][#[trigger] self.catalog.deps(s2)[k] as int] is Some by {
                let d = self.catalog.deps(s2)[k] as int;
                lemma_dependency_order(&self.catalog, s2, k);
                if c2 == c && s2 == s {
                    assert(mid.recs()[c2][d] is Some);
                } else {
                    assert(mid.recs()[c2][s2] is Some);
                }
            }
        }
        Ok(c)
    }

    /// Requests that state `s` on context `local` (the global context for
    /// `None`) acts on `update` at the next update pass.
    pub fn update_state<U: IntoStateUpdate>(&mut self, local: Option<usize>, s: usize, update: U) -> (r: Result<usize, StateError>)
        requires
            old(self).wf(),
        ensures
            final(self).wf(),
            r == old(self).spec_wake_result(local, s),
            final(self).catalog == old(self).catalog,
            final(self).registered == old(self).registered,
            final(self).globals() == old(self).globals(),
            r is Err ==> final(self).recs() == old(self).recs(),
            r matches Ok(c) ==> final(self).recs() == old(self).recs().update(c as int,
                old(self).recs()[c as int].update(s as int, Some(StateData {
                    update: Some(update.spec_update()), ..old(self).recs()[c as int][s as int]->Some_0 }))),
    {
        if s >= self.registered.len() {
            return Err(StateError::UnknownState);
        }
        let c = match self.state_target_entity(local) {
            None => {
                return Err(StateError::NoGlobalContext);
            },
            Some(c) => c,
        };
        if c >= self.contexts.len() {
            return Err(StateError::UnknownContext);
        }
        assert(self.recs()[c as int] == self.contexts@[c as int].records@);
        match self.contexts[c].records[s] {
            None => Err(StateError::NotInitialized),
            Some(rec) => {
                let mut next = rec;
                next.update = Some(update.into_state_update());
                self.set_record(c, s, Some(next));
                proof {
                    assert forall|c2: int, s2: int, k: int| 0 <= c2 < self.recs().len() && 0 <= s2 < self.n()
                        && (#[trigger] self.recs()[c2][s2]) is Some && 0 <= k < self.catalog.deps(s2).len()
                        implies self.recs()[c2][#[trigger] self.catalog.deps(s2)[k] as int] is Some by {
                        assert(old(self).recs()[c2][s2] is Some);
                    }
                }
                Ok(c)
            },
        }
    }

    /// Returns the record of state `s` on context `local` (the global context
    /// for `None`), if there is one.
    pub fn get_state(&self, local: Option<usize>, s: usize) -> (r: Option<StateData>)
        requires
            self.wf(),
        ensures
            r == match self.spec_target(local) {
                Some(c) => if 0 <= c < self.contexts@.len() && s < self.n() {
                    self.recs()[c][s as int]
                } else {
                    None
                },
                None => None,
            },
    {
        match self.state_target_entity(local) {
            None => None,
            Some(c) => {
                if c >= self.contexts.len() || s >= self.registered.len() {
                    None
                } else {
                    assert(self.recs()[c as int] == self.contexts@[c as int].records@);
                    self.contexts[c].records[s]
                }
            },
        }
    }
}





impl StateWorld {
    /// Destroys context `c`: its records are dropped and it stops being the
    /// global context. Its index is not reused.
    pub fn despawn_context(&mut self, c: usize) -> (r: Result<(), StateError>)
        requires
            old(self).wf(),
        ensures
            final(self).wf(),
            final(self).catalog == old(self).catalog,
            final(self).registered == old(self).registered,
            c >= old(self).contexts@.len() ==> r == Err::<(), StateError>(StateError::UnknownContext)
                && final(self).recs() == old(self).recs() && final(self).globals() == old(self).globals(),
            c < old(self).contexts@.len() ==> r == Ok::<(), StateError>(())
                && final(self).recs() == old(self).recs().update(c as int, empty_records(old(self).n()))
                && final(self).globals() == old(self).globals().update(c as int, false),
    {
        if c >= self.contexts.len() {
            return Err(StateError::UnknownContext);
        }
        let records = self.empty_context_records();
        self.contexts.set(c, Context { marker: None, records });
        proof {
            assert(self.recs() =~= old(self).recs().update(c as int, empty_records(old(self).n())));
            assert(self.globals() =~= old(self).globals().update(c as int, false));
        }
        Ok(())
    }
}

} // verus!
