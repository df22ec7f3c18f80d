//! State descriptors, their update rules, and the catalog that orders them.

use vstd::prelude::*;
use crate::components::{StateData, Request};
use crate::state_set::{StateSet, spec_highest_order, spec_any_updated, lemma_highest_prefix};

verus! {

/// Data that requests an update of a state.
pub trait StateUpdate: Sized {
    /// Whether this data asks for a recomputation.
    spec fn spec_should_update(&self) -> bool;

    /// Whether the state should be recomputed this pass.
    fn should_update(&self) -> (r: bool)
        ensures
            r == self.spec_should_update();

    /// Resets the request after the recomputation happened.
    fn post_update(&mut self)
        ensures
            !final(self).spec_should_update();
}

impl StateUpdate for Option<Request> {
    open spec fn spec_should_update(&self) -> bool {
        self.is_some()
    }

    fn should_update(&self) -> (r: bool) {
        self.is_some()
    }

    fn post_update(&mut self) {
        *self = None;
    }
}

impl StateUpdate for () {
    open spec fn spec_should_update(&self) -> bool {
        false
    }

    fn should_update(&self) -> (r: bool) {
        false
    }

    fn post_update(&mut self) {
    }
}

/// How a state computes its next value.
#[derive(Debug)]
pub enum UpdateRule {
    /// A mandatory state: takes the requested value. Recomputed without a
    /// request (only possible when it has dependencies), it keeps its value.
    Replace,
    /// An optional state that exists while each dependency `i` is at the
    /// variant `required[i]`. While it exists it takes the requested value,
    /// else keeps its current one; on entering without a request it starts at
    /// `default`, or, when `persistent`, at the value it had when it was left.
    Substate { required: Vec<u32>, default: u32, persistent: bool },
    /// A mandatory state that cycles through the variants `0..count`: it
    /// takes a set variant, and advances or retreats by one, wrapping around.
    /// With `count` 0 it keeps its value.
    Cycle { count: u32 },
}

/// The position of a cycling state's value among `count` variants.
pub open spec fn spec_cycle_position(current: Option<u32>, count: u32) -> int {
    match current {
        Some(c) => c as int % count as int,
        None => 0,
    }
}

/// The next value of a cycling state.
pub open spec fn spec_cycle_next(state: StateData, count: u32) -> Option<u32> {
    if count == 0 {
        state.current
    } else {
        let pos = spec_cycle_position(state.current, count);
        match state.update {
            Some(Request::Select(v)) => Some(v),
            Some(Request::Advance) => Some(((pos + 1) % count as int) as u32),
            Some(Request::Retreat) => Some(((pos + count - 1) % count as int) as u32),
            None => state.current,
        }
    }
}

/// Whether every dependency in the snapshot is at its required variant.
pub open spec fn spec_dependencies_hold(required: Seq<u32>, snapshot: Seq<StateData>) -> bool {
    &&& required.len() == snapshot.len()
    &&& forall|i: int| 0 <= i < snapshot.len() ==> #[trigger] snapshot[i].current == Some(required[i])
}

/// The value a substate takes on while it exists.
pub open spec fn spec_substate_value(state: StateData, default: u32, persistent: bool) -> u32 {
    match state.update {
        Some(Request::Select(v)) => v,
        _ => match state.current {
            Some(c) => c,
            None => match state.previous {
                Some(Some(p)) if persistent => p,
                _ => default,
            },
        },
    }
}

/// The next representation of a state under `rule`.
pub open spec fn spec_next(rule: UpdateRule, state: StateData, snapshot: Seq<StateData>) -> Option<u32> {
    match rule {
        UpdateRule::Replace => match state.update {
            Some(Request::Select(v)) => Some(v),
            _ => state.current,
        },
        UpdateRule::Substate { required, default, persistent } => {
            if spec_dependencies_hold(required@, snapshot) {
                Some(spec_substate_value(state, default, persistent))
            } else {
                None
            }
        },
        UpdateRule::Cycle { count } => spec_cycle_next(state, count),
    }
}

/// Computes the next value of a cycling state.
pub fn cycle_next(state: &StateData, count: u32) -> (r: Option<u32>)
    ensures
        r == spec_cycle_next(*state, count),
{
    if count == 0 {
        return state.current;
    }
    let pos = match state.current {
        Some(c) => c % count,
        None => 0,
    };
    assert(pos == spec_cycle_position(state.current, count));
    proof {
        let m = count as int;
        let p = pos as int;
        if p + 1 < m {
            vstd::arithmetic::div_mod::lemma_small_mod((p + 1) as nat, m as nat);
        } else {
            vstd::arithmetic::div_mod::lemma_mod_self_0(m);
        }
        if p == 0 {
            vstd::arithmetic::div_mod::lemma_small_mod((m - 1) as nat, m as nat);
        } else {
            vstd::arithmetic::div_mod::lemma_mod_multiples_vanish(1, p - 1, m);
            vstd::arithmetic::div_mod::lemma_small_mod((p - 1) as nat, m as nat);
            assert(m * 1 + (p - 1) == p + m - 1);
        }
    }
    match state.update {
        Some(Request::Select(v)) => Some(v),
        Some(Request::Advance) => {
            if pos + 1 == count {
                Some(0)
            } else {
                Some(pos + 1)
            }
        },
        Some(Request::Retreat) => {
            if pos == 0 {
                Some(count - 1)
            } else {
                Some(pos - 1)
            }
        },
        None => state.current,
    }
}

/// Whether every dependency in the snapshot is at its required variant.
pub fn dependencies_hold(required: &Vec<u32>, snapshot: &Vec<StateData>) -> (r: bool)
    ensures
        r == spec_dependencies_hold(required@, snapshot@),
{
    if required.len() != snapshot.len() {
        return false;
    }
    let mut i: usize = 0;
    while i < snapshot.len()
        invariant
            i <= snapshot@.len(),
            required@.len() == snapshot@.len(),
            forall|j: int| 0 <= j < i ==> #[trigger] snapshot@[j].current == Some(required@[j]),
        decreases snapshot@.len() - i,
    {
        match snapshot[i].current {
            Some(v) => {
                if v != required[i] {
                    return false;
                }
            },
            None => {
                return false;
            },
        }
        i = i + 1;
    }
    true
}

/// Describes one state type: what it depends on and how it updates.
#[derive(Debug)]
pub struct StateDef {
    pub dependencies: StateSet,
    pub rule: UpdateRule,
}

impl StateDef {
    /// A mandatory state without dependencies, changed by requests only.
    pub fn root() -> (r: StateDef)
        ensures
            r.dependencies.members@.len() == 0,
            r.rule is Replace,
    {
        StateDef { dependencies: StateSet::empty(), rule: UpdateRule::Replace }
    }

    /// An optional state that exists while each dependency `dependencies[i]`
    /// is at `required[i]`; it starts at `default` on every entry.
    pub fn substate(dependencies: Vec<usize>, required: Vec<u32>, default: u32) -> (r: StateDef)
        ensures
            r.dependencies.members@ == dependencies@,
            r.rule == (UpdateRule::Substate { required, default, persistent: false }),
    {
        StateDef {
            dependencies: StateSet::of(dependencies),
            rule: UpdateRule::Substate { required, default, persistent: false },
        }
    }

    /// Like `substate`, but on entry without a request it comes back at the
    /// value it had when it was left.
    pub fn persistent_substate(dependencies: Vec<usize>, required: Vec<u32>, default: u32) -> (r: StateDef)
        ensures
            r.dependencies.members@ == dependencies@,
            r.rule == (UpdateRule::Substate { required, default, persistent: true }),
    {
        StateDef {
            dependencies: StateSet::of(dependencies),
            rule: UpdateRule::Substate { required, default, persistent: true },
        }
    }

    /// A mandatory state without dependencies that cycles through `count` variants.
    pub fn cycle(count: u32) -> (r: StateDef)
        ensures
            r.dependencies.members@.len() == 0,
            r.rule == (UpdateRule::Cycle { count }),
    {
        StateDef { dependencies: StateSet::empty(), rule: UpdateRule::Cycle { count } }
    }

    /// Computes the next representation of `state` from its request, its own
    /// value and the snapshot of its dependencies.
    pub fn update(&self, state: &StateData, dependencies: &Vec<StateData>) -> (r: Option<u32>)
        ensures
            r == spec_next(self.rule, *state, dependencies@),
    {
        match &self.rule {
            UpdateRule::Replace => match state.update {
                Some(Request::Select(v)) => Some(v),
                _ => state.current,
            },
            UpdateRule::Substate { required, default, persistent } => {
                if dependencies_hold(required, dependencies) {
                    let v = match state.update {
                        Some(Request::Select(v)) => v,
                        _ => match state.current {
                            Some(c) => c,
                            None => match state.previous {
                                Some(Some(p)) if *persistent => p,
                                _ => *default,
                            },
                        },
                    };
                    Some(v)
                } else {
                    None
                }
            },
            UpdateRule::Cycle { count } => cycle_next(state, *count),
        }
    }
}

/// A record after one update pass: the flag of the last pass is cleared; when
/// a dependency was recomputed or an update is requested, the next value is
/// committed and the request consumed; otherwise nothing else changes.
pub open spec fn spec_stepped(rule: UpdateRule, state: StateData, snapshot: Seq<StateData>) -> StateData {
    let fresh = StateData { is_updated: false, ..state };
    if spec_any_updated(snapshot) || state.update is Some {
        StateData { update: None, ..fresh.committed(spec_next(rule, fresh, snapshot)) }
    } else {
        fresh
    }
}

/// Runs one update pass on one record, given the snapshot of its dependencies.
pub fn update_record(def: &StateDef, state: StateData, snapshot: &Vec<StateData>) -> (r: StateData)
    ensures
        r == spec_stepped(def.rule, state, snapshot@),
{
    let mut state = state;
    state.is_updated = false;
    let dependency_updated = StateSet::any_updated(snapshot);
    let state_should_update = state.update.should_update();
    if dependency_updated || state_should_update {
        let next = def.update(&state, snapshot);
        state.inner_update(next);
        state.update.post_update();
    }
    state
}

/// Errors of the state machinery. Each leaves everything as it was.
#[derive(Clone, Copy, Debug, PartialEq, Eq)]
pub enum StateError {
    /// A dependency names a state that is not declared before it.
    UnknownDependency,
    /// A substate's required variants do not match its dependencies one for one.
    MismatchedRequirements,
    /// The catalog cannot hold another state.
    CatalogFull,
    /// No state with that index is declared.
    UnknownState,
    /// No context with that index exists.
    UnknownContext,
    /// No global context exists yet.
    NoGlobalContext,
    /// The state already has a record on that context.
    AlreadyInitialized,
    /// The state has no record on that context.
    NotInitialized,
    /// A dependency of the state has no record on that context.
    MissingDependency,
    /// A mandatory state was given no value.
    MissingValue,
}

/// The declared state types, each after its dependencies.
pub struct StateCatalog {
    pub defs: Vec<StateDef>,
    pub orders: Vec<u32>,
}

/// The most states a catalog holds, so that every order fits.
pub const MAX_STATES: usize = 1000000;

impl StateCatalog {
    /// Every state depends only on states declared before it, and its order
    /// is one more than the highest order among its dependencies.
    pub open spec fn wf(&self) -> bool {
        &&& self.orders@.len() == self.defs@.len()
        &&& self.defs@.len() <= MAX_STATES
        &&& forall|s: int, k: int| 0 <= s < self.defs@.len() && 0 <= k < self.defs@[s].dependencies.members@.len()
            ==> #[trigger] self.defs@[s].dependencies.members@[k] < s
        &&& forall|s: int| 0 <= s < self.defs@.len() ==> #[trigger] self.orders@[s] as nat
            == 1 + spec_highest_order(self.defs@[s].dependencies.members@, self.orders@)
        &&& forall|s: int| 0 <= s < self.defs@.len() ==> #[trigger] self.orders@[s] <= s + 1
    }

    /// The number of declared states.
    pub open spec fn len(&self) -> nat {
        self.defs@.len()
    }

    /// The dependencies of state `s`.
    pub open spec fn deps(&self, s: int) -> Seq<usize> {
        self.defs@[s].dependencies.members@
    }

    /// Creates an empty catalog.
    pub fn new() -> (r: StateCatalog)
        ensures
            r.wf(),
            r.len() == 0,
    {
        StateCatalog { defs: Vec::new(), orders: Vec::new() }
    }

    /// Returns the number of declared states.
    pub fn count(&self) -> (r: usize)
        ensures
            r == self.len(),
    {
        self.defs.len()
    }

    /// Returns the order of state `s`.
    pub fn order(&self, s: usize) -> (r: u32)
        requires
            self.wf(),
            s < self.len(),
        ensures
            r == self.orders@[s as int],
    {
        self.orders[s]
    }

    /// Declares a state type and returns its index. Its dependencies must be
    /// declared already; a substate names one required variant per dependency.
    pub fn declare(&mut self, def: StateDef) -> (r: Result<usize, StateError>)
        requires
            old(self).wf(),
        ensures
            final(self).wf(),
            r == (if exists|k: int| 0 <= k < def.dependencies.members@.len()
                && #[trigger] def.dependencies.members@[k] >= old(self).len() {
                Err::<usize, StateError>(StateError::UnknownDependency)
            } else if def.rule is Substate && def.rule->required@.len()
                != def.dependencies.members@.len() {
                Err(StateError::MismatchedRequirements)
            } else if old(self).len() >= MAX_STATES {
                Err(StateError::CatalogFull)
            } else {
                Ok(old(self).len() as usize)
            }),
            r.is_ok() ==> final(self).defs@ == old(self).defs@.push(def),
            r.is_ok() ==> final(self).orders@ == old(self).orders@.push(
                (1 + spec_highest_order(def.dependencies.members@, old(self).orders@)) as u32),
            r.is_err() ==> final(self).defs@ == old(self).defs@ && final(self).orders@ == old(self).orders@,
    {
        let n = self.defs.len();
        let mut k: usize = 0;
        while k < def.dependencies.members.len()
            invariant
                k <= def.dependencies.members@.len(),
                n == self.defs@.len(),
                self.wf(),
                forall|j: int| 0 <= j < k ==> #[trigger] def.dependencies.members@[j] < n,
            decreases def.dependencies.members@.len() - k,
        {
            if def.dependencies.members[k] >= n {
                return Err(StateError::UnknownDependency);
            }
            k = k + 1;
        }
        match &def.rule {
            UpdateRule::Substate { required, .. } => {
                if required.len() != def.dependencies.members.len() {
                    return Err(StateError::MismatchedRequirements);
                }
            },
            _ => {},
        }
        if n >= MAX_STATES {
            return Err(StateError::CatalogFull);
        }
        proof {
            lemma_highest_prefix(def.dependencies.members@, self.orders@, def.dependencies.members@.len() as int);
        }
        let highest = def.dependencies.highest_order(&self.orders);
        assert(highest <= n) by {
            let h = spec_highest_order(def.dependencies.members@, self.orders@);
            if h != 0 {
                let i = choose|i: int| 0 <= i < def.dependencies.members@.len()
                    && h == self.orders@[#[trigger] def.dependencies.members@[i] as int];
                assert(self.orders@[def.dependencies.members@[i] as int] <= def.dependencies.members@[i] + 1);
            }
        }
        let ghost old_orders = self.orders@;
        self.orders.push(highest + 1);
        self.defs.push(def);
        proof {
            assert forall|s: int| 0 <= s < self.defs@.len() implies #[trigger] self.orders@[s] as nat
                == 1 + spec_highest_order(self.defs@[s].dependencies.members@, self.orders@) by {
                lemma_highest_unchanged(self.defs@[s].dependencies.members@, old_orders, self.orders@,
                    if s < n { s } else { n as int });
            }
        }
        Ok(n)
    }
}

/// The highest order of a set whose members lie below `bound` does not depend
/// on the orders at or above `bound`.
pub proof fn lemma_highest_unchanged(members: Seq<usize>, a: Seq<u32>, b: Seq<u32>, bound: int)
    requires
        forall|k: int| 0 <= k < members.len() ==> #[trigger] members[k] < bound,
        bound <= a.len() <= b.len(),
        forall|i: int| 0 <= i < bound ==> a[i] == b[i],
    ensures
        spec_highest_order(members, a) == spec_highest_order(members, b),
{
    lemma_highest_prefix_unchanged(members, a, b, bound, members.len() as int);
}

proof fn lemma_highest_prefix_unchanged(members: Seq<usize>, a: Seq<u32>, b: Seq<u32>, bound: int, n: int)
    requires
        0 <= n <= members.len(),
        forall|k: int| 0 <= k < members.len() ==> #[trigger] members[k] < bound,
        bound <= a.len() <= b.len(),
        forall|i: int| 0 <= i < bound ==> a[i] == b[i],
    ensures
        crate::state_set::highest_prefix(members, a, n) == crate::state_set::highest_prefix(members, b, n),
    decreases n,
{
    if n > 0 {
        lemma_highest_prefix_unchanged(members, a, b, bound, n - 1);
        assert(members[n - 1] < bound);
    }
}

} // verus!
