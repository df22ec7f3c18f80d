//! Properties that relate several operations of the state machinery.

use vstd::prelude::*;
use crate::components::{StateData, Request};
use crate::config::StateConfig;
use crate::state::{StateError, UpdateRule, spec_dependencies_hold};
use crate::state_set::spec_any_updated;
use crate::transitions::{
    Notification, Transition, record_exit_events, record_enter_events,
    spec_exit, spec_enter, spec_reexit, spec_reenter,
};
use crate::world::{StateWorld, register_post, lemma_dependency_order};
use crate::scheduling::{
    update_post, spec_snapshot, state_exits, state_enters, round_exits, round_enters, exit_log, enter_log,
    transition_log,
};

verus! {

/// Registering a state that is already registered changes nothing: the state
/// keeps its one registration, with its first configuration.
pub proof fn lemma_register_idempotent(
    w0: &StateWorld,
    w1: &StateWorld,
    w2: &StateWorld,
    s: usize,
    first: StateConfig,
    second: StateConfig,
    r1: Result<bool, StateError>,
    r2: Result<bool, StateError>,
)
    requires
        w0.wf(),
        s < w0.n(),
        register_post(w0, w1, s, first, r1),
        register_post(w1, w2, s, second, r2),
    ensures
        r2 == Ok::<bool, StateError>(false),
        w2.registered == w1.registered,
        w2.contexts == w1.contexts,
        !w0.is_registered(s as int) ==> w2.registered@[s as int] == Some(crate::world::RegisteredState { config: first }),
{
}

/// Whether a transition belongs to the exit phase.
pub open spec fn is_exit_kind(t: Transition) -> bool {
    t is ScopedExit || t is OnExit || t is OnReexit
}

proof fn lemma_record_events(config: StateConfig, s: usize, target: Option<usize>, st: StateData)
    ensures
        forall|p: int| 0 <= p < record_exit_events(config, s, target, st).len() ==> (#[trigger] record_exit_events(config, s, target, st)[p]).state == s
            && is_exit_kind(record_exit_events(config, s, target, st)[p].event),
        forall|p: int| 0 <= p < record_enter_events(config, s, target, st).len() ==> (#[trigger] record_enter_events(config, s, target, st)[p]).state == s
            && !is_exit_kind(record_enter_events(config, s, target, st)[p].event),
{
}

proof fn lemma_concat_all(a: Seq<Notification>, b: Seq<Notification>, f: spec_fn(Notification) -> bool)
    requires
        forall|p: int| 0 <= p < a.len() ==> #[trigger] f(a[p]),
        forall|p: int| 0 <= p < b.len() ==> #[trigger] f(b[p]),
    ensures
        forall|p: int| 0 <= p < (a + b).len() ==> #[trigger] f((a + b)[p]),
{
    assert forall|p: int| 0 <= p < (a + b).len() implies #[trigger] f((a + b)[p]) by {
        if p < a.len() {
            assert((a + b)[p] == a[p]);
        } else {
            assert((a + b)[p] == b[p - a.len()]);
        }
    }
}

/// Whether a notification is an exit one of state `s`.
pub open spec fn exit_of(s: int) -> spec_fn(Notification) -> bool {
    |x: Notification| x.state == s && is_exit_kind(x.event)
}

/// Whether a notification is an enter one of state `s`.
pub open spec fn enter_of(s: int) -> spec_fn(Notification) -> bool {
    |x: Notification| x.state == s && !is_exit_kind(x.event)
}

proof fn lemma_state_events(w: &StateWorld, s: int, m: int)
    requires
        w.wf(),
        0 <= s < w.n(),
        0 <= m,
    ensures
        forall|p: int| 0 <= p < state_exits(w, s, m).len() ==> #[trigger] exit_of(s)(state_exits(w, s, m)[p]),
        forall|p: int| 0 <= p < state_enters(w, s, m).len() ==> #[trigger] enter_of(s)(state_enters(w, s, m)[p]),
    decreases m,
{
    if m > 0 {
        lemma_state_events(w, s, m - 1);
        let c = m - 1;
        if w.is_registered(s) && w.recs()[c][s] is Some {
            let cfg = crate::scheduling::config_of(w, s);
            let t = crate::scheduling::target_of(w, c);
            let st = w.recs()[c][s]->Some_0;
            lemma_record_events(cfg, s as usize, t, st);
            let e = record_exit_events(cfg, s as usize, t, st);
            assert forall|p: int| 0 <= p < e.len() implies #[trigger] exit_of(s)(e[p]) by {
                assert(e[p].state == s as usize && is_exit_kind(e[p].event));
                assert(exit_of(s)(e[p]) == (e[p].state == s && is_exit_kind(e[p].event)));
            }
            lemma_concat_all(state_exits(w, s, m - 1), e, exit_of(s));
            let f = record_enter_events(cfg, s as usize, t, st);
            assert forall|p: int| 0 <= p < f.len() implies #[trigger] enter_of(s)(f[p]) by {
                assert(f[p].state == s as usize && !is_exit_kind(f[p].event));
                assert(enter_of(s)(f[p]) == (f[p].state == s && !is_exit_kind(f[p].event)));
            }
            lemma_concat_all(state_enters(w, s, m - 1), f, enter_of(s));
        } else {
            assert(state_exits(w, s, m) =~= state_exits(w, s, m - 1));
            assert(state_enters(w, s, m) =~= state_enters(w, s, m - 1));
        }
    }
}

/// Whether a notification is an exit one of a state of order `k`.
pub open spec fn exit_at(w: StateWorld, k: int) -> spec_fn(Notification) -> bool {
    |x: Notification| w.ord(x.state as int) == k && x.state < w.n() && is_exit_kind(x.event)
}

/// Whether a notification is an enter one of a state of order `k`.
pub open spec fn enter_at(w: StateWorld, k: int) -> spec_fn(Notification) -> bool {
    |x: Notification| w.ord(x.state as int) == k && x.state < w.n() && !is_exit_kind(x.event)
}

proof fn lemma_round_events(w: &StateWorld, k: int, i: int)
    requires
        w.wf(),
        0 <= i <= w.n(),
    ensures
        forall|p: int| 0 <= p < round_exits(w, k, i).len() ==> w.ord((#[trigger] round_exits(w, k, i)[p]).state as int) == k
            && round_exits(w, k, i)[p].state < w.n() && is_exit_kind(round_exits(w, k, i)[p].event),
        forall|p: int| 0 <= p < round_enters(w, k, i).len() ==> w.ord((#[trigger] round_enters(w, k, i)[p]).state as int) == k
            && round_enters(w, k, i)[p].state < w.n() && !is_exit_kind(round_enters(w, k, i)[p].event),
    decreases i,
{
    if i > 0 {
        lemma_round_events(w, k, i - 1);
        let s = i - 1;
        let m = w.recs().len() as int;
        let a = round_exits(w, k, i - 1);
        let b = round_enters(w, k, i - 1);
        assert forall|p: int| 0 <= p < a.len() implies #[trigger] exit_at(*w, k)(a[p]) by {}
        assert forall|p: int| 0 <= p < b.len() implies #[trigger] enter_at(*w, k)(b[p]) by {}
        if w.ord(s) == k {
            lemma_state_events(w, s, m);
            let e = state_exits(w, s, m);
            let f = state_enters(w, s, m);
            assert forall|p: int| 0 <= p < e.len() implies #[trigger] exit_at(*w, k)(e[p]) by {
                assert(exit_of(s)(e[p]));
            }
            assert forall|p: int| 0 <= p < f.len() implies #[trigger] enter_at(*w, k)(f[p]) by {
                assert(enter_of(s)(f[p]));
            }
            lemma_concat_all(a, e, exit_at(*w, k));
            lemma_concat_all(b, f, enter_at(*w, k));
            assert forall|p: int| 0 <= p < round_exits(w, k, i).len() implies w.ord((#[trigger] round_exits(w, k, i)[p]).state as int) == k
                && round_exits(w, k, i)[p].state < w.n() && is_exit_kind(round_exits(w, k, i)[p].event) by {
                assert(exit_at(*w, k)((a + e)[p]));
            }
            assert forall|p: int| 0 <= p < round_enters(w, k, i).len() implies w.ord((#[trigger] round_enters(w, k, i)[p]).state as int) == k
                && round_enters(w, k, i)[p].state < w.n() && !is_exit_kind(round_enters(w, k, i)[p].event) by {
                assert(enter_at(*w, k)((b + f)[p]));
            }
        } else {
            assert(round_exits(w, k, i) =~= a);
            assert(round_enters(w, k, i) =~= b);
        }
    }
}

proof fn lemma_exit_log(w: &StateWorld, j: int)
    requires
        w.wf(),
        0 <= j <= w.n(),
    ensures
        forall|p: int| 0 <= p < exit_log(w, j).len() ==> w.ord((#[trigger] exit_log(w, j)[p]).state as int) >= w.n() - j + 1
            && exit_log(w, j)[p].state < w.n() && is_exit_kind(exit_log(w, j)[p].event),
        forall|p: int, q: int| 0 <= p < q < exit_log(w, j).len()
            ==> w.ord((#[trigger] exit_log(w, j)[p]).state as int) >= w.ord((#[trigger] exit_log(w, j)[q]).state as int),
    decreases j,
{
    if j > 0 {
        lemma_exit_log(w, j - 1);
        lemma_round_events(w, w.n() - j + 1, w.n() as int);
        let a = exit_log(w, j - 1);
        let b = round_exits(w, w.n() - j + 1, w.n() as int);
        assert(exit_log(w, j) == a + b);
        assert forall|p: int| 0 <= p < (a + b).len() implies w.ord((#[trigger] (a + b)[p]).state as int) >= w.n() - j + 1
            && (a + b)[p].state < w.n() && is_exit_kind((a + b)[p].event) by {
            if p < a.len() {
                assert((a + b)[p] == a[p]);
            } else {
                assert((a + b)[p] == b[p - a.len()]);
            }
        }
        assert forall|p: int, q: int| 0 <= p < q < (a + b).len()
            implies w.ord((#[trigger] (a + b)[p]).state as int) >= w.ord((#[trigger] (a + b)[q]).state as int) by {
            if q < a.len() {
                assert((a + b)[p] == a[p]);
                assert((a + b)[q] == a[q]);
            } else if p < a.len() {
                assert((a + b)[p] == a[p]);
                assert((a + b)[q] == b[q - a.len()]);
            } else {
                assert((a + b)[p] == b[p - a.len()]);
                assert((a + b)[q] == b[q - a.len()]);
            }
        }
    }
}

proof fn lemma_enter_log(w: &StateWorld, j: int)
    requires
        w.wf(),
        0 <= j <= w.n(),
    ensures
        forall|p: int| 0 <= p < enter_log(w, j).len() ==> w.ord((#[trigger] enter_log(w, j)[p]).state as int) <= j
            && enter_log(w, j)[p].state < w.n() && !is_exit_kind(enter_log(w, j)[p].event),
        forall|p: int, q: int| 0 <= p < q < enter_log(w, j).len()
            ==> w.ord((#[trigger] enter_log(w, j)[p]).state as int) <= w.ord((#[trigger] enter_log(w, j)[q]).state as int),
    decreases j,
{
    if j > 0 {
        lemma_enter_log(w, j - 1);
        lemma_round_events(w, j, w.n() as int);
        let a = enter_log(w, j - 1);
        let b = round_enters(w, j, w.n() as int);
        assert(enter_log(w, j) == a + b);
        assert forall|p: int| 0 <= p < (a + b).len() implies w.ord((#[trigger] (a + b)[p]).state as int) <= j
            && (a + b)[p].state < w.n() && !is_exit_kind((a + b)[p].event) by {
            if p < a.len() {
                assert((a + b)[p] == a[p]);
            } else {
                assert((a + b)[p] == b[p - a.len()]);
            }
        }
        assert forall|p: int, q: int| 0 <= p < q < (a + b).len()
            implies w.ord((#[trigger] (a + b)[p]).state as int) <= w.ord((#[trigger] (a + b)[q]).state as int) by {
            if q < a.len() {
                assert((a + b)[p] == a[p]);
                assert((a + b)[q] == a[q]);
            } else if p < a.len() {
                assert((a + b)[p] == a[p]);
                assert((a + b)[q] == b[q - a.len()]);
            } else {
                assert((a + b)[p] == b[p - a.len()]);
                assert((a + b)[q] == b[q - a.len()]);
            }
        }
    }
}

/// In a transition phase every exit notification comes before every enter
/// notification; exits go from dependents to their dependencies, enters from
/// dependencies to their dependents.
pub proof fn lemma_transition_order(w: &StateWorld)
    requires
        w.wf(),
    ensures
        forall|p: int, q: int| 0 <= p < q < transition_log(w).len()
            && is_exit_kind((#[trigger] transition_log(w)[q]).event)
            ==> is_exit_kind((#[trigger] transition_log(w)[p]).event),
        forall|p: int, q: int| 0 <= p < transition_log(w).len() && 0 <= q < transition_log(w).len()
            && is_exit_kind((#[trigger] transition_log(w)[p]).event) && is_exit_kind((#[trigger] transition_log(w)[q]).event)
            && w.depends_on(transition_log(w)[p].state as int, transition_log(w)[q].state as int)
            ==> p < q,
        forall|p: int, q: int| 0 <= p < transition_log(w).len() && 0 <= q < transition_log(w).len()
            && !is_exit_kind((#[trigger] transition_log(w)[p]).event) && !is_exit_kind((#[trigger] transition_log(w)[q]).event)
            && w.depends_on(transition_log(w)[q].state as int, transition_log(w)[p].state as int)
            ==> p < q,
{
    let n = w.n() as int;
    lemma_exit_log(w, n);
    lemma_enter_log(w, n);
    let a = exit_log(w, n);
    let b = enter_log(w, n);
    let log = transition_log(w);
    assert(log == a + b);
    assert forall|p: int| 0 <= p < log.len() implies (is_exit_kind(#[trigger] log[p].event) <==> p < a.len())
        && log[p].state < n by {
        if p < a.len() {
            assert(log[p] == a[p]);
        } else {
            assert(log[p] == b[p - a.len()]);
        }
    }
    assert forall|p: int, q: int| 0 <= p < log.len() && 0 <= q < log.len()
        && is_exit_kind((#[trigger] log[p]).event) && is_exit_kind((#[trigger] log[q]).event)
        && w.depends_on(log[p].state as int, log[q].state as int) implies p < q by {
        lemma_depends_order(w, log[p].state as int, log[q].state as int);
        assert(log[p] == a[p]);
        assert(log[q] == a[q]);
        if q <= p {
            if q < p {
                assert(w.ord(a[q].state as int) >= w.ord(a[p].state as int));
            }
        }
    }
    assert forall|p: int, q: int| 0 <= p < log.len() && 0 <= q < log.len()
        && !is_exit_kind((#[trigger] log[p]).event) && !is_exit_kind((#[trigger] log[q]).event)
        && w.depends_on(log[q].state as int, log[p].state as int) implies p < q by {
        lemma_depends_order(w, log[q].state as int, log[p].state as int);
        assert(log[p] == b[p - a.len()]);
        assert(log[q] == b[q - a.len()]);
        if q <= p {
            if q < p {
                assert(w.ord(b[q - a.len()].state as int) <= w.ord(b[p - a.len()].state as int));
            }
        }
    }
}

proof fn lemma_depends_order(w: &StateWorld, s: int, d: int)
    requires
        w.wf(),
        0 <= s < w.n(),
        w.depends_on(s, d),
    ensures
        w.ord(d) < w.ord(s),
{
    let k = choose|k: int| 0 <= k < w.catalog.deps(s).len() && #[trigger] w.catalog.deps(s)[k] == d;
    lemma_dependency_order(&w.catalog, s, k);
}


/// After an update pass, a registered state whose dependency was recomputed
/// is recomputed too.
pub proof fn lemma_dependent_updated(w0: &StateWorld, w1: &StateWorld, c: int, s: int, d: int)
    requires
        w0.wf(),
        update_post(w0, w1),
        0 <= c < w0.recs().len(),
        0 <= s < w0.n(),
        w0.is_registered(s),
        w0.recs()[c][s] is Some,
        w0.depends_on(s, d),
        w1.recs()[c][d] matches Some(r) && r.is_updated,
    ensures
        w1.recs()[c][s] matches Some(r) && r.is_updated,
{
    let k = choose|k: int| 0 <= k < w0.catalog.deps(s).len() && #[trigger] w0.catalog.deps(s)[k] == d;
    let snap = spec_snapshot(w1.recs(), c, w0.catalog.deps(s));
    assert(snap[k].is_updated);
    assert(spec_any_updated(snap));
    assert(w1.recs()[c][s] == w0.spec_after_pass(w1.recs(), c, s));
}

/// After an update pass, a registered state with a pending request is recomputed.
pub proof fn lemma_requested_updated(w0: &StateWorld, w1: &StateWorld, c: int, s: int)
    requires
        w0.wf(),
        update_post(w0, w1),
        0 <= c < w0.recs().len(),
        0 <= s < w0.n(),
        w0.is_registered(s),
        w0.recs()[c][s] matches Some(r) && r.update is Some,
    ensures
        w1.recs()[c][s] matches Some(r) && r.is_updated && r.update is None,
{
    assert(w1.recs()[c][s] == w0.spec_after_pass(w1.recs(), c, s));
}

/// For a chain of registered states `a`, `b`, `cc` on context `c`, where `b`
/// depends on `a` and `cc` on `b`: a request on `a` gets all three
/// recomputed by the update pass, and in the following transition phase `cc`
/// exits before `b`, `b` before `a`, while `a` enters before `b`, `b` before `cc`.
pub proof fn lemma_chain_order(w0: &StateWorld, w1: &StateWorld, c: int, a: int, b: int, cc: int)
    requires
        w0.wf(),
        update_post(w0, w1),
        0 <= c < w0.recs().len(),
        0 <= a < w0.n(),
        0 <= b < w0.n(),
        0 <= cc < w0.n(),
        w0.is_registered(b),
        w0.is_registered(cc),
        w0.depends_on(b, a),
        w0.depends_on(cc, b),
        w0.recs()[c][cc] is Some,
        w0.recs()[c][a] matches Some(r) && r.update is Some,
    ensures
        w1.recs()[c][a] matches Some(r) && r.is_updated,
        w1.recs()[c][b] matches Some(r) && r.is_updated,
        w1.recs()[c][cc] matches Some(r) && r.is_updated,
        forall|p: int, q: int| 0 <= p < transition_log(w1).len() && 0 <= q < transition_log(w1).len()
            && is_exit_kind((#[trigger] transition_log(w1)[p]).event) && is_exit_kind((#[trigger] transition_log(w1)[q]).event)
            && ((transition_log(w1)[p].state == cc && transition_log(w1)[q].state == b)
                || (transition_log(w1)[p].state == b && transition_log(w1)[q].state == a))
            ==> p < q,
        forall|p: int, q: int| 0 <= p < transition_log(w1).len() && 0 <= q < transition_log(w1).len()
            && !is_exit_kind((#[trigger] transition_log(w1)[p]).event) && !is_exit_kind((#[trigger] transition_log(w1)[q]).event)
            && ((transition_log(w1)[p].state == a && transition_log(w1)[q].state == b)
                || (transition_log(w1)[p].state == b && transition_log(w1)[q].state == cc))
            ==> p < q,
{
    let kb = choose|k: int| 0 <= k < w0.catalog.deps(b).len() && #[trigger] w0.catalog.deps(b)[k] == a;
    let kc = choose|k: int| 0 <= k < w0.catalog.deps(cc).len() && #[trigger] w0.catalog.deps(cc)[k] == b;
    assert(w0.recs()[c][b] is Some);
    assert(w0.is_registered(a));
    lemma_requested_updated(w0, w1, c, a);
    lemma_dependent_updated(w0, w1, c, b, a);
    lemma_dependent_updated(w0, w1, c, cc, b);
    lemma_transition_order(w1);
    assert(w1.depends_on(b, a));
    assert(w1.depends_on(cc, b));
}

/// An update pass on a registered state whose request equals its current
/// value, and which keeps existing, is a reentry: the record is marked
/// recomputed and reentrant and keeps its values, and the state announces a
/// reexit and a reenter but no exit and no enter.
pub proof fn lemma_reentrant(w0: &StateWorld, w1: &StateWorld, c: int, s: int)
    requires
        w0.wf(),
        update_post(w0, w1),
        0 <= c < w0.recs().len(),
        0 <= s < w0.n(),
        w0.is_registered(s),
        w0.recs()[c][s] matches Some(r) && r.current is Some && r.update == Some(Request::Select(r.current->Some_0)),
        w0.catalog.defs@[s].rule matches UpdateRule::Substate { required, .. } ==> spec_dependencies_hold(
            required@, spec_snapshot(w1.recs(), c, w0.catalog.deps(s))),
    ensures
        w1.recs()[c][s] is Some,
        ({
            let r0 = w0.recs()[c][s]->Some_0;
            let r1 = w1.recs()[c][s]->Some_0;
            &&& r1.is_updated
            &&& r1.is_reentrant
            &&& r1.current == r0.current
            &&& r1.previous == r0.previous
            &&& spec_exit(r1) is None
            &&& spec_enter(r1) is None
            &&& spec_reexit(r1) == Some(r1.current)
            &&& spec_reenter(r1) == Some(r1.current)
        }),
{
    assert(w1.recs()[c][s] == w0.spec_after_pass(w1.recs(), c, s));
}

/// How an update pass moves a registered substate when a dependency changed
/// and nothing was requested of it: it disappears when a dependency left its
/// required variant; it keeps its value while the dependencies stay; on
/// entry it starts at its default or, when persistent, at the value it left.
pub proof fn lemma_substate_toggle(w0: &StateWorld, w1: &StateWorld, c: int, s: int)
    requires
        w0.wf(),
        update_post(w0, w1),
        0 <= c < w0.recs().len(),
        0 <= s < w0.n(),
        w0.is_registered(s),
        w0.recs()[c][s] matches Some(r) && r.update is None,
        w0.catalog.defs@[s].rule is Substate,
        spec_any_updated(spec_snapshot(w1.recs(), c, w0.catalog.deps(s))),
    ensures
        ({
            let r0 = w0.recs()[c][s]->Some_0;
            let r1 = w1.recs()[c][s]->Some_0;
            let rule = w0.catalog.defs@[s].rule;
            let holds = spec_dependencies_hold(rule->required@, spec_snapshot(w1.recs(), c, w0.catalog.deps(s)));
            &&& w1.recs()[c][s] is Some
            &&& r1.is_updated
            &&& (!holds ==> r1.current is None)
            &&& (holds && r0.current is Some ==> r1.current == r0.current)
            &&& (holds && r0.current is None && !rule->persistent ==> r1.current == Some(rule->default))
            &&& (holds && r0.current is None && rule->persistent ==> r1.current == Some(
                match r0.previous {
                    Some(Some(p)) => p,
                    _ => rule->default,
                }))
        }),
{
    assert(w1.recs()[c][s] == w0.spec_after_pass(w1.recs(), c, s));
}

proof fn lemma_noop_upto(w0: &StateWorld, w1: &StateWorld, s: int)
    requires
        w0.wf(),
        update_post(w0, w1),
        0 <= s <= w0.n(),
        forall|c: int, t: int| 0 <= c < w0.recs().len() && 0 <= t < w0.n() && (#[trigger] w0.recs()[c][t]) is Some
            ==> w0.recs()[c][t]->Some_0.update is None,
    ensures
        forall|c: int, t: int| 0 <= c < w0.recs().len() && 0 <= t < s && w0.is_registered(t)
            && (#[trigger] w0.recs()[c][t]) is Some ==> w1.recs()[c][t]
            == Some(StateData { is_updated: false, ..w0.recs()[c][t]->Some_0 }),
    decreases s,
{
    if s > 0 {
        lemma_noop_upto(w0, w1, s - 1);
        let t = s - 1;
        assert forall|c: int| 0 <= c < w0.recs().len() && w0.is_registered(t) && (#[trigger] w0.recs()[c][t]) is Some
            implies w1.recs()[c][t] == Some(StateData { is_updated: false, ..w0.recs()[c][t]->Some_0 }) by {
            let deps = w0.catalog.deps(t);
            let snap = spec_snapshot(w1.recs(), c, deps);
            assert forall|k: int| 0 <= k < snap.len() implies !(#[trigger] snap[k]).is_updated by {
                lemma_dependency_order(&w0.catalog, t, k);
                let d = deps[k] as int;
                assert(w0.recs()[c][d] is Some);
                assert(w0.is_registered(d));
            }
            assert(!spec_any_updated(snap));
            assert(w1.recs()[c][t] == w0.spec_after_pass(w1.recs(), c, t));
        }
    }
}

proof fn lemma_quiet_log(w: &StateWorld)
    requires
        w.wf(),
        forall|c: int, t: int| 0 <= c < w.recs().len() && 0 <= t < w.n() && w.is_registered(t)
            && (#[trigger] w.recs()[c][t]) is Some ==> !w.recs()[c][t]->Some_0.is_updated,
    ensures
        transition_log(w).len() == 0,
{
    let n = w.n() as int;
    let m = w.recs().len() as int;
    assert forall|s: int, j: int| 0 <= s < n && 0 <= j <= m implies #[trigger] state_exits(w, s, j).len() == 0
        && state_enters(w, s, j).len() == 0 by {
        lemma_quiet_state(w, s, j);
    }
    assert forall|k: int, i: int| 0 <= i <= n implies #[trigger] round_exits(w, k, i).len() == 0 by {
        lemma_quiet_round(w, k, i);
    }
    assert forall|k: int, i: int| 0 <= i <= n implies #[trigger] round_enters(w, k, i).len() == 0 by {
        lemma_quiet_round(w, k, i);
    }
    lemma_quiet_phases(w, n);
}

proof fn lemma_quiet_state(w: &StateWorld, s: int, j: int)
    requires
        w.wf(),
        0 <= s < w.n(),
        0 <= j <= w.recs().len(),
        forall|c: int, t: int| 0 <= c < w.recs().len() && 0 <= t < w.n() && w.is_registered(t)
            && (#[trigger] w.recs()[c][t]) is Some ==> !w.recs()[c][t]->Some_0.is_updated,
    ensures
        state_exits(w, s, j).len() == 0,
        state_enters(w, s, j).len() == 0,
    decreases j,
{
    if j > 0 {
        lemma_quiet_state(w, s, j - 1);
        assert(w.recs()[j - 1].len() == w.n());
    }
}

proof fn lemma_quiet_round(w: &StateWorld, k: int, i: int)
    requires
        w.wf(),
        0 <= i <= w.n(),
        forall|s: int, j: int| 0 <= s < w.n() && 0 <= j <= w.recs().len() ==> #[trigger] state_exits(w, s, j).len() == 0
            && state_enters(w, s, j).len() == 0,
    ensures
        round_exits(w, k, i).len() == 0,
        round_enters(w, k, i).len() == 0,
    decreases i,
{
    if i > 0 {
        lemma_quiet_round(w, k, i - 1);
        assert(state_exits(w, i - 1, w.recs().len() as int).len() == 0);
    }
}

proof fn lemma_quiet_phases(w: &StateWorld, j: int)
    requires
        w.wf(),
        0 <= j <= w.n(),
        forall|k: int, i: int| 0 <= i <= w.n() ==> #[trigger] round_exits(w, k, i).len() == 0,
        forall|k: int, i: int| 0 <= i <= w.n() ==> #[trigger] round_enters(w, k, i).len() == 0,
    ensures
        exit_log(w, j).len() == 0,
        enter_log(w, j).len() == 0,
    decreases j,
{
    if j > 0 {
        lemma_quiet_phases(w, j - 1);
        assert(round_exits(w, w.n() - j + 1, w.n() as int).len() == 0);
        assert(round_exits(w, j, w.n() as int).len() == 0);
        assert(round_enters(w, j, w.n() as int).len() == 0);
    }
}

/// With no request pending anywhere, an update pass recomputes nothing: every
/// registered record only has its recomputed flag cleared, and the following
/// transition phase sends no notification.
pub proof fn lemma_noop_tick(w0: &StateWorld, w1: &StateWorld)
    requires
        w0.wf(),
        update_post(w0, w1),
        forall|c: int, t: int| 0 <= c < w0.recs().len() && 0 <= t < w0.n() && (#[trigger] w0.recs()[c][t]) is Some
            ==> w0.recs()[c][t]->Some_0.update is None,
    ensures
        forall|c: int, t: int| 0 <= c < w0.recs().len() && 0 <= t < w0.n() && w0.is_registered(t)
            && (#[trigger] w0.recs()[c][t]) is Some ==> w1.recs()[c][t]
            == Some(StateData { is_updated: false, ..w0.recs()[c][t]->Some_0 }),
        forall|c: int, t: int| 0 <= c < w0.recs().len() && 0 <= t < w0.n() && !w0.is_registered(t)
            ==> #[trigger] w1.recs()[c][t] == w0.recs()[c][t],
        transition_log(w1).len() == 0,
{
    lemma_noop_upto(w0, w1, w0.n() as int);
    assert forall|c: int, t: int| 0 <= c < w0.recs().len() && 0 <= t < w0.n() && !w0.is_registered(t)
        implies #[trigger] w1.recs()[c][t] == w0.recs()[c][t] by {
        assert(w1.recs()[c][t] == w0.spec_after_pass(w1.recs(), c, t));
    }
    assert forall|c: int, t: int| 0 <= c < w1.recs().len() && 0 <= t < w1.n() && w1.is_registered(t)
        && (#[trigger] w1.recs()[c][t]) is Some implies !w1.recs()[c][t]->Some_0.is_updated by {
        assert(w0.recs()[c][t] is Some);
    }
    lemma_quiet_log(w1);
}


/// A record's history is consistent: the last different value differs from
/// the current one, and a real transition always leaves one behind.
pub open spec fn history_consistent(r: StateData) -> bool {
    &&& (r.previous matches Some(p) ==> p != r.current)
    &&& (r.is_updated && !r.is_reentrant ==> r.previous is Some)
}

/// Every record of `w` has a consistent history.
pub open spec fn histories_consistent(w: &StateWorld) -> bool {
    forall|c: int, s: int| 0 <= c < w.recs().len() && 0 <= s < w.n() && (#[trigger] w.recs()[c][s]) is Some
        ==> history_consistent(w.recs()[c][s]->Some_0)
}

/// A created record has a consistent history.
pub proof fn lemma_fresh_history(initial: Option<u32>)
    ensures
        history_consistent(crate::world::fresh_record(initial)),
{
}

/// An update pass keeps every record's history consistent.
pub proof fn lemma_pass_keeps_histories(w0: &StateWorld, w1: &StateWorld)
    requires
        w0.wf(),
        update_post(w0, w1),
        histories_consistent(w0),
    ensures
        histories_consistent(w1),
{
    assert forall|c: int, s: int| 0 <= c < w1.recs().len() && 0 <= s < w1.n() && (#[trigger] w1.recs()[c][s]) is Some
        implies history_consistent(w1.recs()[c][s]->Some_0) by {
        assert(w1.recs()[c][s] == w0.spec_after_pass(w1.recs(), c, s));
        if !(w0.is_registered(s) && w0.recs()[c][s] is Some) {
            assert(w1.recs()[c][s] == w0.recs()[c][s]);
        }
    }
}

} // verus!
