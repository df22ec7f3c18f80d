//! The per-tick passes: the update pass, by ascending order, and the
//! transition phase, whose notifications go from leaves to roots for exits
//! and from roots to leaves for enters.

use vstd::prelude::*;
use crate::components::StateData;
use crate::config::StateConfig;
use crate::state::{spec_stepped, update_record};
use crate::transitions::{Notification, record_exit_events, record_enter_events, emit_exit_events, emit_enter_events};
use crate::world::{StateWorld, lemma_dependency_order};

verus! {

/// The records of the dependencies `deps` on context `c`.
pub open spec fn spec_snapshot(recs: Seq<Seq<Option<StateData>>>, c: int, deps: Seq<usize>) -> Seq<StateData> {
    Seq::new(deps.len(), |k: int| recs[c][deps[k] as int]->Some_0)
}

/// A snapshot does not see a change confined to a state outside it.
proof fn lemma_snapshot_frame(a: Seq<Seq<Option<StateData>>>, b: Seq<Seq<Option<StateData>>>, c: int, deps: Seq<usize>, col: int)
    requires
        0 <= c < a.len(),
        a.len() == b.len(),
        forall|k: int| 0 <= k < deps.len() ==> #[trigger] deps[k] != col && deps[k] < a[c].len(),
        a[c].len() == b[c].len(),
        forall|s: int| 0 <= s < a[c].len() && s != col ==> #[trigger] a[c][s] == b[c][s],
    ensures
        spec_snapshot(a, c, deps) == spec_snapshot(b, c, deps),
{
    assert(spec_snapshot(a, c, deps) =~= spec_snapshot(b, c, deps));
}

impl StateWorld {
    /// The record of state `s` on context `c` after an update pass whose
    /// results are `after`: registered states with a record are stepped
    /// against their dependencies' new records; everything else is kept.
    pub open spec fn spec_after_pass(&self, after: Seq<Seq<Option<StateData>>>, c: int, s: int) -> Option<StateData> {
        if self.is_registered(s) && self.recs()[c][s] is Some {
            Some(spec_stepped(self.catalog.defs@[s].rule, self.recs()[c][s]->Some_0,
                spec_snapshot(after, c, self.catalog.deps(s))))
        } else {
            self.recs()[c][s]
        }
    }

    /// Returns the records of the dependencies of `s` on context `c`.
    pub fn fetch(&self, c: usize, s: usize) -> (r: Vec<StateData>)
        requires
            self.wf(),
            c < self.contexts@.len(),
            s < self.n(),
            self.recs()[c as int][s as int] is Some,
        ensures
            r@ == spec_snapshot(self.recs(), c as int, self.catalog.deps(s as int)),
    {
        let ndeps = self.catalog.defs[s].dependencies.members.len();
        let mut out: Vec<StateData> = Vec::new();
        let mut k: usize = 0;
        assert(self.recs()[c as int] == self.contexts@[c as int].records@);
        while k < ndeps
            invariant
                self.wf(),
                c < self.contexts@.len(),
                s < self.n(),
                self.recs()[c as int][s as int] is Some,
                self.recs()[c as int] == self.contexts@[c as int].records@,
                k <= ndeps,
                ndeps == self.catalog.deps(s as int).len(),
                out@ == spec_snapshot(self.recs(), c as int, self.catalog.deps(s as int)).take(k as int),
            decreases ndeps - k,
        {
            let d = self.catalog.defs[s].dependencies.members[k];
            proof {
                lemma_dependency_order(&self.catalog, s as int, k as int);
                assert(self.recs()[c as int][self.catalog.deps(s as int)[k as int] as int] is Some);
            }
            match self.contexts[c].records[d] {
                Some(rec) => {
                    out.push(rec);
                },
                None => {},
            }
            assert(out@ =~= spec_snapshot(self.recs(), c as int, self.catalog.deps(s as int)).take(k + 1));
            k = k + 1;
        }
        assert(out@ =~= spec_snapshot(self.recs(), c as int, self.catalog.deps(s as int)));
        out
    }

    /// Runs the update of state `s` on every context that has its record.
    pub fn update_state_data_system(&mut self, s: usize)
        requires
            old(self).wf(),
            s < old(self).n(),
        ensures
            final(self).wf(),
            final(self).catalog == old(self).catalog,
            final(self).registered == old(self).registered,
            final(self).globals() == old(self).globals(),
            final(self).recs().len() == old(self).recs().len(),
            forall|c: int| 0 <= c < old(self).recs().len() ==> (#[trigger] final(self).recs()[c]).len() == old(self).n(),
            forall|c: int, t: int| 0 <= c < old(self).recs().len() && 0 <= t < old(self).n()
                ==> #[trigger] final(self).recs()[c][t] == if t == s && old(self).recs()[c][t] is Some {
                    Some(spec_stepped(old(self).catalog.defs@[t].rule, old(self).recs()[c][t]->Some_0,
                        spec_snapshot(old(self).recs(), c, old(self).catalog.deps(t))))
                } else {
                    old(self).recs()[c][t]
                },
    {
        let mut c: usize = 0;
        while c < self.contexts.len()
            invariant
                self.wf(),
                old(self).wf(),
                s < self.n(),
                self.catalog == old(self).catalog,
                self.registered == old(self).registered,
                self.globals() == old(self).globals(),
                self.recs().len() == old(self).recs().len(),
                c <= self.recs().len(),
                forall|c2: int| 0 <= c2 < self.recs().len() ==> (#[trigger] self.recs()[c2]).len() == self.n(),
                forall|c2: int, t: int| 0 <= c2 < old(self).recs().len() && 0 <= t < old(self).n()
                    ==> #[trigger] self.recs()[c2][t] == if t == s && c2 < c && old(self).recs()[c2][t] is Some {
                        Some(spec_stepped(old(self).catalog.defs@[t].rule, old(self).recs()[c2][t]->Some_0,
                            spec_snapshot(old(self).recs(), c2, old(self).catalog.deps(t))))
                    } else {
                        old(self).recs()[c2][t]
                    },
            decreases self.recs().len() - c,
        {
            assert(self.recs()[c as int] == self.contexts@[c as int].records@);
            match self.contexts[c].records[s] {
                Some(rec) => {
                    let snapshot = self.fetch(c, s);
                    proof {
                        assert forall|k: int| 0 <= k < self.catalog.deps(s as int).len() implies
                            #[trigger] self.catalog.deps(s as int)[k] != s && self.catalog.deps(s as int)[k] < self.recs()[c as int].len() by {
                            lemma_dependency_order(&self.catalog, s as int, k);
                        }
                        assert(old(self).recs()[c as int].len() == old(self).n());
                        lemma_snapshot_frame(self.recs(), old(self).recs(), c as int, self.catalog.deps(s as int), s as int);
                    }
                    let next = update_record(&self.catalog.defs[s], rec, &snapshot);
                    let ghost mid = *self;
                    self.set_record(c, s, Some(next));
                    proof {
                        assert forall|c2: int, t: int, k: int| 0 <= c2 < self.recs().len() && 0 <= t < self.n()
                            && (#[trigger] self.recs()[c2][t]) is Some && 0 <= k < self.catalog.deps(t).len()
                            implies self.recs()[c2][#[trigger] self.catalog.deps(t)[k] as int] is Some by {
                            assert(mid.recs()[c2][t] is Some);
                        }
                    }
                },
                None => {},
            }
            c = c + 1;
        }
    }
}


/// Progress of an update pass over `w`: the registered states of order below
/// `k`, and those of order `k` with index below `i`, hold their new records in
/// `now`; every other record is as in `w`.
pub open spec fn pass_progress(w: &StateWorld, now: Seq<Seq<Option<StateData>>>, k: int, i: int) -> bool {
    &&& now.len() == w.recs().len()
    &&& forall|c: int| 0 <= c < now.len() ==> (#[trigger] now[c]).len() == w.n()
    &&& forall|c: int, s: int| 0 <= c < now.len() && 0 <= s < w.n() ==> #[trigger] now[c][s] == if w.is_registered(s)
        && w.recs()[c][s] is Some && (w.ord(s) < k || (w.ord(s) == k && s < i)) {
        Some(spec_stepped(w.catalog.defs@[s].rule, w.recs()[c][s]->Some_0, spec_snapshot(now, c, w.catalog.deps(s))))
    } else {
        w.recs()[c][s]
    }
}

/// What an update pass did to `w0`, giving `w1`: only records changed, each
/// as `spec_after_pass` says.
pub open spec fn update_post(w0: &StateWorld, w1: &StateWorld) -> bool {
    &&& w1.wf()
    &&& w1.catalog == w0.catalog
    &&& w1.registered == w0.registered
    &&& w1.globals() == w0.globals()
    &&& w1.recs().len() == w0.recs().len()
    &&& forall|c: int| 0 <= c < w0.recs().len() ==> (#[trigger] w1.recs()[c]).len() == w0.n()
    &&& forall|c: int, s: int| 0 <= c < w0.recs().len() && 0 <= s < w0.n()
        ==> #[trigger] w1.recs()[c][s] == w0.spec_after_pass(w1.recs(), c, s)
}

proof fn lemma_pass_step(w: &StateWorld, cur: &StateWorld, next: &StateWorld, k: int, i: int)
    requires
        w.wf(),
        cur.wf(),
        cur.catalog == w.catalog,
        cur.registered == w.registered,
        pass_progress(w, cur.recs(), k, i),
        0 <= i < w.n(),
        w.is_registered(i),
        w.ord(i) == k,
        next.recs().len() == cur.recs().len(),
        forall|c: int| 0 <= c < cur.recs().len() ==> (#[trigger] next.recs()[c]).len() == w.n(),
        forall|c: int, t: int| 0 <= c < cur.recs().len() && 0 <= t < w.n()
            ==> #[trigger] next.recs()[c][t] == if t == i && cur.recs()[c][t] is Some {
                Some(spec_stepped(w.catalog.defs@[t].rule, cur.recs()[c][t]->Some_0,
                    spec_snapshot(cur.recs(), c, w.catalog.deps(t))))
            } else {
                cur.recs()[c][t]
            },
    ensures
        pass_progress(w, next.recs(), k, i + 1),
{
    let a = next.recs();
    let b = cur.recs();
    assert forall|c: int, s: int| 0 <= c < a.len() && 0 <= s < w.n() implies #[trigger] a[c][s] == if w.is_registered(s)
        && w.recs()[c][s] is Some && (w.ord(s) < k || (w.ord(s) == k && s < i + 1)) {
        Some(spec_stepped(w.catalog.defs@[s].rule, w.recs()[c][s]->Some_0, spec_snapshot(a, c, w.catalog.deps(s))))
    } else {
        w.recs()[c][s]
    } by {
        assert(b[c][s] == a[c][s] || s == i);
        if w.is_registered(s) && w.recs()[c][s] is Some && (w.ord(s) < k || (w.ord(s) == k && s <= i)) {
            assert forall|j: int| 0 <= j < w.catalog.deps(s).len() implies
                #[trigger] w.catalog.deps(s)[j] != i && w.catalog.deps(s)[j] < a[c].len() by {
                lemma_dependency_order(&w.catalog, s, j);
            }
            assert forall|t: int| 0 <= t < a[c].len() && t != i implies #[trigger] a[c][t] == b[c][t] by {
                assert(a[c][t] == b[c][t]);
            }
            lemma_snapshot_frame(a, b, c, w.catalog.deps(s), i);
        }
    }
}

impl StateWorld {
    /// Runs one update pass: every registered state, by ascending order, so
    /// that each reads the new records of its dependencies.
    pub fn run_update_phase(&mut self)
        requires
            old(self).wf(),
        ensures
            update_post(old(self), final(self)),
    {
        let n = self.registered.len();
        let ghost w = *old(self);
        proof {
            assert(pass_progress(&w, self.recs(), 1, 0));
        }
        let mut k: usize = 1;
        while k <= n
            invariant
                self.wf(),
                w.wf(),
                w == *old(self),
                n == w.n(),
                1 <= k <= n + 1,
                self.catalog == w.catalog,
                self.registered == w.registered,
                self.globals() == w.globals(),
                pass_progress(&w, self.recs(), k as int, 0),
            decreases n + 1 - k,
        {
            let mut i: usize = 0;
            while i < n
                invariant
                    self.wf(),
                    w.wf(),
                    w == *old(self),
                    n == w.n(),
                    1 <= k <= n,
                    i <= n,
                    self.catalog == w.catalog,
                    self.registered == w.registered,
                    self.globals() == w.globals(),
                    pass_progress(&w, self.recs(), k as int, i as int),
                decreases n - i,
            {
                if self.registered[i].is_some() && self.catalog.orders[i] as usize == k {
                    let ghost cur = *self;
                    self.update_state_data_system(i);
                    proof {
                        lemma_pass_step(&w, &cur, self, k as int, i as int);
                    }
                }
                i = i + 1;
            }
            k = k + 1;
        }
        proof {
            assert forall|s: int| 0 <= s < n implies #[trigger] w.ord(s) < k by {
                assert(w.catalog.orders@[s] <= s + 1);
            }
        }
    }
}


/// Where notifications of context `c` go: broadcast for the global context,
/// aimed at `c` otherwise.
pub open spec fn target_of(w: &StateWorld, c: int) -> Option<usize> {
    if w.globals()[c] { None } else { Some(c as usize) }
}

/// The configuration state `s` was registered with.
pub open spec fn config_of(w: &StateWorld, s: int) -> StateConfig {
    w.registered@[s]->Some_0.config
}

/// Exit notifications of state `s` on the contexts below `m`.
pub open spec fn state_exits(w: &StateWorld, s: int, m: int) -> Seq<Notification>
    decreases m,
{
    if m <= 0 {
        Seq::empty()
    } else {
        state_exits(w, s, m - 1) + if w.is_registered(s) && w.recs()[m - 1][s] is Some {
            record_exit_events(config_of(w, s), s as usize, target_of(w, m - 1), w.recs()[m - 1][s]->Some_0)
        } else {
            Seq::empty()
        }
    }
}

/// Enter notifications of state `s` on the contexts below `m`.
pub open spec fn state_enters(w: &StateWorld, s: int, m: int) -> Seq<Notification>
    decreases m,
{
    if m <= 0 {
        Seq::empty()
    } else {
        state_enters(w, s, m - 1) + if w.is_registered(s) && w.recs()[m - 1][s] is Some {
            record_enter_events(config_of(w, s), s as usize, target_of(w, m - 1), w.recs()[m - 1][s]->Some_0)
        } else {
            Seq::empty()
        }
    }
}

/// Exit notifications of the states of order `k` with index below `i`.
pub open spec fn round_exits(w: &StateWorld, k: int, i: int) -> Seq<Notification>
    decreases i,
{
    if i <= 0 {
        Seq::empty()
    } else {
        round_exits(w, k, i - 1) + if w.ord(i - 1) == k {
            state_exits(w, i - 1, w.recs().len() as int)
        } else {
            Seq::empty()
        }
    }
}

/// Enter notifications of the states of order `k` with index below `i`.
pub open spec fn round_enters(w: &StateWorld, k: int, i: int) -> Seq<Notification>
    decreases i,
{
    if i <= 0 {
        Seq::empty()
    } else {
        round_enters(w, k, i - 1) + if w.ord(i - 1) == k {
            state_enters(w, i - 1, w.recs().len() as int)
        } else {
            Seq::empty()
        }
    }
}

/// Exit notifications of the `j` highest orders, highest first.
pub open spec fn exit_log(w: &StateWorld, j: int) -> Seq<Notification>
    decreases j,
{
    if j <= 0 {
        Seq::empty()
    } else {
        exit_log(w, j - 1) + round_exits(w, w.n() - j + 1, w.n() as int)
    }
}

/// Enter notifications of the orders 1 to `j`, lowest first.
pub open spec fn enter_log(w: &StateWorld, j: int) -> Seq<Notification>
    decreases j,
{
    if j <= 0 {
        Seq::empty()
    } else {
        enter_log(w, j - 1) + round_enters(w, j, w.n() as int)
    }
}

/// All notifications of a transition phase: exits from leaves to roots, then
/// enters from roots to leaves.
pub open spec fn transition_log(w: &StateWorld) -> Seq<Notification> {
    exit_log(w, w.n() as int) + enter_log(w, w.n() as int)
}

impl StateWorld {
    fn emit_state(&self, s: usize, exits: bool, out: &mut Vec<Notification>)
        requires
            self.wf(),
            s < self.n(),
        ensures
            exits ==> final(out)@ == old(out)@ + state_exits(self, s as int, self.recs().len() as int),
            !exits ==> final(out)@ == old(out)@ + state_enters(self, s as int, self.recs().len() as int),
    {
        let mut c: usize = 0;
        while c < self.contexts.len()
            invariant
                self.registered@.len() == self.n(),
                forall|c2: int| 0 <= c2 < self.recs().len() ==> (#[trigger] self.recs()[c2]).len() == self.n(),
                s < self.n(),
                c <= self.recs().len(),
                exits ==> out@ == old(out)@ + state_exits(self, s as int, c as int),
                !exits ==> out@ == old(out)@ + state_enters(self, s as int, c as int),
            decreases self.recs().len() - c,
        {
            assert(self.recs()[c as int] == self.contexts@[c as int].records@);
            assert(self.recs()[c as int].len() == self.n());
            let target = if self.contexts[c].marker.is_some() { None } else { Some(c) };
            assert(target == target_of(self, c as int));
            match (self.registered[s], self.contexts[c].records[s]) {
                (Some(reg), Some(rec)) => {
                    if exits {
                        emit_exit_events(out, reg.config, s, target, &rec);
                    } else {
                        emit_enter_events(out, reg.config, s, target, &rec);
                    }
                },
                _ => {},
            }
            proof {
                if exits {
                    assert(out@ =~= old(out)@ + state_exits(self, s as int, c + 1));
                } else {
                    assert(out@ =~= old(out)@ + state_enters(self, s as int, c + 1));
                }
            }
            c = c + 1;
        }
    }

    fn emit_round(&self, k: usize, exits: bool, out: &mut Vec<Notification>)
        requires
            self.wf(),
        ensures
            exits ==> final(out)@ == old(out)@ + round_exits(self, k as int, self.n() as int),
            !exits ==> final(out)@ == old(out)@ + round_enters(self, k as int, self.n() as int),
    {
        let n = self.registered.len();
        let mut i: usize = 0;
        while i < n
            invariant
                self.wf(),
                n == self.n(),
                i <= n,
                exits ==> out@ == old(out)@ + round_exits(self, k as int, i as int),
                !exits ==> out@ == old(out)@ + round_enters(self, k as int, i as int),
            decreases n - i,
        {
            if self.catalog.orders[i] as usize == k {
                self.emit_state(i, exits, out);
            }
            proof {
                if exits {
                    assert(out@ =~= old(out)@ + round_exits(self, k as int, i + 1));
                } else {
                    assert(out@ =~= old(out)@ + round_enters(self, k as int, i + 1));
                }
            }
            i = i + 1;
        }
    }

    /// Runs a transition phase and returns its notifications: exit ones by
    /// descending order, then enter ones by ascending order. Records are
    /// only read.
    pub fn run_transition_phase(&self) -> (r: Vec<Notification>)
        requires
            self.wf(),
        ensures
            r@ == transition_log(self),
    {
        let n = self.registered.len();
        let mut out: Vec<Notification> = Vec::new();
        let mut j: usize = 1;
        while j <= n
            invariant
                self.wf(),
                n == self.n(),
                1 <= j <= n + 1,
                out@ == exit_log(self, j - 1),
            decreases n + 1 - j,
        {
            self.emit_round(n - j + 1, true, &mut out);
            j = j + 1;
        }
        let ghost exits = out@;
        j = 1;
        while j <= n
            invariant
                self.wf(),
                n == self.n(),
                1 <= j <= n + 1,
                exits == exit_log(self, n as int),
                out@ == exits + enter_log(self, j - 1),
            decreases n + 1 - j,
        {
            self.emit_round(j, false, &mut out);
            proof {
                assert(out@ =~= exits + enter_log(self, j as int));
            }
            j = j + 1;
        }
        out
    }
}


impl StateWorld {
    /// Runs one tick: an update pass, then a transition phase over its
    /// results, whose notifications are returned.
    pub fn run_state_transition(&mut self) -> (r: Vec<Notification>)
        requires
            old(self).wf(),
        ensures
            update_post(old(self), final(self)),
            r@ == transition_log(final(self)),
    {
        self.run_update_phase();
        self.run_transition_phase()
    }
}

} // verus!
