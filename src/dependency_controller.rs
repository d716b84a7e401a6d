use vstd::prelude::*;
use std::collections::HashMap;
use crate::footprint::ObjectId;

verus! {

broadcast use vstd::std_specs::hash::group_hash_axioms;

/// Identifier of a completion signal: the id of the task that fires it.
pub type SignalId = u64;

/// Index of the last task before `b` in `h` whose footprint holds `o`, or -1.
pub open spec fn last_toucher(h: Seq<Seq<ObjectId>>, b: int, o: ObjectId) -> int
    decreases b,
{
    if b <= 0 {
        -1
    } else if h[b - 1].contains(o) {
        b - 1
    } else {
        last_toucher(h, b - 1, o)
    }
}

/// The signal fired by the task at index `i` of a history (task ids start at 1).
pub open spec fn signal_of(i: int) -> SignalId {
    (i + 1) as SignalId
}

/// The signals that the task at index `i` of `h` must wait for: for each object
/// of its footprint, the signal of the last earlier task that declared it.
pub open spec fn prior_signals(h: Seq<Seq<ObjectId>>, i: int) -> Set<SignalId> {
    Set::new(
        |s: SignalId|
            exists|o: ObjectId|
                #![trigger last_toucher(h, i, o)]
                h[i].contains(o) && last_toucher(h, i, o) >= 0 && s == signal_of(
                    last_toucher(h, i, o),
                ),
    )
}

/// Per-proxy table from object id to the signal of the most recently admitted
/// task that declared that object.
pub struct DependencyController {
    latest: HashMap<ObjectId, SignalId>,
    /// Footprints of the admitted tasks, in admission order.
    history: Ghost<Seq<Seq<ObjectId>>>,
}

impl DependencyController {
    /// Footprints of the admitted tasks, in admission order.
    pub closed spec fn history(&self) -> Seq<Seq<ObjectId>> {
        self.history@
    }

    /// The table maps each object to the signal of its last toucher in the history.
    pub closed spec fn wf(&self) -> bool {
        &&& self.history@.len() <= u64::MAX
        &&& forall|o: ObjectId|
            #![trigger self.latest@.contains_key(o)]
            self.latest@.contains_key(o) <==> last_toucher(
                self.history@,
                self.history@.len() as int,
                o,
            ) >= 0
        &&& forall|o: ObjectId|
            #![trigger self.latest@[o]]
            self.latest@.contains_key(o) ==> self.latest@[o] == signal_of(
                last_toucher(self.history@, self.history@.len() as int, o),
            )
    }

    /// An empty controller: no task admitted yet.
    pub fn new() -> (r: Self)
        ensures
            r.wf(),
            r.history() == Seq::<Seq<ObjectId>>::empty(),
    {
        DependencyController { latest: HashMap::new(), history: Ghost(Seq::empty()) }
    }

    /// Admits the task `task_id` with footprint `obj_ids`. Returns the signals
    /// it must wait for (each once) and the one signal it must fire.
    pub fn get_dependencies(&mut self, task_id: u64, obj_ids: Vec<ObjectId>) -> (r: (
        Vec<SignalId>,
        Vec<SignalId>,
    ))
        requires
            old(self).wf(),
            task_id == old(self).history().len() + 1,
        ensures
            final(self).wf(),
            final(self).history() == old(self).history().push(obj_ids@),
            r.0@.no_duplicates(),
            r.0@.to_set() == prior_signals(final(self).history(), old(self).history().len() as int),
            r.1@ == seq![task_id],
    {
        let ghost h = self.history@;
        let ghost h2 = h.push(obj_ids@);
        let ghost n = h.len() as int;
        let ghost old_latest = self.latest@;
        proof {
            assert forall|o: ObjectId| #[trigger] last_toucher(h2, n, o) == last_toucher(h, n, o) by {
                lemma_last_toucher_push(h, obj_ids@, n, o);
            }
            assert forall|o: ObjectId| #[trigger] old_latest.contains_key(o) implies old_latest[o] <= n by {
                lemma_last_toucher_bounds(h, n, o);
            }
        }
        let mut priors: Vec<SignalId> = Vec::new();
        let mut i: usize = 0;
        while i < obj_ids.len()
            invariant
                i <= obj_ids@.len(),
                h2 == h.push(obj_ids@),
                n == h.len(),
                task_id == n + 1,
                forall|o: ObjectId| #[trigger] last_toucher(h2, n, o) == last_toucher(h, n, o),
                forall|o: ObjectId|
                    #![trigger self.latest@.contains_key(o)]
                    self.latest@.contains_key(o) <==> (old_latest.contains_key(o)
                        || obj_ids@.take(i as int).contains(o)),
                forall|o: ObjectId|
                    #![trigger self.latest@[o]]
                    self.latest@.contains_key(o) ==> self.latest@[o] == if obj_ids@.take(
                        i as int,
                    ).contains(o) {
                        task_id
                    } else {
                        old_latest[o]
                    },
                priors@.no_duplicates(),
                forall|o: ObjectId| #[trigger] old_latest.contains_key(o) ==> old_latest[o] <= n,
                forall|s: SignalId|
                    priors@.contains(s) <==> exists|o: ObjectId|
                        #![trigger old_latest[o]]
                        obj_ids@.take(i as int).contains(o) && old_latest.contains_key(o) && s
                            == old_latest[o],
            decreases obj_ids@.len() - i,
        {
            let o = obj_ids[i];
            let ghost seen = obj_ids@.take(i as int);
            let ghost seen2 = seen.push(o);
            let ghost pri0 = priors@;
            assert(obj_ids@.take(i as int + 1) == seen2);
            let prev = self.latest.insert(o, task_id);
            match prev {
                Some(p) => {
                    if p != task_id && !contains(&priors, p) {
                        priors.push(p);
                    }
                },
                None => {},
            }
            proof {
                assert forall|x: ObjectId| #[trigger] seen2.contains(x) <==> (seen.contains(x) || x == o) by {
                    lemma_push_contains(seen, o, x);
                }
                assert forall|s: SignalId| #[trigger] priors@.contains(s) <==> (pri0.contains(s) || (
                    old_latest.contains_key(o) && s == old_latest[o])) by {
                    if priors@ != pri0 {
                        lemma_push_contains(pri0, prev.unwrap(), s);
                    }
                    if old_latest.contains_key(o) && s == old_latest[o] && seen.contains(o) {
                        assert(pri0.contains(s));
                    }
                }
                assert forall|s: SignalId|
                    priors@.contains(s) <==> exists|x: ObjectId|
                        #![trigger old_latest[x]]
                        seen2.contains(x) && old_latest.contains_key(x) && s == old_latest[x] by {
                    if pri0.contains(s) {
                        let x = choose|x: ObjectId|
                            #![trigger old_latest[x]]
                            seen.contains(x) && old_latest.contains_key(x) && s == old_latest[x];
                        assert(seen2.contains(x));
                    }
                    if old_latest.contains_key(o) && s == old_latest[o] {
                        assert(seen2.contains(o));
                    }
                    if exists|x: ObjectId|
                        #![trigger old_latest[x]]
                        seen2.contains(x) && old_latest.contains_key(x) && s == old_latest[x] {
                        let x = choose|x: ObjectId|
                            #![trigger old_latest[x]]
                            seen2.contains(x) && old_latest.contains_key(x) && s == old_latest[x];
                        if x != o {
                            assert(seen.contains(x));
                            assert(pri0.contains(s));
                        }
                    }
                }
            }
            i = i + 1;
        }
        proof {
            assert(obj_ids@.take(obj_ids@.len() as int) == obj_ids@);
            self.history = Ghost(h2);
            assert(h2[n] == obj_ids@);
            assert forall|o: ObjectId| #[trigger] last_toucher(h2, n + 1, o) == if obj_ids@.contains(o) {
                n
            } else {
                last_toucher(h, n, o)
            } by {
                assert(h2[n] == obj_ids@);
                assert(last_toucher(h2, n, o) == last_toucher(h, n, o));
            }
            assert forall|o: ObjectId| #[trigger] self.latest@.contains_key(o) <==> last_toucher(
                h2, n + 1, o) >= 0 by {
                lemma_last_toucher_bounds(h, n, o);
            }
            assert forall|o: ObjectId| #[trigger] self.latest@.contains_key(o) implies self.latest@[o]
                == signal_of(last_toucher(h2, n + 1, o)) by {
                lemma_last_toucher_bounds(h, n, o);
            }
            assert forall|s: SignalId|
                priors@.to_set().contains(s) <==> prior_signals(h2, n).contains(s) by {
                if priors@.contains(s) {
                    let x = choose|x: ObjectId|
                        #![trigger old_latest[x]]
                        obj_ids@.contains(x) && old_latest.contains_key(x) && s == old_latest[x];
                    assert(last_toucher(h2, n, x) == last_toucher(h, n, x));
                }
                if prior_signals(h2, n).contains(s) {
                    let x = choose|x: ObjectId|
                        #![trigger last_toucher(h2, n, x)]
                        h2[n].contains(x) && last_toucher(h2, n, x) >= 0 && s == signal_of(
                            last_toucher(h2, n, x),
                        );
                    assert(old_latest.contains_key(x));
                }
            }
        }
        let mut current: Vec<SignalId> = Vec::new();
        current.push(task_id);
        (priors, current)
    }
}

/// Whether `v` holds `x`.
fn contains(v: &Vec<SignalId>, x: SignalId) -> (r: bool)
    ensures
        r == v@.contains(x),
{
    let mut i: usize = 0;
    while i < v.len()
        invariant
            i <= v@.len(),
            forall|k: int| 0 <= k < i ==> v@[k] != x,
        decreases v@.len() - i,
    {
        if v[i] == x {
            return true;
        }
        i = i + 1;
    }
    false
}

proof fn lemma_push_contains<A>(s: Seq<A>, x: A, y: A)
    ensures
        s.push(x).contains(y) <==> (s.contains(y) || x == y),
{
    if s.push(x).contains(y) {
        let k = choose|k: int| 0 <= k < s.push(x).len() && s.push(x)[k] == y;
        if k < s.len() {
            assert(s[k] == y);
        }
    }
    if x == y {
        assert(s.push(x)[s.len() as int] == y);
    }
    if s.contains(y) {
        let k = choose|k: int| 0 <= k < s.len() && s[k] == y;
        assert(s.push(x)[k] == y);
    }
}

/// Appending a footprint leaves the last toucher before any earlier index unchanged.
pub proof fn lemma_last_toucher_push(h: Seq<Seq<ObjectId>>, f: Seq<ObjectId>, b: int, o: ObjectId)
    requires
        b <= h.len(),
    ensures
        last_toucher(h.push(f), b, o) == last_toucher(h, b, o),
    decreases b,
{
    if b > 0 {
        assert(h.push(f)[b - 1] == h[b - 1]);
        lemma_last_toucher_push(h, f, b - 1, o);
    }
}

/// The last toucher before `b` lies below `b` and, when there is one, declared `o`.
pub proof fn lemma_last_toucher_bounds(h: Seq<Seq<ObjectId>>, b: int, o: ObjectId)
    requires
        0 <= b <= h.len(),
    ensures
        -1 <= last_toucher(h, b, o) < b,
        last_toucher(h, b, o) >= 0 ==> h[last_toucher(h, b, o)].contains(o),
    decreases b,
{
    if b > 0 {
        lemma_last_toucher_bounds(h, b - 1, o);
    }
}

/// Any earlier task that declared `o` is at or before the last toucher.
pub proof fn lemma_last_toucher_latest(h: Seq<Seq<ObjectId>>, a: int, b: int, o: ObjectId)
    requires
        0 <= a < b <= h.len(),
        h[a].contains(o),
    ensures
        a <= last_toucher(h, b, o) < b,
    decreases b,
{
    if b - 1 != a && !h[b - 1].contains(o) {
        lemma_last_toucher_latest(h, a, b - 1, o);
    }
}

/// Dependency safety. Take any schedule of the tasks of a history, where task `i`
/// starts at `start[i]` and completes at `finish[i]`, and in which every task
/// starts only after each of its prior signals has been fired by its task's
/// completion. Then for two tasks `a < b` whose footprints share an object, `a`
/// completes before `b` starts.
pub proof fn lemma_dependency_safety(
    h: Seq<Seq<ObjectId>>,
    start: Seq<int>,
    finish: Seq<int>,
    a: int,
    b: int,
    o: ObjectId,
)
    requires
        start.len() == h.len(),
        finish.len() == h.len(),
        forall|i: int| 0 <= i < h.len() ==> #[trigger] start[i] <= finish[i],
        forall|i: int, p: int|
            0 <= p < i < h.len() && #[trigger] prior_signals(h, i).contains(signal_of(p))
                ==> finish[p] <= #[trigger] start[i],
        0 <= a < b < h.len(),
        h[a].contains(o),
        h[b].contains(o),
    ensures
        finish[a] <= start[b],
    decreases b - a,
{
    lemma_last_toucher_latest(h, a, b, o);
    let c = last_toucher(h, b, o);
    lemma_last_toucher_bounds(h, b, o);
    assert(prior_signals(h, b).contains(signal_of(c)));
    assert(finish[c] <= start[b]);
    if c != a {
        lemma_dependency_safety(h, start, finish, a, c, o);
        assert(start[c] <= finish[c]);
    }
}

/// Parallel progress: a task never waits directly on the signal of an earlier
/// task whose footprint is disjoint from its own; in particular two
/// back-to-back tasks with disjoint footprints do not wait on each other.
pub proof fn lemma_disjoint_no_wait(h: Seq<Seq<ObjectId>>, a: int, b: int)
    requires
        h.len() <= u64::MAX,
        0 <= a < b < h.len(),
        forall|o: ObjectId| h[b].contains(o) ==> !h[a].contains(o),
    ensures
        !prior_signals(h, b).contains(signal_of(a)),
{
    if prior_signals(h, b).contains(signal_of(a)) {
        let o = choose|o: ObjectId|
            #![trigger last_toucher(h, b, o)]
            h[b].contains(o) && last_toucher(h, b, o) >= 0 && signal_of(a) == signal_of(
                last_toucher(h, b, o),
            );
        lemma_last_toucher_bounds(h, b, o);
    }
}

/// Every prior signal of a task is the signal of an earlier task, never its
/// own: signals are fired by exactly the task that created them, after it ran.
pub proof fn lemma_priors_are_earlier(h: Seq<Seq<ObjectId>>, b: int, s: SignalId)
    requires
        h.len() <= u64::MAX,
        0 <= b < h.len(),
        prior_signals(h, b).contains(s),
    ensures
        1 <= s <= b,
        s != signal_of(b),
{
    let o = choose|o: ObjectId|
        #![trigger last_toucher(h, b, o)]
        h[b].contains(o) && last_toucher(h, b, o) >= 0 && s == signal_of(last_toucher(h, b, o));
    lemma_last_toucher_bounds(h, b, o);
}

} // verus!
