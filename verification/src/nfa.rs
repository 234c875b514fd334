use crate::dfa::DFA;
use crate::nfa_fragment::{AutomatonModel, Transition};
use crate::state_set::{add_state, contains_state, copy_states};
use vstd::prelude::*;

verus! {

broadcast use vstd::seq_lib::group_seq_properties;

// The meaning of a transition table, written once as spec functions and
// shared by the NFA, the DFA view and the recognizer: every executable
// operation below is specified exactly against these.

/// The states reachable from a state of `s` by one `lbl`-labelled
/// transition of `edges`.
pub open spec fn edge_targets(edges: Seq<Transition>, s: Set<u64>, lbl: Option<u8>) -> Set<u64> {
    Set::new(
        |t: u64|
            exists|i: int|
                0 <= i < edges.len() && (#[trigger] edges[i]).symbol == lbl && s.contains(
                    edges[i].from,
                ) && edges[i].to == t,
    )
}

/// One round of following epsilon transitions: the states of `s` together
/// with everything one epsilon step away.
pub open spec fn eps_step(edges: Seq<Transition>, s: Set<u64>) -> Set<u64> {
    s.union(edge_targets(edges, s, None))
}

/// `k` rounds of `eps_step`.
pub open spec fn eps_iter(edges: Seq<Transition>, s: Set<u64>, k: nat) -> Set<u64>
    decreases k,
{
    if k == 0 {
        s
    } else {
        eps_step(edges, eps_iter(edges, s, (k - 1) as nat))
    }
}

/// The epsilon closure of `s`: everything reachable from `s` by epsilon
/// transitions alone.  One round of `eps_step` either adds a state or
/// changes nothing, and only targets of epsilon transitions can ever be
/// added, so `edges.len()` rounds always reach the fixed point.
pub open spec fn eps_closure(edges: Seq<Transition>, s: Set<u64>) -> Set<u64> {
    eps_iter(edges, s, edges.len())
}

/// One step of the determinized automaton: all `b`-successors of the state
/// set, then their epsilon closure.
pub open spec fn dfa_step(edges: Seq<Transition>, s: Set<u64>, b: u8) -> Set<u64> {
    eps_closure(edges, edge_targets(edges, s, Some(b)))
}

/// The determinized automaton's state after consuming `input` from state
/// set `s`.
pub open spec fn dfa_run(edges: Seq<Transition>, s: Set<u64>, input: Seq<u8>) -> Set<u64>
    decreases input.len(),
{
    if input.len() == 0 {
        s
    } else {
        dfa_run(edges, dfa_step(edges, s, input[0]), input.skip(1))
    }
}

/// Whether a determinized state set is accepting: it shares a state with
/// the NFA's accept states.
pub open spec fn is_accepting(current: Set<u64>, accepts: Set<u64>) -> bool {
    exists|s: u64| current.contains(s) && accepts.contains(s)
}

/// Whether the automaton accepts `input` when started from state set `s`.
pub open spec fn accepted_from(
    edges: Seq<Transition>,
    s: Set<u64>,
    accepts: Set<u64>,
    input: Seq<u8>,
) -> bool {
    is_accepting(dfa_run(edges, s, input), accepts)
}

/// Whether the NFA `m` accepts `input`: run the determinized automaton from
/// the epsilon closure of the start state.
pub open spec fn nfa_accepts(m: AutomatonModel, input: Seq<u8>) -> bool {
    accepted_from(m.edges, eps_closure(m.edges, set![m.start]), m.accepts.to_set(), input)
}

/// A set on which `eps_step` is a no-op stays fixed under iteration.
proof fn lemma_eps_iter_stable(edges: Seq<Transition>, s: Set<u64>, k: nat)
    requires
        eps_step(edges, s) == s,
    ensures
        eps_iter(edges, s, k) == s,
    decreases k,
{
    if k > 0 {
        lemma_eps_iter_stable(edges, s, (k - 1) as nat);
    }
}

/// Iterating `a + b` rounds is iterating `a` rounds, then `b` more.
proof fn lemma_eps_iter_compose(edges: Seq<Transition>, s: Set<u64>, a: nat, b: nat)
    ensures
        eps_iter(edges, s, a + b) == eps_iter(edges, eps_iter(edges, s, a), b),
    decreases b,
{
    if b > 0 {
        lemma_eps_iter_compose(edges, s, a, (b - 1) as nat);
    }
}

/// Every state an epsilon round can ever add is the target of some
/// transition, so this finite pool bounds the growth of the iteration.
spec fn target_pool(edges: Seq<Transition>) -> Set<u64> {
    edges.map_values(|e: Transition| e.to).to_set()
}

/// The pool is finite and no larger than the table.
proof fn lemma_target_pool_size(edges: Seq<Transition>)
    ensures
        target_pool(edges).finite(),
        target_pool(edges).len() <= edges.len(),
        forall|s: Set<u64>, lbl: Option<u8>|
            #[trigger] edge_targets(edges, s, lbl) <= target_pool(edges),
{
    let mapped = edges.map_values(|e: Transition| e.to);
    mapped.lemma_cardinality_of_set();
    assert forall|s: Set<u64>, lbl: Option<u8>, t: u64|
        edge_targets(edges, s, lbl).contains(t) implies target_pool(edges).contains(t) by {
        let i = choose|i: int|
            0 <= i < edges.len() && (#[trigger] edges[i]).symbol == lbl && s.contains(
                edges[i].from,
            ) && edges[i].to == t;
        assert(mapped[i] == t);
        assert(mapped.contains(t));
    }
}

/// After `k` rounds, either the iteration has already stabilized or it has
/// added at least `k` states from the pool.
proof fn lemma_eps_iter_progress(edges: Seq<Transition>, s: Set<u64>, k: nat)
    ensures
        eps_iter(edges, s, k + 1) == eps_iter(edges, s, k) || (target_pool(edges).intersect(
            eps_iter(edges, s, k),
        ).finite() && target_pool(edges).intersect(eps_iter(edges, s, k)).len() >= k),
    decreases k,
{
    lemma_target_pool_size(edges);
    let pool = target_pool(edges);
    vstd::set_lib::lemma_len_intersect(pool, eps_iter(edges, s, k));
    if k > 0 {
        let prev = eps_iter(edges, s, (k - 1) as nat);
        let cur = eps_iter(edges, s, k);
        lemma_eps_iter_progress(edges, s, (k - 1) as nat);
        if cur == prev {
            assert(eps_iter(edges, s, k + 1) == eps_step(edges, cur));
        } else {
            assert(cur == eps_step(edges, prev));
            assert(prev <= cur);
            assert(exists|x: u64| cur.contains(x) && !prev.contains(x)) by {
                if !(exists|x: u64| cur.contains(x) && !prev.contains(x)) {
                    assert(cur =~= prev);
                }
            }
            let x = choose|x: u64| cur.contains(x) && !prev.contains(x);
            assert(edge_targets(edges, prev, None).contains(x));
            assert(pool.contains(x));
            vstd::set_lib::lemma_len_intersect(pool, prev);
            assert(pool.intersect(prev).insert(x) <= pool.intersect(cur)) by {
                assert(pool.intersect(cur).contains(x));
            }
            vstd::set_lib::lemma_len_subset(pool.intersect(prev).insert(x), pool.intersect(cur));
            assert(!pool.intersect(prev).contains(x));
            assert(pool.intersect(prev).insert(x).len() == pool.intersect(prev).len() + 1);
            assert(pool.intersect(cur).len() >= k);
        }
    }
}

/// The epsilon closure really is closed: one more round of `eps_step` adds
/// nothing.  Each earlier round either stabilized the set — after which
/// nothing ever changes — or added a state from the finite target pool,
/// which the table's length bounds.
pub proof fn lemma_eps_closure_is_fixed_point(edges: Seq<Transition>, s: Set<u64>)
    ensures
        eps_step(edges, eps_closure(edges, s)) == eps_closure(edges, s),
{
    lemma_target_pool_size(edges);
    let pool = target_pool(edges);
    let n = edges.len();
    let cl = eps_iter(edges, s, n);
    lemma_eps_iter_progress(edges, s, n);
    if eps_iter(edges, s, n + 1) == cl {
        assert(eps_step(edges, cl) == eps_iter(edges, s, n + 1));
    } else {
        // the iteration added a pool state every round, so by round `n`
        // the whole pool is present and no round can add anything more
        assert(pool.intersect(cl).len() >= n);
        vstd::set_lib::lemma_len_subset(pool.intersect(cl), pool);
        assert(pool.intersect(cl) =~= pool) by {
            if pool.intersect(cl) != pool {
                assert(exists|y: u64| pool.contains(y) && !pool.intersect(cl).contains(y)) by {
                    if !(exists|y: u64| pool.contains(y) && !pool.intersect(cl).contains(y)) {
                        assert(pool.intersect(cl) =~= pool);
                    }
                }
                let y = choose|y: u64| pool.contains(y) && !pool.intersect(cl).contains(y);
                assert(pool.intersect(cl) <= pool.remove(y));
                vstd::set_lib::lemma_len_subset(pool.intersect(cl), pool.remove(y));
                assert(pool.remove(y).len() == pool.len() - 1);
            }
        }
        assert(pool <= cl) by {
            assert forall|y: u64| pool.contains(y) implies cl.contains(y) by {
                assert(pool.intersect(cl).contains(y));
            }
        }
        assert(eps_step(edges, cl) =~= cl) by {
            assert(edge_targets(edges, cl, None) <= pool);
        }
    }
}

/// The epsilon closure is also the least such set: it stays inside any
/// epsilon-closed superset of `s`.  With `lemma_eps_closure_is_fixed_point`
/// this pins it as exactly the set of states reachable from `s` by epsilon
/// transitions alone.
pub proof fn lemma_eps_closure_least(edges: Seq<Transition>, s: Set<u64>, x: Set<u64>)
    requires
        s <= x,
        eps_step(edges, x) == x,
    ensures
        eps_closure(edges, s) <= x,
{
    lemma_eps_iter_least(edges, s, x, edges.len());
}

/// As `lemma_eps_closure_least`, for every round count.
proof fn lemma_eps_iter_least(edges: Seq<Transition>, s: Set<u64>, x: Set<u64>, k: nat)
    requires
        s <= x,
        eps_step(edges, x) == x,
    ensures
        eps_iter(edges, s, k) <= x,
    decreases k,
{
    if k > 0 {
        let prev = eps_iter(edges, s, (k - 1) as nat);
        lemma_eps_iter_least(edges, s, x, (k - 1) as nat);
        assert forall|t: u64| edge_targets(edges, prev, None).contains(t) implies x.contains(
            t,
        ) by {
            let i = choose|i: int|
                0 <= i < edges.len() && (#[trigger] edges[i]).symbol == None::<u8>
                    && prev.contains(edges[i].from) && edges[i].to == t;
            assert(edge_targets(edges, x, None).contains(t));
            assert(eps_step(edges, x).contains(t));
        }
    }
}

/// `edge_targets` reads the table only through membership: two tables
/// holding the same transitions reach the same targets.
proof fn lemma_edge_targets_congruent(
    e1: Seq<Transition>,
    e2: Seq<Transition>,
    s: Set<u64>,
    lbl: Option<u8>,
)
    requires
        e1.to_set() == e2.to_set(),
    ensures
        edge_targets(e1, s, lbl) == edge_targets(e2, s, lbl),
{
    assert forall|t: u64| edge_targets(e1, s, lbl).contains(t) implies edge_targets(
        e2,
        s,
        lbl,
    ).contains(t) by {
        let i = choose|i: int|
            0 <= i < e1.len() && (#[trigger] e1[i]).symbol == lbl && s.contains(e1[i].from)
                && e1[i].to == t;
        assert(e1.to_set().contains(e1[i]));
        assert(e2.contains(e1[i]));
        let j = choose|j: int| 0 <= j < e2.len() && e2[j] == e1[i];
        assert(0 <= j < e2.len() && e2[j].symbol == lbl && s.contains(e2[j].from) && e2[j].to
            == t);
    }
    assert forall|t: u64| edge_targets(e2, s, lbl).contains(t) implies edge_targets(
        e1,
        s,
        lbl,
    ).contains(t) by {
        let i = choose|i: int|
            0 <= i < e2.len() && (#[trigger] e2[i]).symbol == lbl && s.contains(e2[i].from)
                && e2[i].to == t;
        assert(e2.to_set().contains(e2[i]));
        assert(e1.contains(e2[i]));
        let j = choose|j: int| 0 <= j < e1.len() && e1[j] == e2[i];
        assert(0 <= j < e1.len() && e1[j].symbol == lbl && s.contains(e1[j].from) && e1[j].to
            == t);
    }
    assert(edge_targets(e1, s, lbl) =~= edge_targets(e2, s, lbl));
}

/// As `lemma_edge_targets_congruent`, for `eps_iter`.
proof fn lemma_eps_iter_congruent(e1: Seq<Transition>, e2: Seq<Transition>, s: Set<u64>, k: nat)
    requires
        e1.to_set() == e2.to_set(),
    ensures
        eps_iter(e1, s, k) == eps_iter(e2, s, k),
    decreases k,
{
    if k > 0 {
        lemma_eps_iter_congruent(e1, e2, s, (k - 1) as nat);
        lemma_edge_targets_congruent(e1, e2, eps_iter(e1, s, (k - 1) as nat), None);
    }
}

/// As `lemma_edge_targets_congruent`, for a whole run: with equally many
/// transitions (so the closure iterates equally often), the run is the
/// same.
proof fn lemma_dfa_run_congruent(
    e1: Seq<Transition>,
    e2: Seq<Transition>,
    s: Set<u64>,
    input: Seq<u8>,
)
    requires
        e1.to_set() == e2.to_set(),
        e1.len() == e2.len(),
    ensures
        dfa_run(e1, s, input) == dfa_run(e2, s, input),
    decreases input.len(),
{
    if input.len() > 0 {
        lemma_edge_targets_congruent(e1, e2, s, Some(input[0]));
        lemma_eps_iter_congruent(e1, e2, edge_targets(e1, s, Some(input[0])), e1.len());
        lemma_dfa_run_congruent(e1, e2, dfa_step(e1, s, input[0]), input.skip(1));
    }
}

/// A matcher's answers depend on its model only through which transitions
/// the table holds (not their order), how many rows it has, its start
/// state, and which states accept.
pub proof fn lemma_accepts_congruent(m1: AutomatonModel, m2: AutomatonModel, input: Seq<u8>)
    requires
        m1.edges.to_set() == m2.edges.to_set(),
        m1.edges.len() == m2.edges.len(),
        m1.start == m2.start,
        m1.accepts.to_set() == m2.accepts.to_set(),
    ensures
        nfa_accepts(m1, input) == nfa_accepts(m2, input),
{
    lemma_eps_iter_congruent(m1.edges, m2.edges, set![m1.start], m1.edges.len());
    lemma_dfa_run_congruent(
        m1.edges,
        m2.edges,
        eps_closure(m1.edges, set![m1.start]),
        input,
    );
}

/// Whether this transition carries the given label.
fn symbol_matches(t: &Transition, lbl: &Option<u8>) -> (r: bool)
    ensures
        r == (t.symbol == *lbl),
{
    match t.symbol {
        Option::None => match lbl {
            Option::None => true,
            Option::Some(_) => false,
        },
        Option::Some(x) => match lbl {
            Option::None => false,
            Option::Some(c) => x == *c,
        },
    }
}

/// One executable round of `eps_step` over `cur`; the second component
/// reports whether anything was added.
fn eps_step_exec(edges: &Vec<Transition>, cur: &Vec<u64>) -> (res: (Vec<u64>, bool))
    ensures
        res.0@.to_set() == eps_step(edges@, cur@.to_set()),
        !res.1 ==> res.0@ == cur@,
{
    let mut next = copy_states(cur);
    let mut changed = false;
    let mut i: usize = 0;
    while i < edges.len()
        invariant
            i <= edges@.len(),
            next@.to_set() == cur@.to_set().union(
                edge_targets(edges@.take(i as int), cur@.to_set(), None),
            ),
            !changed ==> next@ == cur@,
        decreases edges@.len() - i,
    {
        let e = edges[i];
        let ghost prev = next@;
        let eps_from_cur = symbol_matches(&e, &None) && contains_state(cur, e.from);
        let mut added = false;
        if eps_from_cur {
            if !contains_state(&next, e.to) {
                next.push(e.to);
                changed = true;
                added = true;
            }
        }
        proof {
            let es = edges@;
            let cs = cur@.to_set();
            let t_i = edge_targets(es.take(i as int), cs, None);
            let t_i1 = edge_targets(es.take(i + 1), cs, None);
            assert(es.take(i + 1)[i as int] == e);
            if eps_from_cur {
                assert(t_i1 =~= t_i.insert(e.to));
                if added {
                    prev.lemma_push_to_set_commute(e.to);
                    assert(next@.to_set() =~= cs.union(t_i1));
                } else {
                    assert(prev.to_set().contains(e.to));
                    assert(next@.to_set() =~= cs.union(t_i1));
                }
            } else {
                assert(t_i1 =~= t_i);
            }
        }
        i = i + 1;
    }
    proof {
        assert(edges@.take(edges@.len() as int) =~= edges@);
    }
    (next, changed)
}

/// The epsilon closure of `set` as a vector.  The loop runs at most one
/// round per transition, stopping as soon as a round adds nothing, which is
/// exactly when the fixed point `eps_closure` is reached.
pub(crate) fn closure_exec(edges: &Vec<Transition>, set: &Vec<u64>) -> (r: Vec<u64>)
    ensures
        r@.to_set() == eps_closure(edges@, set@.to_set()),
{
    let mut cur: Vec<u64> = Vec::new();
    let mut i: usize = 0;
    while i < set.len()
        invariant
            i <= set@.len(),
            cur@.to_set() == set@.take(i as int).to_set(),
        decreases set@.len() - i,
    {
        add_state(&mut cur, set[i]);
        proof {
            set@.lemma_take_succ_push(i as int);
            set@.take(i as int).lemma_push_to_set_commute(set@[i as int]);
        }
        i = i + 1;
    }
    proof {
        assert(set@.take(set@.len() as int) =~= set@);
    }
    let ghost s0 = set@.to_set();
    let mut k: usize = 0;
    while k < edges.len()
        invariant
            k <= edges@.len(),
            s0 == set@.to_set(),
            cur@.to_set() == eps_iter(edges@, s0, k as nat),
        decreases edges@.len() - k,
    {
        let step = eps_step_exec(edges, &cur);
        if !step.1 {
            proof {
                assert(step.0@.to_set() == cur@.to_set());
                assert(eps_step(edges@, cur@.to_set()) == cur@.to_set());
                lemma_eps_iter_stable(edges@, cur@.to_set(), (edges@.len() - k) as nat);
                lemma_eps_iter_compose(edges@, s0, k as nat, (edges@.len() - k) as nat);
                assert(k as nat + (edges@.len() - k) as nat == edges@.len());
                assert(eps_iter(edges@, s0, edges@.len()) == cur@.to_set());
                assert(cur@.to_set() == eps_closure(edges@, set@.to_set()));
            }
            return cur;
        }
        cur = step.0;
        k = k + 1;
    }
    cur
}

/// The frozen automaton produced from the top-level fragment: a start
/// state, accept states, and an explicit transition table with epsilon
/// edges.
#[derive(Debug)]
pub struct NFA {
    pub start_state: u64,
    pub accept_states: Vec<u64>,
    pub transitions: Vec<Transition>,
}

impl View for NFA {
    type V = AutomatonModel;

    open spec fn view(&self) -> AutomatonModel {
        AutomatonModel {
            start: self.start_state,
            accepts: self.accept_states@,
            edges: self.transitions@,
        }
    }
}

impl NFA {
    pub fn new(start_state: u64, accept_states: Vec<u64>, transitions: Vec<Transition>) -> (n:
        NFA)
        ensures
            n@ == (AutomatonModel {
                start: start_state,
                accepts: accept_states@,
                edges: transitions@,
            }),
    {
        NFA { start_state, accept_states, transitions }
    }

    /// The destination states of `(state, character)`, or `None` when the
    /// table has no such entry.  A missing entry is not an error: during
    /// determinization it simply contributes nothing.
    pub fn find_transitions(&self, state: u64, character: Option<u8>) -> (r: Option<Vec<u64>>)
        ensures
            match r {
                Some(v) => v@.to_set() == edge_targets(self@.edges, set![state], character)
                    && v@.len() > 0,
                None => edge_targets(self@.edges, set![state], character) =~= Set::<u64>::empty(),
            },
    {
        let mut acc: Vec<u64> = Vec::new();
        let mut i: usize = 0;
        while i < self.transitions.len()
            invariant
                i <= self.transitions@.len(),
                acc@.to_set() == edge_targets(
                    self.transitions@.take(i as int),
                    set![state],
                    character,
                ),
            decreases self.transitions@.len() - i,
        {
            let e = self.transitions[i];
            let hit = symbol_matches(&e, &character) && e.from == state;
            if hit {
                add_state(&mut acc, e.to);
            }
            proof {
                let es = self.transitions@;
                let ss = set![state];
                let t_i = edge_targets(es.take(i as int), ss, character);
                let t_i1 = edge_targets(es.take(i + 1), ss, character);
                assert(es.take(i + 1)[i as int] == e);
                if hit {
                    assert(t_i1 =~= t_i.insert(e.to));
                } else {
                    assert(t_i1 =~= t_i);
                }
            }
            i = i + 1;
        }
        proof {
            assert(self.transitions@.take(self.transitions@.len() as int) =~= self.transitions@);
        }
        if acc.len() == 0 {
            proof {
                assert(acc@.to_set() =~= Set::<u64>::empty());
            }
            None
        } else {
            proof {
                assert(acc@.contains(acc@[0]));
            }
            Some(acc)
        }
    }

    /// The epsilon closure of a set of states: eliminates epsilon
    /// transitions for the determinized view.
    pub fn transform_transitions(&self, set: Vec<u64>) -> (r: Vec<u64>)
        ensures
            r@.to_set() == eps_closure(self@.edges, set@.to_set()),
    {
        closure_exec(&self.transitions, &set)
    }

    /// Determinizes the automaton: the DFA keeps the transition table and
    /// accept states and starts from the epsilon closure of the NFA start
    /// state.
    pub fn to_dfa(self) -> (d: DFA)
        ensures
            d.start_state@.to_set() == eps_closure(self@.edges, set![self@.start]),
            d.accept_states@ == self@.accepts,
            d.transitions@ == self@.edges,
    {
        let mut seed: Vec<u64> = Vec::new();
        seed.push(self.start_state);
        proof {
            assert(seed@.contains(self.start_state));
            assert(seed@.to_set() =~= set![self@.start]);
        }
        let start = closure_exec(&self.transitions, &seed);
        DFA::new(start, self.accept_states, self.transitions)
    }
}

} // verus!
