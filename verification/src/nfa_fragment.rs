use crate::nfa::NFA;
use vstd::prelude::*;

verus! {

/// One row of an automaton's transition table: on `symbol` the automaton may
/// move from state `from` to state `to`.  `None` marks an epsilon
/// transition, which consumes no input.
#[derive(Clone, Copy, Debug)]
pub struct Transition {
    pub from: u64,
    pub symbol: Option<u8>,
    pub to: u64,
}

/// The mathematical content of a fragment or a finished automaton: a start
/// state, the accept states, and the transition table.  Fragments and NFAs
/// are compared and reasoned about through this model alone.
pub ghost struct AutomatonModel {
    pub start: u64,
    pub accepts: Seq<u64>,
    pub edges: Seq<Transition>,
}

/// A partial automaton built during Thompson's construction: a designated
/// start state, a set of accept states and an explicit transition table.
/// Two fragments built from one shared counter never collide on a state id,
/// so merging their tables is a plain concatenation.
#[derive(Debug)]
pub struct NFAFragment {
    pub start_state: u64,
    pub accept_states: Vec<u64>,
    pub transitions: Vec<Transition>,
}

impl View for NFAFragment {
    type V = AutomatonModel;

    open spec fn view(&self) -> AutomatonModel {
        AutomatonModel {
            start: self.start_state,
            accepts: self.accept_states@,
            edges: self.transitions@,
        }
    }
}

/// A copy of a transition table.
pub(crate) fn copy_transitions(v: &Vec<Transition>) -> (r: Vec<Transition>)
    ensures
        r@ == v@,
{
    let mut r: Vec<Transition> = Vec::new();
    let mut i: usize = 0;
    while i < v.len()
        invariant
            i <= v@.len(),
            r@ == v@.take(i as int),
        decreases v@.len() - i,
    {
        r.push(v[i]);
        proof {
            assert(v@.take(i as int).push(v@[i as int]) =~= v@.take(i as int + 1));
        }
        i = i + 1;
    }
    proof {
        assert(v@.take(v@.len() as int) =~= v@);
    }
    r
}

impl NFAFragment {
    /// An empty-tabled fragment with the given start and accept states.
    pub fn new(start_state: u64, accept_states: Vec<u64>) -> (f: NFAFragment)
        ensures
            f@ == (AutomatonModel {
                start: start_state,
                accepts: accept_states@,
                edges: Seq::empty(),
            }),
    {
        let f = NFAFragment { start_state, accept_states, transitions: Vec::new() };
        proof {
            assert(f@.edges =~= Seq::<Transition>::empty());
        }
        f
    }

    /// Records the transition `from --character--> to` (`None` for epsilon).
    pub fn create_transition(&mut self, from: u64, character: Option<u8>, to: u64)
        ensures
            final(self)@ == (AutomatonModel {
                start: old(self)@.start,
                accepts: old(self)@.accepts,
                edges: old(self)@.edges.push(Transition { from, symbol: character, to }),
            }),
    {
        self.transitions.push(Transition { from, symbol: character, to });
    }

    /// A fresh fragment that keeps this fragment's transition table but has
    /// no start or accept states of its own yet (state id 0 is never
    /// allocated by a counter, so it marks "not yet set").
    pub fn create_skeleton(&self) -> (f: NFAFragment)
        ensures
            f@ == (AutomatonModel { start: 0, accepts: Seq::empty(), edges: self@.edges }),
    {
        let f = NFAFragment {
            start_state: 0,
            accept_states: Vec::new(),
            transitions: copy_transitions(&self.transitions),
        };
        proof {
            assert(f@.accepts =~= Seq::<u64>::empty());
        }
        f
    }

    /// Merges the two transition tables.  The shared counter keeps the state
    /// ids of independently built fragments disjoint, so the union of the
    /// tables is a plain concatenation and never needs conflict resolution.
    pub fn union_operator(&self, fragment: &NFAFragment) -> (f: NFAFragment)
        ensures
            f@ == (AutomatonModel {
                start: 0,
                accepts: Seq::empty(),
                edges: self@.edges + fragment@.edges,
            }),
    {
        let mut new_frag = self.create_skeleton();
        let mut other = copy_transitions(&fragment.transitions);
        new_frag.transitions.append(&mut other);
        new_frag
    }

    /// Freezes the fragment into a finished NFA with the same model.
    pub fn to_nfa(self) -> (n: NFA)
        ensures
            n@ == self@,
    {
        NFA::new(self.start_state, self.accept_states, self.transitions)
    }
}

} // verus!
