use crate::nfa::{closure_exec, dfa_run, dfa_step, edge_targets, is_accepting};
use crate::nfa_fragment::Transition;
use crate::state_set::{add_state, contains_state, copy_states, intersects};
use vstd::prelude::*;

verus! {

broadcast use vstd::seq_lib::group_seq_properties;

/// The determinized view of a compiled NFA.  A DFA "state" is a set of NFA
/// state ids; transitions are computed on demand from the NFA's transition
/// table rather than precomputed into a subset table (an accepted tradeoff
/// of simplicity over speed; memoizing them would not change any result).
#[derive(Debug)]
pub struct DFA {
    pub start_state: Vec<u64>,
    pub accept_states: Vec<u64>,
    pub transitions: Vec<Transition>,
}

impl DFA {
    pub fn new(start_state: Vec<u64>, accept_states: Vec<u64>, transitions: Vec<Transition>) -> (d:
        DFA)
        ensures
            d.start_state@ == start_state@,
            d.accept_states@ == accept_states@,
            d.transitions@ == transitions@,
    {
        DFA { start_state, accept_states, transitions }
    }

    /// A fresh single-use cursor over this DFA, positioned at the start
    /// state.
    pub fn recognizer(&self) -> (r: Recognizer<'_>)
        ensures
            r.dfa == self,
            r.current_state@ == self.start_state@,
    {
        Recognizer::new(self)
    }

    /// The successor of DFA state `state` on input byte `character`: every
    /// `character`-successor of a member state, epsilon-closed.
    pub fn get_transition(&self, state: Vec<u64>, character: u8) -> (r: Vec<u64>)
        ensures
            r@.to_set() == dfa_step(self.transitions@, state@.to_set(), character),
    {
        let mut moved: Vec<u64> = Vec::new();
        let mut i: usize = 0;
        while i < self.transitions.len()
            invariant
                i <= self.transitions@.len(),
                moved@.to_set() == edge_targets(
                    self.transitions@.take(i as int),
                    state@.to_set(),
                    Some(character),
                ),
            decreases self.transitions@.len() - i,
        {
            let e = self.transitions[i];
            let mut hit = false;
            match e.symbol {
                Option::Some(c) => {
                    if c == character && contains_state(&state, e.from) {
                        hit = true;
                    }
                },
                Option::None => {},
            }
            if hit {
                add_state(&mut moved, e.to);
            }
            proof {
                let es = self.transitions@;
                let ss = state@.to_set();
                let t_i = edge_targets(es.take(i as int), ss, Some(character));
                let t_i1 = edge_targets(es.take(i + 1), ss, Some(character));
                assert(es.take(i + 1)[i as int] == e);
                if hit {
                    assert(t_i1 =~= t_i.insert(e.to));
                } else {
                    assert(t_i1 =~= t_i);
                }
            }
            i = i + 1;
        }
        proof {
            assert(self.transitions@.take(self.transitions@.len() as int) =~= self.transitions@);
        }
        closure_exec(&self.transitions, &moved)
    }
}

/// The runtime for recognizing one input string: a cursor whose only
/// mutable state is the current DFA state.  Each match call must use a
/// fresh recognizer.
#[derive(Debug)]
pub struct Recognizer<'a> {
    pub dfa: &'a DFA,
    pub current_state: Vec<u64>,
}

impl<'a> Recognizer<'a> {
    pub fn new(dfa: &'a DFA) -> (r: Recognizer<'a>)
        ensures
            r.dfa == dfa,
            r.current_state@ == dfa.start_state@,
    {
        let state = copy_states(&dfa.start_state);
        Recognizer { dfa, current_state: state }
    }

    /// Advances the cursor by one input byte.
    pub fn make_transition(&mut self, character: u8)
        ensures
            final(self).dfa == old(self).dfa,
            final(self).current_state@.to_set() == dfa_step(
                old(self).dfa.transitions@,
                old(self).current_state@.to_set(),
                character,
            ),
    {
        let state = copy_states(&self.current_state);
        self.current_state = self.dfa.get_transition(state, character);
    }

    /// Whether the current DFA state is accepting: it contains one of the
    /// NFA's accept states.
    pub fn is_accept_state(&self) -> (r: bool)
        ensures
            r == is_accepting(self.current_state@.to_set(), self.dfa.accept_states@.to_set()),
    {
        let r = intersects(&self.current_state, &self.dfa.accept_states);
        proof {
            let cs = self.current_state@;
            let acc = self.dfa.accept_states@;
            if exists|s: u64| cs.contains(s) && acc.contains(s) {
                let w = choose|s: u64| cs.contains(s) && acc.contains(s);
                assert(cs.to_set().contains(w) && acc.to_set().contains(w));
            }
            if is_accepting(cs.to_set(), acc.to_set()) {
                let w = choose|s: u64| cs.to_set().contains(s) && acc.to_set().contains(s);
                assert(cs.contains(w) && acc.contains(w));
            }
        }
        r
    }

    /// Consumes every byte of `input` in order, then reports whether the
    /// final state is accepting.  The accept check happens only after full
    /// consumption: this is a whole-string matcher, not a substring search.
    pub fn accepts(&mut self, input: &[u8]) -> (r: bool)
        ensures
            final(self).dfa == old(self).dfa,
            final(self).current_state@.to_set() == dfa_run(
                old(self).dfa.transitions@,
                old(self).current_state@.to_set(),
                input@,
            ),
            r == is_accepting(
                dfa_run(
                    old(self).dfa.transitions@,
                    old(self).current_state@.to_set(),
                    input@,
                ),
                old(self).dfa.accept_states@.to_set(),
            ),
    {
        let ghost edges = self.dfa.transitions@;
        let ghost s0 = self.current_state@.to_set();
        let mut i: usize = 0;
        while i < input.len()
            invariant
                i <= input@.len(),
                self.dfa == old(self).dfa,
                self.current_state@.to_set() == dfa_run(edges, s0, input@.take(i as int)),
                edges == self.dfa.transitions@,
            decreases input@.len() - i,
        {
            let b = input[i];
            self.make_transition(b);
            proof {
                assert(input@.take(i as int).push(b) =~= input@.take(i + 1));
                lemma_dfa_run_snoc(edges, s0, input@.take(i as int), b);
            }
            i = i + 1;
        }
        proof {
            assert(input@.take(input@.len() as int) =~= input@);
        }
        self.is_accept_state()
    }
}

/// Running one more byte after `xs` is one more DFA step.
proof fn lemma_dfa_run_snoc(edges: Seq<Transition>, s: Set<u64>, xs: Seq<u8>, b: u8)
    ensures
        dfa_run(edges, s, xs.push(b)) == dfa_step(edges, dfa_run(edges, s, xs), b),
    decreases xs.len(),
{
    if xs.len() == 0 {
        assert(xs.push(b)[0] == b);
        assert(xs.push(b).skip(1) =~= Seq::<u8>::empty());
        assert(dfa_run(edges, s, xs.push(b)) == dfa_run(
            edges,
            dfa_step(edges, s, b),
            Seq::<u8>::empty(),
        ));
        assert(dfa_run(edges, dfa_step(edges, s, b), Seq::<u8>::empty()) == dfa_step(
            edges,
            s,
            b,
        ));
    } else {
        assert(xs.push(b)[0] == xs[0]);
        assert(xs.push(b).skip(1) =~= xs.skip(1).push(b));
        lemma_dfa_run_snoc(edges, dfa_step(edges, s, xs[0]), xs.skip(1), b);
        assert(dfa_run(edges, s, xs.push(b)) == dfa_run(
            edges,
            dfa_step(edges, s, xs[0]),
            xs.skip(1).push(b),
        ));
        assert(dfa_run(edges, s, xs) == dfa_run(edges, dfa_step(edges, s, xs[0]), xs.skip(1)));
    }
}

} // verus!
