use crate::nfa_fragment::{AutomatonModel, NFAFragment, Transition};
use vstd::prelude::*;

verus! {

broadcast use vstd::seq_lib::group_seq_properties;

/// Abstract syntax tree of a pattern.  Each composite node exclusively owns
/// its children; a tree is consumed exactly once, by move, when it is
/// converted to a fragment.  `Epsilon` is the grammar's empty sequence: it
/// matches exactly the empty string and contributes no transition.
#[derive(Debug)]
pub enum Node {
    Character { character: u8 },
    Union { left: Box<Node>, right: Box<Node> },
    Concat { left: Box<Node>, right: Box<Node> },
    Star { operand: Box<Node> },
    Epsilon,
}

/// Hands out automaton state ids, each one larger than everything handed
/// out before, so ids stay pairwise distinct across a whole compilation.
/// One compilation owns one counter; concurrent compilations must not
/// share one.
#[derive(Debug)]
pub struct Counter {
    pub state_count: u64,
}

impl Counter {
    pub fn new() -> (c: Counter)
        ensures
            c.state_count == 1,
    {
        Counter { state_count: 1 }
    }

    pub fn new_state(&mut self) -> (s: u64)
        requires
            old(self).state_count < u64::MAX,
        ensures
            final(self).state_count == old(self).state_count + 1,
            s == final(self).state_count,
    {
        self.state_count = self.state_count + 1;
        self.state_count
    }
}

/// The id a counter at `c` hands out next.
pub open spec fn next_id(c: u64) -> u64 {
    if c == u64::MAX {
        0
    } else {
        (c + 1) as u64
    }
}

/// One epsilon edge from each of `accepts` to `target`.
pub open spec fn accept_edges(accepts: Seq<u64>, target: u64) -> Seq<Transition> {
    accepts.map_values(|a: u64| Transition { from: a, symbol: None, to: target })
}

/// Thompson's construction as a function: the fragment built for `n` by a
/// counter standing at `c`, together with the counter's final position.
/// `Node::to_fragment` computes exactly this.
pub open spec fn build_frag(n: Node, c: u64) -> (AutomatonModel, u64)
    decreases n,
{
    match n {
        Node::Character { character } => {
            let s1 = next_id(c);
            let s2 = next_id(s1);
            (
                AutomatonModel {
                    start: s1,
                    accepts: seq![s2],
                    edges: seq![Transition { from: s1, symbol: Some(character), to: s2 }],
                },
                s2,
            )
        },
        Node::Epsilon => {
            let s = next_id(c);
            (AutomatonModel { start: s, accepts: seq![s], edges: Seq::empty() }, s)
        },
        Node::Union { left, right } => {
            let l = build_frag(*left, c);
            let r = build_frag(*right, l.1);
            let s0 = next_id(r.1);
            (
                AutomatonModel {
                    start: s0,
                    accepts: l.0.accepts + r.0.accepts,
                    edges: l.0.edges + r.0.edges + seq![
                        Transition { from: s0, symbol: None, to: l.0.start },
                        Transition { from: s0, symbol: None, to: r.0.start },
                    ],
                },
                s0,
            )
        },
        Node::Concat { left, right } => {
            let l = build_frag(*left, c);
            let r = build_frag(*right, l.1);
            (
                AutomatonModel {
                    start: l.0.start,
                    accepts: r.0.accepts,
                    edges: l.0.edges + r.0.edges + accept_edges(l.0.accepts, r.0.start),
                },
                r.1,
            )
        },
        Node::Star { operand } => {
            let x = build_frag(*operand, c);
            let s0 = next_id(x.1);
            (
                AutomatonModel {
                    start: s0,
                    accepts: x.0.accepts.push(s0),
                    edges: x.0.edges + accept_edges(x.0.accepts, x.0.start) + seq![
                        Transition { from: s0, symbol: None, to: x.0.start },
                    ],
                },
                s0,
            )
        },
    }
}

impl Node {
    /// The number of nodes in the tree; the construction allocates at most
    /// two states per node.
    pub open spec fn count(self) -> nat
        decreases self,
    {
        match self {
            Node::Character { .. } => 1,
            Node::Epsilon => 1,
            Node::Union { left, right } => 1 + (*left).count() + (*right).count(),
            Node::Concat { left, right } => 1 + (*left).count() + (*right).count(),
            Node::Star { operand } => 1 + (*operand).count(),
        }
    }

    pub fn character(character: u8) -> (n: Self)
        ensures
            n == (Node::Character { character }),
    {
        Node::Character { character }
    }

    /// The `|` operator of the pattern language.
    pub fn union(left: Node, right: Node) -> (n: Self)
        ensures
            n matches Node::Union { left: l, right: r } && *l == left && *r == right,
    {
        Node::Union { left: Box::new(left), right: Box::new(right) }
    }

    /// Concatenation, written by juxtaposition in the pattern language.
    pub fn concat(left: Node, right: Node) -> (n: Self)
        ensures
            n matches Node::Concat { left: l, right: r } && *l == left && *r == right,
    {
        Node::Concat { left: Box::new(left), right: Box::new(right) }
    }

    /// The `*` operator of the pattern language.
    pub fn star(operand: Node) -> (n: Self)
        ensures
            n matches Node::Star { operand: x } && *x == operand,
    {
        Node::Star { operand: Box::new(operand) }
    }

    /// The empty sequence of the pattern language.
    pub fn epsilon() -> (n: Self)
        ensures
            n == Node::Epsilon,
    {
        Node::Epsilon
    }

    /// Recursively converts the tree, consuming it, into the NFA fragment
    /// `build_frag` describes.  Children are built left to right with the
    /// one shared counter, which keeps their state-id ranges disjoint.
    pub fn to_fragment(self, counter: &mut Counter) -> (f: NFAFragment)
        requires
            old(counter).state_count + 2 * self.count() <= u64::MAX,
        ensures
            f@ == build_frag(self, old(counter).state_count).0,
            final(counter).state_count == build_frag(self, old(counter).state_count).1,
            final(counter).state_count <= old(counter).state_count + 2 * self.count(),
            old(counter).state_count < final(counter).state_count,
        decreases self,
    {
        let ghost n0 = self;
        let ghost c0 = counter.state_count;
        match self {
            Node::Character { character } => {
                let lhs = counter.new_state();
                let rhs = counter.new_state();
                let mut accepts: Vec<u64> = Vec::new();
                accepts.push(rhs);
                let mut fragment = NFAFragment::new(lhs, accepts);
                fragment.create_transition(lhs, Some(character), rhs);
                proof {
                    let m = build_frag(n0, c0).0;
                    assert(fragment@.accepts =~= m.accepts);
                    assert(fragment@.edges =~= m.edges);
                }
                fragment
            },
            Node::Epsilon => {
                let s = counter.new_state();
                let mut accepts: Vec<u64> = Vec::new();
                accepts.push(s);
                let fragment = NFAFragment::new(s, accepts);
                proof {
                    let m = build_frag(n0, c0).0;
                    assert(fragment@.accepts =~= m.accepts);
                    assert(fragment@.edges =~= m.edges);
                }
                fragment
            },
            Node::Union { left, right } => {
                let lhs = (*left).to_fragment(counter);
                let rhs = (*right).to_fragment(counter);
                let mut fragment = lhs.union_operator(&rhs);
                let start = counter.new_state();
                fragment.create_transition(start, None, lhs.start_state);
                fragment.create_transition(start, None, rhs.start_state);
                fragment.start_state = start;
                let mut acc = lhs.accept_states;
                let mut acc_r = rhs.accept_states;
                acc.append(&mut acc_r);
                fragment.accept_states = acc;
                proof {
                    let m = build_frag(n0, c0).0;
                    assert(fragment@.edges =~= m.edges);
                    assert(fragment@.accepts =~= m.accepts);
                }
                fragment
            },
            Node::Concat { left, right } => {
                let lhs = (*left).to_fragment(counter);
                let rhs = (*right).to_fragment(counter);
                let mut fragment = lhs.union_operator(&rhs);
                let mut i: usize = 0;
                while i < lhs.accept_states.len()
                    invariant
                        i <= lhs.accept_states@.len(),
                        fragment@.edges == lhs@.edges + rhs@.edges + accept_edges(
                            lhs.accept_states@.take(i as int),
                            rhs.start_state,
                        ),
                        fragment@.start == 0,
                        fragment@.accepts == Seq::<u64>::empty(),
                    decreases lhs.accept_states@.len() - i,
                {
                    fragment.create_transition(lhs.accept_states[i], None, rhs.start_state);
                    proof {
                        lhs.accept_states@.lemma_take_succ_push(i as int);
                        assert(accept_edges(lhs.accept_states@.take(i + 1), rhs.start_state)
                            =~= accept_edges(
                            lhs.accept_states@.take(i as int),
                            rhs.start_state,
                        ).push(
                            Transition {
                                from: lhs.accept_states@[i as int],
                                symbol: None,
                                to: rhs.start_state,
                            },
                        ));
                        assert(fragment@.edges =~= lhs@.edges + rhs@.edges + accept_edges(
                            lhs.accept_states@.take(i + 1),
                            rhs.start_state,
                        ));
                    }
                    i = i + 1;
                }
                fragment.start_state = lhs.start_state;
                fragment.accept_states = rhs.accept_states;
                proof {
                    assert(lhs.accept_states@.take(lhs.accept_states@.len() as int)
                        =~= lhs.accept_states@);
                    let m = build_frag(n0, c0).0;
                    assert(fragment@.edges =~= m.edges);
                }
                fragment
            },
            Node::Star { operand } => {
                let lhs = (*operand).to_fragment(counter);
                let mut fragment = lhs.create_skeleton();
                let start = counter.new_state();
                fragment.start_state = start;
                let mut i: usize = 0;
                while i < lhs.accept_states.len()
                    invariant
                        i <= lhs.accept_states@.len(),
                        fragment@.edges == lhs@.edges + accept_edges(
                            lhs.accept_states@.take(i as int),
                            lhs.start_state,
                        ),
                        fragment@.start == start,
                        fragment@.accepts == Seq::<u64>::empty(),
                    decreases lhs.accept_states@.len() - i,
                {
                    fragment.create_transition(lhs.accept_states[i], None, lhs.start_state);
                    proof {
                        lhs.accept_states@.lemma_take_succ_push(i as int);
                        assert(accept_edges(lhs.accept_states@.take(i + 1), lhs.start_state)
                            =~= accept_edges(
                            lhs.accept_states@.take(i as int),
                            lhs.start_state,
                        ).push(
                            Transition {
                                from: lhs.accept_states@[i as int],
                                symbol: None,
                                to: lhs.start_state,
                            },
                        ));
                        assert(fragment@.edges =~= lhs@.edges + accept_edges(
                            lhs.accept_states@.take(i + 1),
                            lhs.start_state,
                        ));
                    }
                    i = i + 1;
                }
                fragment.create_transition(start, None, lhs.start_state);
                let mut acc = lhs.accept_states;
                acc.push(start);
                fragment.accept_states = acc;
                proof {
                    assert(lhs.accept_states@.take(lhs.accept_states@.len() as int)
                        =~= lhs.accept_states@);
                    let m = build_frag(n0, c0).0;
                    assert(fragment@.edges =~= m.edges);
                    assert(fragment@.accepts =~= m.accepts);
                }
                fragment
            },
        }
    }
}

/// The load-bearing invariant of Thompson's construction: every state id a
/// compilation generates is pairwise distinct.  Concretely, the fragment
/// built by a counter standing at `c` only uses states in `(c, c']` for the
/// final counter position `c'`, children built one after another occupy
/// disjoint ranges, and a fragment's accept states never repeat.
pub proof fn lemma_build_frag_ids(n: Node, c: u64)
    requires
        c + 2 * n.count() <= u64::MAX,
    ensures
        ({
            let (m, c2) = build_frag(n, c);
            &&& c < c2 <= c + 2 * n.count()
            &&& c < m.start <= c2
            &&& forall|i: int| 0 <= i < m.accepts.len() ==> c < #[trigger] m.accepts[i] <= c2
            &&& forall|i: int|
                0 <= i < m.edges.len() ==> c < (#[trigger] m.edges[i]).from <= c2 && c
                    < m.edges[i].to <= c2
            &&& m.accepts.no_duplicates()
        }),
    decreases n,
{
    match n {
        Node::Character { character } => {
        },
        Node::Epsilon => {
        },
        Node::Union { left, right } => {
            let l = build_frag(*left, c);
            lemma_build_frag_ids(*left, c);
            lemma_build_frag_ids(*right, l.1);
            let r = build_frag(*right, l.1);
            let m = build_frag(n, c).0;
            assert forall|i: int, j: int|
                0 <= i < m.accepts.len() && 0 <= j < m.accepts.len() && i != j implies m.accepts[i]
                != m.accepts[j] by {
                if i < l.0.accepts.len() && j < l.0.accepts.len() {
                } else if i >= l.0.accepts.len() && j >= l.0.accepts.len() {
                    assert(m.accepts[i] == r.0.accepts[i - l.0.accepts.len()]);
                    assert(m.accepts[j] == r.0.accepts[j - l.0.accepts.len()]);
                } else {
                }
            }
        },
        Node::Concat { left, right } => {
            let l = build_frag(*left, c);
            lemma_build_frag_ids(*left, c);
            lemma_build_frag_ids(*right, l.1);
        },
        Node::Star { operand } => {
            let x = build_frag(*operand, c);
            lemma_build_frag_ids(*operand, c);
            let m = build_frag(n, c).0;
            let s0 = next_id(x.1);
            assert(forall|i: int|
                0 <= i < x.0.accepts.len() ==> #[trigger] m.accepts[i] == x.0.accepts[i]);
            assert(m.accepts[m.accepts.len() - 1] == s0);
        },
    }
}

} // verus!
