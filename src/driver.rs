//! The driver: starting in the first declared state, it hands the current
//! payload to that state's handler, follows the edge the handler chose, and
//! stops with the payload of the terminal state.
use vstd::prelude::*;
use crate::synth::Machine;

verus! {

/// The payload of a non-terminal state: its field values, in field order.
#[derive(Debug)]
pub struct Payload<V> {
    pub state: usize,
    pub fields: Vec<V>,
}

/// What the driver does after one handler result.
#[derive(Debug)]
pub enum Next<V> {
    /// Invoke the handler of this state next.
    Continue(Payload<V>),
    /// The terminal payload: the overall result.
    Finished(Vec<V>),
}

/// Errors of driving a machine.
#[derive(Debug, PartialEq, Eq)]
pub enum DriveError {
    /// The handler of `state` chose a variant its after-type does not have.
    UnknownVariant { state: usize, variant: usize },
    /// A payload for `state` does not hold that state's number of fields.
    PayloadShape { state: usize },
    /// The handlers were invoked the allowed number of times without the
    /// terminal state being reached.
    StepLimit,
}

/// The handler contract: one transition per non-terminal state. Given the
/// state and its payload, a handler returns the index of the after-type
/// variant it chose and that successor's payload.
pub trait Handlers<V> {
    fn handle(&mut self, state: usize, fields: Vec<V>) -> (usize, Vec<V>);
}

/// A run of the driver: its outcome (the terminal payload, or the error that
/// stopped it), and for each handler invocation the state it was made in and
/// the variant it chose. `calls` records each invocation in full: the state
/// and payload handed over, then the variant and payload handed back.
pub struct Run<V> {
    pub outcome: Result<Vec<V>, DriveError>,
    pub visited: Vec<usize>,
    pub chosen: Vec<usize>,
    pub calls: Ghost<Seq<(usize, Seq<V>, usize, Seq<V>)>>,
}

/// The state that the edge `variant` of `state` enters.
pub open spec fn target_of(m: Machine, state: int, variant: int) -> int {
    m.graph().succ(state)[variant] as int
}

/// A handler result for `state` that `advance` accepts: an existing edge,
/// and a payload of the size of the state it enters.
pub open spec fn accepted<V>(m: Machine, state: int, variant: int, fields: Seq<V>) -> bool {
    &&& 0 <= variant < m.graph().succ(state).len()
    &&& fields.len() == arity(m, target_of(m, state, variant))
}

/// A handler call whose result `advance` turns into a further call.
pub open spec fn continues<V>(m: Machine, c: (usize, Seq<V>, usize, Seq<V>)) -> bool {
    accepted(m, c.0 as int, c.2 as int, c.3) && target_of(m, c.0 as int, c.2 as int)
        != m.terminal()
}

/// A handler call whose result `advance` turns into the end of the run.
pub open spec fn finishes<V>(m: Machine, c: (usize, Seq<V>, usize, Seq<V>)) -> bool {
    accepted(m, c.0 as int, c.2 as int, c.3) && target_of(m, c.0 as int, c.2 as int)
        == m.terminal()
}

/// Call `d` is the one `advance` makes of the result of call `c`: in the state
/// entered, with the payload carried along the edge.
pub open spec fn follows<V>(
    m: Machine,
    c: (usize, Seq<V>, usize, Seq<V>),
    d: (usize, Seq<V>, usize, Seq<V>),
) -> bool {
    &&& d.0 == target_of(m, c.0 as int, c.2 as int)
    &&& d.1 == carried(m, c.0 as int, d.0 as int, c.3)
}

/// `calls` is a chain of handler calls from the first state with payload
/// `initial`: each call but the last continues, and the next call follows it.
pub open spec fn chain<V>(m: Machine, calls: Seq<(usize, Seq<V>, usize, Seq<V>)>, initial: Seq<V>) -> bool {
    &&& calls.len() > 0 ==> calls[0].0 == 0 && calls[0].1 == initial
    &&& forall|k: int|
        0 <= k < calls.len() - 1 ==> continues(m, #[trigger] calls[k]) && follows(
            m,
            calls[k],
            calls[k + 1],
        )
}

/// `fields` with the values at `a` and `b` trading places.
pub open spec fn swapped<V>(fields: Seq<V>, a: int, b: int) -> Seq<V> {
    fields.update(a, fields[b]).update(b, fields[a])
}

/// The payload that enters `target` from `state`: a configured swap applies
/// along the self-loop edge and nowhere else.
pub open spec fn carried<V>(m: Machine, state: int, target: int, fields: Seq<V>) -> Seq<V> {
    if target == state {
        match m.rewrites()[state] {
            Some((a, b)) => swapped(fields, a as int, b as int),
            None => fields,
        }
    } else {
        fields
    }
}

/// Number of fields of state `i`.
pub open spec fn arity(m: Machine, i: int) -> int {
    m.state_list()[i].fields@.len() as int
}

/// `visited` and `chosen` record a walk from the first state that arrives at
/// `at`: each choice names an outgoing edge of the state it was made in, every
/// visited state is non-terminal, and each edge enters the next visited state,
/// the last one entering `at`.
pub open spec fn walk_to(m: Machine, visited: Seq<usize>, chosen: Seq<usize>, at: int) -> bool {
    &&& visited.len() == chosen.len()
    &&& visited.len() == 0 ==> at == 0
    &&& visited.len() > 0 ==> {
        &&& visited[0] == 0
        &&& forall|k: int|
            0 <= k < visited.len() ==> {
                &&& #[trigger] visited[k] < m.terminal()
                &&& chosen[k] < m.graph().succ(visited[k] as int).len()
            }
        &&& forall|k: int|
            0 <= k < visited.len() - 1 ==> m.graph().succ(#[trigger] visited[k] as int)[chosen[k] as int]
                == visited[k + 1]
        &&& m.graph().succ(visited.last() as int)[chosen.last() as int] == at
    }
}

/// A run: a walk of at least one handler invocation that ends in the terminal
/// state, and enters it only with its last edge.
pub open spec fn is_run(m: Machine, visited: Seq<usize>, chosen: Seq<usize>) -> bool {
    visited.len() > 0 && walk_to(m, visited, chosen, m.terminal())
}

fn swap_fields<V>(fields: Vec<V>, a: usize, b: usize) -> (r: Vec<V>)
    requires
        a < fields@.len(),
        b < fields@.len(),
        a != b,
    ensures
        r@ == swapped(fields@, a as int, b as int),
{
    let ghost orig = fields@;
    let (lo, hi) = if a < b {
        (a, b)
    } else {
        (b, a)
    };
    let mut fields = fields;
    let v_hi = fields.remove(hi);
    let v_lo = fields.remove(lo);
    fields.insert(lo, v_hi);
    fields.insert(hi, v_lo);
    assert(fields@ =~= swapped(orig, a as int, b as int));
    fields
}

impl Machine {
    /// One step of the driver: the handler of non-terminal `state` chose
    /// `variant` and returned `fields`. The chosen edge gives the next state;
    /// the terminal state ends the run with its payload, any other state is
    /// handled next, with the swap of the self-loop edge applied when the edge
    /// is one.
    pub fn advance<V>(&self, state: usize, variant: usize, fields: Vec<V>) -> (r: Result<
        Next<V>,
        DriveError,
    >)
        requires
            self.wf(),
            state < self.terminal(),
        ensures
            variant >= self.graph().succ(state as int).len() ==> r == Err::<Next<V>, DriveError>(
                DriveError::UnknownVariant { state, variant },
            ),
            variant < self.graph().succ(state as int).len() ==> {
                let t = self.graph().succ(state as int)[variant as int];
                if fields@.len() != arity(*self, t as int) {
                    r == Err::<Next<V>, DriveError>(DriveError::PayloadShape { state: t })
                } else if t == self.terminal() {
                    r matches Ok(Next::Finished(res)) && res@ == fields@
                } else {
                    r matches Ok(Next::Continue(p)) && p.state == t && p.fields@ == carried(
                        *self,
                        state as int,
                        t as int,
                        fields@,
                    )
                }
            },
    {
        let succ = self.successors(state);
        if variant >= succ.len() {
            return Err(DriveError::UnknownVariant { state, variant });
        }
        proof {
            crate::synth::lemma_machine_parts(self);
            crate::graph::lemma_single_terminal(&self.graph(), state as int);
        }
        let t = succ[variant];
        if fields.len() != self.field_count(t) {
            return Err(DriveError::PayloadShape { state: t });
        }
        if t == self.terminal_state() {
            return Ok(Next::Finished(fields));
        }
        assert(self.rewrites()[state as int] is Some ==> (t == state ==> fields@.len() == arity(
            *self,
            state as int,
        )));
        let fields = if t == state {
            match self.rewrite(state) {
                Some((a, b)) => swap_fields(fields, a, b),
                None => fields,
            }
        } else {
            fields
        };
        Ok(Next::Continue(Payload { state: t, fields }))
    }
}

impl Machine {
    /// Drives the machine: starts in the first declared state with payload
    /// `initial`, invokes the handler of the current state, and hands the
    /// result to `advance`, until the terminal state is entered, whose payload
    /// is the result, or `advance` refuses the result. At most `max_steps`
    /// handler invocations are made; each is recorded in the run.
    pub fn drive<V, H: Handlers<V>>(&self, handlers: &mut H, initial: Vec<V>, max_steps: usize) -> (r:
        Run<V>)
        requires
            self.wf(),
        ensures
            ({
                let c = r.calls@;
                let n = c.len();
                &&& n == r.visited@.len()
                &&& n == r.chosen@.len()
                &&& n <= max_steps
                &&& forall|k: int| 0 <= k < n ==> r.visited@[k] == (#[trigger] c[k]).0 && r.chosen@[k] == c[k].2
                &&& chain(*self, c, initial@)
                &&& n > 0 ==> initial@.len() == arity(*self, 0) && self.terminal() > 0
                &&& initial@.len() == arity(*self, 0) && self.terminal() > 0 && max_steps > 0 ==> n > 0
                &&& initial@.len() != arity(*self, 0) ==> r.outcome == Err::<Vec<V>, DriveError>(
                    DriveError::PayloadShape { state: 0 },
                )
                &&& initial@.len() == arity(*self, 0) && self.terminal() == 0 ==> (r.outcome matches Ok(
                    res,
                ) && res@ == initial@)
            }),
            r.calls@.len() > 0 ==> (r.outcome matches Ok(res) ==> finishes(*self, r.calls@.last())
                && res@ == r.calls@.last().3),
            r.outcome is Ok ==> r.calls@.len() > 0 || self.terminal() == 0,
            r.outcome matches Err(DriveError::StepLimit) ==> {
                &&& self.terminal() > 0
                &&& r.calls@.len() == max_steps
                &&& r.calls@.len() > 0 ==> continues(*self, r.calls@.last())
            },
            r.outcome matches Err(DriveError::UnknownVariant { state, variant }) ==> {
                &&& r.calls@.len() > 0
                &&& state == r.calls@.last().0
                &&& variant == r.calls@.last().2
                &&& variant >= self.graph().succ(state as int).len()
            },
            r.outcome matches Err(DriveError::PayloadShape { state }) ==> {
                ||| (r.calls@.len() == 0 && state == 0 && initial@.len() != arity(*self, 0))
                ||| {
                    let l = r.calls@.last();
                    &&& r.calls@.len() > 0
                    &&& l.2 < self.graph().succ(l.0 as int).len()
                    &&& state == target_of(*self, l.0 as int, l.2 as int)
                    &&& l.3.len() != arity(*self, state as int)
                }
            },
            r.outcome is Ok && self.terminal() > 0 ==> is_run(*self, r.visited@, r.chosen@),
    {
        proof {
            crate::synth::lemma_machine_parts(self);
        }
        let ghost init = initial@;
        if initial.len() != self.field_count(0) {
            return Run {
                outcome: Err(DriveError::PayloadShape { state: 0 }),
                visited: Vec::new(),
                chosen: Vec::new(),
                calls: Ghost(Seq::empty()),
            };
        }
        let terminal = self.terminal_state();
        if terminal == 0 {
            return Run {
                outcome: Ok(initial),
                visited: Vec::new(),
                chosen: Vec::new(),
                calls: Ghost(Seq::empty()),
            };
        }
        let mut state: usize = 0;
        let mut current = initial;
        let mut visited: Vec<usize> = Vec::new();
        let mut chosen: Vec<usize> = Vec::new();
        let ghost mut calls: Seq<(usize, Seq<V>, usize, Seq<V>)> = Seq::empty();
        while visited.len() < max_steps
            invariant
                self.wf(),
                self.graph().wf(),
                self.state_list().len() == self.count(),
                terminal == self.terminal(),
                terminal > 0,
                init == initial@,
                init.len() == arity(*self, 0),
                state < terminal,
                visited@.len() <= max_steps,
                walk_to(*self, visited@, chosen@, state as int),
                calls.len() == visited@.len(),
                calls.len() == chosen@.len(),
                forall|k: int|
                    0 <= k < calls.len() ==> visited@[k] == (#[trigger] calls[k]).0 && chosen@[k]
                        == calls[k].2,
                chain(*self, calls, init),
                calls.len() == 0 ==> state == 0 && current@ == init,
                calls.len() > 0 ==> continues(*self, calls.last()) && state == target_of(
                    *self,
                    calls.last().0 as int,
                    calls.last().2 as int,
                ) && current@ == carried(*self, calls.last().0 as int, state as int, calls.last().3),
            decreases max_steps - visited@.len(),
        {
            let ghost handed = current@;
            let (variant, fields) = handlers.handle(state, current);
            let ghost call = (state, handed, variant, fields@);
            let ghost before = calls;
            proof {
                calls = calls.push(call);
                assert(calls.last() == call);
                assert forall|k: int| 0 <= k < calls.len() - 1 implies continues(
                    *self,
                    #[trigger] calls[k],
                ) && follows(*self, calls[k], calls[k + 1]) by {
                    assert(calls[k] == before[k]);
                    if k < before.len() - 1 {
                        assert(calls[k + 1] == before[k + 1]);
                    }
                }
            }
            visited.push(state);
            chosen.push(variant);
            proof {
                crate::graph::lemma_single_terminal(&self.graph(), state as int);
            }
            match self.advance(state, variant, fields) {
                Err(e) => {
                    return Run { outcome: Err(e), visited, chosen, calls: Ghost(calls) };
                },
                Ok(Next::Finished(result)) => {
                    assert(walk_to(*self, visited@, chosen@, terminal as int));
                    return Run { outcome: Ok(result), visited, chosen, calls: Ghost(calls) };
                },
                Ok(Next::Continue(p)) => {
                    assert(walk_to(*self, visited@, chosen@, p.state as int));
                    state = p.state;
                    current = p.fields;
                },
            }
        }
        Run { outcome: Err(DriveError::StepLimit), visited, chosen, calls: Ghost(calls) }
    }
}

} // verus!
