//! Artifact synthesis: from a declaration to the machine's model, graph,
//! after-types and handler contract.
use vstd::prelude::*;
use crate::graph::{is_listed, GraphError, TransitionGraph, MAX_STATES};
use crate::model::{
    contains_str, has_unresolved, listed, strs, used_params, Generics, GenericState, ModelError, State,
};
use crate::naming::{after_name, after_prefix, handler_name, snake_of};

verus! {

/// A state that may hand control back to itself, with the pair of field
/// positions whose values trade places along its self-loop edge, if any.
#[derive(Debug)]
pub struct SelfLoop {
    pub state: String,
    pub swap: Option<(usize, usize)>,
}

/// A raw declaration, as the host syntax's parser hands it over.
#[derive(Debug)]
pub struct StateMachineAsync {
    /// The name of the declared type.
    pub ident: String,
    /// Whether the declaration is an enumeration at all.
    pub is_enum: bool,
    pub states: Vec<State>,
    pub generics: Generics,
    pub self_looping: Vec<SelfLoop>,
}

/// One variant of an after-type: an edge to `target`, named after it. An edge
/// into the terminal state wraps the terminal payload directly.
#[derive(Debug)]
pub struct Variant {
    pub target: usize,
    pub name: String,
    pub wraps_terminal: bool,
}

/// The after-type of non-terminal state `state`: one variant per outgoing edge.
#[derive(Debug)]
pub struct AfterType {
    pub state: usize,
    pub name: String,
    pub variants: Vec<Variant>,
}

/// The handler method of non-terminal state `state`: it takes the payload
/// type `input` and returns the after-type `output`.
#[derive(Debug)]
pub struct HandlerMethod {
    pub state: usize,
    pub name: String,
    pub input: String,
    pub output: String,
}

/// Errors of compilation; a failed compilation yields no artifacts.
#[derive(Debug, PartialEq, Eq)]
pub enum CompileError {
    NotAnEnumeration,
    NoTerminalState,
    /// Field `field` of state `state` names the undeclared lifetime `name`.
    UnresolvedGenericParameter { state: usize, field: usize, name: String },
    /// The swap configured for state `state` does not name two distinct fields.
    InvalidRewrite { state: usize },
    /// States `first` and `second` would have handler methods of one name.
    DuplicateHandlerName { first: usize, second: usize },
    /// States `first` and `second` have one name.
    DuplicateState { first: usize, second: usize },
}

/// A compiled machine: its states, after-types and handler methods, the
/// transition graph, and the field swap of each self-loop edge.
#[derive(Debug)]
pub struct Machine {
    states: Vec<GenericState>,
    after_types: Vec<AfterType>,
    handlers: Vec<HandlerMethod>,
    graph: TransitionGraph,
    rewrites: Vec<Option<(usize, usize)>>,
}

/// The targets of a list of variants.
pub open spec fn targets(vs: Seq<Variant>) -> Seq<usize> {
    vs.map_values(|v: Variant| v.target)
}

/// `a` is the after-type of state `i`: its variants are the outgoing edges of
/// `i` in graph order, each named after its target.
pub open spec fn after_type_of(
    a: AfterType,
    i: int,
    g: TransitionGraph,
    states: Seq<GenericState>,
) -> bool {
    &&& a.state == i
    &&& a.name@ == after_prefix() + states[i].ident@
    &&& targets(a.variants@) == g.succ(i)
    &&& forall|k: int|
        0 <= k < a.variants@.len() ==> {
            let v = #[trigger] a.variants@[k];
            &&& v.name@ == states[v.target as int].ident@
            &&& v.wraps_terminal == (v.target == g.terminal())
        }
}

/// `h` is the handler method of state `i`.
pub open spec fn handler_of(h: HandlerMethod, i: int, states: Seq<GenericState>) -> bool {
    &&& h.state == i
    &&& h.name@ == snake_of(states[i].ident@)
    &&& h.input@ == states[i].ident@
    &&& h.output@ == after_prefix() + states[i].ident@
}

/// The swap of the first self-loop entry that names `name`, if any.
pub open spec fn configured_swap(loops: Seq<SelfLoop>, name: Seq<char>) -> Option<(usize, usize)>
    decreases loops.len(),
{
    if loops.len() == 0 {
        None
    } else if loops[0].state@ == name {
        loops[0].swap
    } else {
        configured_swap(loops.drop_first(), name)
    }
}

/// The names the self-loop entries give.
pub open spec fn loop_names(loops: Seq<SelfLoop>) -> Seq<String> {
    loops.map_values(|l: SelfLoop| l.state)
}

/// Whether state `i` of `n` named `name` loops under `loops`.
pub open spec fn loops_at(loops: Seq<SelfLoop>, n: int, i: int, name: Seq<char>) -> bool {
    i + 1 < n && is_listed(loop_names(loops), name)
}

/// The swap applied along the self-loop edge of state `i`.
pub open spec fn rewrite_at(loops: Seq<SelfLoop>, n: int, i: int, name: Seq<char>) -> Option<
    (usize, usize),
> {
    if loops_at(loops, n, i, name) {
        configured_swap(loops, name)
    } else {
        None
    }
}

/// A swap is invalid unless it names two distinct positions below `len`.
pub open spec fn swap_invalid(s: Option<(usize, usize)>, len: int) -> bool {
    match s {
        Some((a, b)) => a >= len || b >= len || a == b,
        None => false,
    }
}

/// `out` holds the states of `orig` normalised against `g`: same names and
/// fields, and exactly the declared parameters that the fields use.
pub open spec fn normalised(out: Seq<GenericState>, orig: Seq<State>, g: Generics) -> bool {
    &&& out.len() == orig.len()
    &&& forall|k: int| 0 <= k < orig.len() ==> #[trigger] normalised_state(out[k], orig[k], g)
}

/// `o` is `s` normalised against `g`.
pub open spec fn normalised_state(o: GenericState, s: State, g: Generics) -> bool {
    &&& o.ident == s.ident
    &&& o.fields@ == s.fields@
    &&& strs(o.lifetimes@) == used_params(strs(g.lifetimes@), s.fields@, true)
    &&& strs(o.ty_params@) == used_params(strs(g.type_params@), s.fields@, false)
}

/// No two handler methods share a name.
pub open spec fn names_distinct(hs: Seq<HandlerMethod>) -> bool {
    forall|i: int, j: int|
        0 <= i < j < hs.len() ==> #[trigger] hs[i].name@ != #[trigger] hs[j].name@
}

/// Two non-terminal states of the declaration have names of one snake case.
pub open spec fn handler_clash(states: Seq<State>) -> bool {
    exists|i: int, j: int|
        0 <= i < j < states.len() - 1 && #[trigger] snake_of(states[i].ident@) == #[trigger] snake_of(
            states[j].ident@,
        )
}

/// The parameters of a state: its lifetimes, or its type parameters.
pub open spec fn params_of(s: GenericState, lifetime: bool) -> Seq<String> {
    if lifetime {
        s.lifetimes@
    } else {
        s.ty_params@
    }
}

/// Whether the state of some target in `targets` has the parameter `p`.
pub open spec fn targets_use(
    states: Seq<GenericState>,
    targets: Seq<usize>,
    p: Seq<char>,
    lifetime: bool,
) -> bool {
    exists|k: int|
        0 <= k < targets.len() && #[trigger] listed(params_of(states[targets[k] as int], lifetime), p)
}

/// The declared parameters that the states of `targets` have, in declaration order.
pub open spec fn needed_params(
    decl: Seq<Seq<char>>,
    states: Seq<GenericState>,
    targets: Seq<usize>,
    lifetime: bool,
) -> Seq<Seq<char>>
    decreases decl.len(),
{
    if decl.len() == 0 {
        Seq::empty()
    } else {
        let rest = needed_params(decl.drop_last(), states, targets, lifetime);
        if targets_use(states, targets, decl.last(), lifetime) {
            rest.push(decl.last())
        } else {
            rest
        }
    }
}

fn targets_have(
    states: &Vec<GenericState>,
    targets: &Vec<usize>,
    p: &String,
    lifetime: bool,
) -> (r: bool)
    requires
        forall|k: int| 0 <= k < targets@.len() ==> #[trigger] targets@[k] < states@.len(),
    ensures
        r == targets_use(states@, targets@, p@, lifetime),
{
    let mut k: usize = 0;
    while k < targets.len()
        invariant
            k <= targets@.len(),
            forall|j: int| 0 <= j < targets@.len() ==> #[trigger] targets@[j] < states@.len(),
            forall|j: int|
                0 <= j < k ==> !#[trigger] listed(params_of(states@[targets@[j] as int], lifetime), p@),
        decreases targets@.len() - k,
    {
        let s = &states[targets[k]];
        let ps = if lifetime {
            &s.lifetimes
        } else {
            &s.ty_params
        };
        assert(ps@ == params_of(states@[targets@[k as int] as int], lifetime));
        if contains_str(ps, p) {
            return true;
        }
        k = k + 1;
    }
    false
}

fn keep_needed(
    decl: &Vec<String>,
    states: &Vec<GenericState>,
    targets: &Vec<usize>,
    lifetime: bool,
) -> (r: Vec<String>)
    requires
        forall|k: int| 0 <= k < targets@.len() ==> #[trigger] targets@[k] < states@.len(),
    ensures
        strs(r@) == needed_params(strs(decl@), states@, targets@, lifetime),
{
    let mut r: Vec<String> = Vec::new();
    let mut k: usize = 0;
    while k < decl.len()
        invariant
            k <= decl@.len(),
            forall|j: int| 0 <= j < targets@.len() ==> #[trigger] targets@[j] < states@.len(),
            strs(r@) == needed_params(strs(decl@.subrange(0, k as int)), states@, targets@, lifetime),
        decreases decl@.len() - k,
    {
        let ghost before = r@;
        let ghost pre = strs(decl@.subrange(0, k as int));
        let ghost next = strs(decl@.subrange(0, k + 1));
        assert(next.drop_last() =~= pre);
        assert(next.last() == decl@[k as int]@);
        if targets_have(states, targets, &decl[k], lifetime) {
            r.push(decl[k].clone());
            assert(strs(r@) =~= strs(before).push(decl@[k as int]@));
        }
        k = k + 1;
    }
    assert(decl@.subrange(0, decl@.len() as int) =~= decl@);
    r
}

/// Two states of the declaration have one name.
pub open spec fn names_repeat(states: Seq<State>) -> bool {
    exists|i: int, j: int|
        0 <= i < j < states.len() && #[trigger] states[i].ident@ == #[trigger] states[j].ident@
}

/// Some state of the declaration names an undeclared lifetime.
pub open spec fn decl_unresolved(states: Seq<State>, g: Generics) -> bool {
    exists|i: int|
        0 <= i < states.len() && #[trigger] has_unresolved(states[i].fields@, g.lifetimes@)
}

/// Some state of the declaration has an invalid swap.
pub open spec fn decl_bad_rewrite(states: Seq<State>, loops: Seq<SelfLoop>) -> bool {
    exists|i: int|
        0 <= i < states.len() && #[trigger] swap_invalid(
            rewrite_at(loops, states.len() as int, i, states[i].ident@),
            states[i].fields@.len() as int,
        )
}

impl Machine {
    /// The normalised states, in declaration order.
    pub closed spec fn state_list(&self) -> Seq<GenericState> {
        self.states@
    }

    /// The after-types, one per non-terminal state, in state order.
    pub closed spec fn after_list(&self) -> Seq<AfterType> {
        self.after_types@
    }

    /// The handler methods, one per non-terminal state, in state order.
    pub closed spec fn handler_list(&self) -> Seq<HandlerMethod> {
        self.handlers@
    }

    /// The transition graph.
    pub closed spec fn graph(&self) -> TransitionGraph {
        self.graph
    }

    /// The swap of field positions along the self-loop edge of each state.
    pub closed spec fn rewrites(&self) -> Seq<Option<(usize, usize)>> {
        self.rewrites@
    }

    /// Number of states.
    pub open spec fn count(&self) -> int {
        self.graph().count() as int
    }

    /// Index of the terminal state.
    pub open spec fn terminal(&self) -> int {
        self.graph().terminal()
    }

    pub closed spec fn wf(&self) -> bool {
        &&& self.graph.wf()
        &&& self.states@.len() == self.graph.count()
        &&& self.after_types@.len() == self.graph.count() - 1
        &&& self.handlers@.len() == self.graph.count() - 1
        &&& self.rewrites@.len() == self.graph.count()
        &&& forall|i: int|
            0 <= i < self.graph.count() - 1 ==> after_type_of(
                #[trigger] self.after_types@[i],
                i,
                self.graph,
                self.states@,
            )
        &&& forall|i: int|
            0 <= i < self.graph.count() - 1 ==> handler_of(
                #[trigger] self.handlers@[i],
                i,
                self.states@,
            )
        &&& rewrites_fit(self.rewrites@, self.graph, self.states@)
        &&& names_distinct(self.handlers@)
    }
}

/// Each swap sits on a self-looping state and names two distinct fields of it.
pub open spec fn rewrites_fit(
    rewrites: Seq<Option<(usize, usize)>>,
    g: TransitionGraph,
    states: Seq<GenericState>,
) -> bool {
    forall|i: int|
        0 <= i < g.count() ==> match #[trigger] rewrites[i] {
            Some((a, b)) => {
                &&& g.looping()[i]
                &&& a < states[i].fields@.len()
                &&& b < states[i].fields@.len()
                &&& a != b
            },
            None => true,
        }
}

fn first_clash(hs: &Vec<HandlerMethod>) -> (r: Option<(usize, usize)>)
    ensures
        r is None <==> names_distinct(hs@),
        r matches Some((a, b)) ==> a < b < hs@.len() && hs@[a as int].name@ == hs@[b as int].name@,
{
    let mut a: usize = 0;
    while a < hs.len()
        invariant
            a <= hs@.len(),
            forall|i: int, j: int|
                0 <= i < a && i < j < hs@.len() ==> #[trigger] hs@[i].name@ != #[trigger] hs@[j].name@,
        decreases hs@.len() - a,
    {
        let mut b: usize = a + 1;
        while b < hs.len()
            invariant
                a < hs@.len(),
                a + 1 <= b <= hs@.len(),
                forall|i: int, j: int|
                    0 <= i < a && i < j < hs@.len() ==> #[trigger] hs@[i].name@ != #[trigger] hs@[j].name@,
                forall|j: int| a < j < b ==> hs@[a as int].name@ != #[trigger] hs@[j].name@,
            decreases hs@.len() - b,
        {
            if hs[a].name == hs[b].name {
                return Some((a, b));
            }
            b = b + 1;
        }
        a = a + 1;
    }
    None
}

fn first_repeat(states: &Vec<GenericState>) -> (r: Option<(usize, usize)>)
    ensures
        r is None <==> forall|i: int, j: int|
            0 <= i < j < states@.len() ==> #[trigger] states@[i].ident@ != #[trigger] states@[j].ident@,
        r matches Some((a, b)) ==> a < b < states@.len() && states@[a as int].ident@
            == states@[b as int].ident@,
{
    let mut a: usize = 0;
    while a < states.len()
        invariant
            a <= states@.len(),
            forall|i: int, j: int|
                0 <= i < a && i < j < states@.len() ==> #[trigger] states@[i].ident@
                    != #[trigger] states@[j].ident@,
        decreases states@.len() - a,
    {
        let mut b: usize = a + 1;
        while b < states.len()
            invariant
                a < states@.len(),
                a + 1 <= b <= states@.len(),
                forall|i: int, j: int|
                    0 <= i < a && i < j < states@.len() ==> #[trigger] states@[i].ident@
                        != #[trigger] states@[j].ident@,
                forall|j: int| a < j < b ==> states@[a as int].ident@ != #[trigger] states@[j].ident@,
            decreases states@.len() - b,
        {
            if states[a].ident == states[b].ident {
                return Some((a, b));
            }
            b = b + 1;
        }
        a = a + 1;
    }
    None
}

fn marker_names(loops: &Vec<SelfLoop>) -> (r: Vec<String>)
    ensures
        r@ == loop_names(loops@),
{
    let mut r: Vec<String> = Vec::new();
    let mut j: usize = 0;
    while j < loops.len()
        invariant
            j <= loops@.len(),
            r@ == loop_names(loops@.subrange(0, j as int)),
        decreases loops@.len() - j,
    {
        r.push(loops[j].state.clone());
        assert(loop_names(loops@.subrange(0, j + 1)) =~= loop_names(
            loops@.subrange(0, j as int),
        ).push(loops@[j as int].state));
        j = j + 1;
    }
    assert(loops@.subrange(0, loops@.len() as int) =~= loops@);
    r
}

fn find_swap(loops: &Vec<SelfLoop>, name: &String) -> (r: Option<(usize, usize)>)
    ensures
        r == configured_swap(loops@, name@),
{
    let mut j: usize = 0;
    assert(loops@.subrange(0, loops@.len() as int) =~= loops@);
    while j < loops.len()
        invariant
            j <= loops@.len(),
            configured_swap(loops@, name@) == configured_swap(
                loops@.subrange(j as int, loops@.len() as int),
                name@,
            ),
        decreases loops@.len() - j,
    {
        let ghost rest = loops@.subrange(j as int, loops@.len() as int);
        assert(rest[0] == loops@[j as int]);
        if loops[j].state == *name {
            return loops[j].swap;
        }
        assert(rest.drop_first() =~= loops@.subrange(j + 1, loops@.len() as int));
        j = j + 1;
    }
    None
}


impl Machine {
    /// Compiles a declaration: normalises its states, derives the transition
    /// graph, and synthesises one after-type and one handler method for each
    /// non-terminal state. Errors come in this order: not an enumeration, no
    /// state, an undeclared lifetime, an invalid swap, two handler methods
    /// of one name, two states of one name.
    pub fn compile(decl: StateMachineAsync) -> (r: Result<Machine, CompileError>)
        requires
            decl.states@.len() <= MAX_STATES,
        ensures
            !decl.is_enum <==> r == Err::<Machine, CompileError>(CompileError::NotAnEnumeration),
            decl.is_enum && decl.states@.len() == 0 <==> r == Err::<Machine, CompileError>(
                CompileError::NoTerminalState,
            ),
            decl.is_enum && decl.states@.len() > 0 ==> (
            r matches Err(CompileError::UnresolvedGenericParameter { .. }) <==> decl_unresolved(
                decl.states@,
                decl.generics,
            )),
            decl.is_enum && decl.states@.len() > 0 && !decl_unresolved(
                decl.states@,
                decl.generics,
            ) ==> (r matches Err(CompileError::InvalidRewrite { .. }) <==> decl_bad_rewrite(
                decl.states@,
                decl.self_looping@,
            )),
            decl.is_enum && decl.states@.len() > 0 && !decl_unresolved(
                decl.states@,
                decl.generics,
            ) && !decl_bad_rewrite(decl.states@, decl.self_looping@) ==> (
            r matches Err(CompileError::DuplicateHandlerName { .. }) <==> handler_clash(
                decl.states@,
            )),
            decl.is_enum && decl.states@.len() > 0 && !decl_unresolved(
                decl.states@,
                decl.generics,
            ) && !decl_bad_rewrite(decl.states@, decl.self_looping@) && !handler_clash(decl.states@)
                ==> (r matches Err(CompileError::DuplicateState { .. }) <==> names_repeat(
                decl.states@,
            )),
            r matches Err(CompileError::DuplicateState { first, second }) ==> {
                &&& first < second < decl.states@.len()
                &&& decl.states@[first as int].ident@ == decl.states@[second as int].ident@
            },
            r matches Err(CompileError::DuplicateHandlerName { first, second }) ==> {
                &&& first < second
                &&& second + 1 < decl.states@.len()
                &&& snake_of(decl.states@[first as int].ident@) == snake_of(
                    decl.states@[second as int].ident@,
                )
            },
            r matches Err(CompileError::UnresolvedGenericParameter { state, field, name }) ==> {
                &&& state < decl.states@.len()
                &&& field < decl.states@[state as int].fields@.len()
                &&& decl.states@[state as int].fields@[field as int].lifetimes@.contains(name)
                &&& !listed(decl.generics.lifetimes@, name@)
            },
            r matches Err(CompileError::InvalidRewrite { state }) ==> {
                &&& state < decl.states@.len()
                &&& swap_invalid(
                    rewrite_at(
                        decl.self_looping@,
                        decl.states@.len() as int,
                        state as int,
                        decl.states@[state as int].ident@,
                    ),
                    decl.states@[state as int].fields@.len() as int,
                )
            },
            r is Ok ==> {
                let m = r->Ok_0;
                let n = decl.states@.len() as int;
                &&& m.wf()
                &&& m.count() == n
                &&& normalised(m.state_list(), decl.states@, decl.generics)
                &&& forall|i: int|
                    0 <= i < n ==> {
                        &&& #[trigger] m.graph().looping()[i] == loops_at(
                            decl.self_looping@,
                            n,
                            i,
                            decl.states@[i].ident@,
                        )
                        &&& m.rewrites()[i] == rewrite_at(
                            decl.self_looping@,
                            n,
                            i,
                            decl.states@[i].ident@,
                        )
                    }
            },
    {
        if !decl.is_enum {
            return Err(CompileError::NotAnEnumeration);
        }
        let n = decl.states.len();
        if n == 0 {
            return Err(CompileError::NoTerminalState);
        }
        let ghost orig = decl.states@;
        let mut names: Vec<String> = Vec::new();
        let mut i: usize = 0;
        while i < n
            invariant
                decl.is_enum,
                n == decl.states@.len(),
                n > 0,
                i <= n,
                names@.len() == i,
                forall|k: int| 0 <= k < i ==> #[trigger] names@[k]@ == decl.states@[k].ident@,
            decreases n - i,
        {
            names.push(decl.states[i].ident.clone());
            i = i + 1;
        }
        let markers = marker_names(&decl.self_looping);
        let graph = match TransitionGraph::build(&names, &markers) {
            Ok(g) => g,
            Err(GraphError::NoTerminalState) => {
                return Err(CompileError::NoTerminalState);
            },
        };
        let StateMachineAsync { ident: _, is_enum: _, states, generics, self_looping } = decl;
        let mut states = states;
        let mut out: Vec<GenericState> = Vec::new();
        let mut i: usize = 0;
        while i < n
            invariant
                decl.is_enum,
                orig == decl.states@,
                generics == decl.generics,
                n == orig.len(),
                i <= n,
                states@ == orig.subrange(i as int, n as int),
                out@.len() == i,
                forall|k: int|
                    0 <= k < i ==> #[trigger] normalised_state(out@[k], orig[k], generics),
                forall|k: int|
                    0 <= k < i ==> !#[trigger] has_unresolved(orig[k].fields@, generics.lifetimes@),
            decreases n - i,
        {
            let st = states.remove(0);
            assert(st == orig[i as int]);
            assert(states@ =~= orig.subrange(i + 1, n as int));
            match GenericState::from_state_and_generics(st, &generics) {
                Ok(g) => {
                    out.push(g);
                },
                Err(ModelError::UnresolvedGenericParameter { field, name }) => {
                    assert(has_unresolved(orig[i as int].fields@, generics.lifetimes@));
                    assert(decl_unresolved(orig, generics));
                    return Err(CompileError::UnresolvedGenericParameter { state: i, field, name });
                },
                Err(ModelError::NotAnEnumeration) => {
                    return Err(CompileError::NotAnEnumeration);
                },
            }
            i = i + 1;
        }
        assert(!decl_unresolved(orig, generics));
        let mut rewrites: Vec<Option<(usize, usize)>> = Vec::new();
        let mut i: usize = 0;
        while i < n
            invariant
                decl.is_enum,
                orig == decl.states@,
                generics == decl.generics,
                self_looping == decl.self_looping,
                !decl_unresolved(orig, generics),
                n == orig.len(),
                n == graph.count(),
                names@.len() == n,
                graph.wf(),
                out@.len() == n,
                markers@ == loop_names(self_looping@),
                i <= n,
                rewrites@.len() == i,
                forall|k: int| 0 <= k < n ==> #[trigger] names@[k]@ == orig[k].ident@,
                normalised(out@, orig, generics),
                forall|k: int|
                    0 <= k < n ==> #[trigger] graph.looping()[k] == (k + 1 < n && is_listed(
                        markers@,
                        names@[k]@,
                    )),
                forall|k: int|
                    0 <= k < i ==> #[trigger] rewrites@[k] == rewrite_at(
                        self_looping@,
                        n as int,
                        k,
                        orig[k].ident@,
                    ),
                forall|k: int|
                    0 <= k < i ==> !#[trigger] swap_invalid(
                        rewrite_at(self_looping@, n as int, k, orig[k].ident@),
                        orig[k].fields@.len() as int,
                    ),
            decreases n - i,
        {
            assert(normalised_state(out@[i as int], orig[i as int], generics));
            let sw = if graph.is_self_looping(i) {
                find_swap(&self_looping, &names[i])
            } else {
                None
            };
            assert(sw == rewrite_at(self_looping@, n as int, i as int, orig[i as int].ident@));
            match sw {
                Some((a, b)) => {
                    let len = out[i].fields.len();
                    if a >= len || b >= len || a == b {
                        assert(swap_invalid(
                            rewrite_at(self_looping@, n as int, i as int, orig[i as int].ident@),
                            orig[i as int].fields@.len() as int,
                        ));
                        assert(decl_bad_rewrite(orig, self_looping@));
                        return Err(CompileError::InvalidRewrite { state: i });
                    }
                },
                None => {},
            }
            rewrites.push(sw);
            i = i + 1;
        }
        assert(!decl_bad_rewrite(orig, self_looping@));
        assert forall|k: int| 0 <= k < n implies match #[trigger] rewrites@[k] {
            Some((a, b)) => {
                &&& graph.looping()[k]
                &&& a < out@[k].fields@.len()
                &&& b < out@[k].fields@.len()
                &&& a != b
            },
            None => true,
        } by {
            assert(normalised_state(out@[k], orig[k], generics));
            assert(names@[k]@ == orig[k].ident@);
            assert(graph.looping()[k] == (k + 1 < n && is_listed(markers@, names@[k]@)));
            assert(!swap_invalid(
                rewrite_at(self_looping@, n as int, k, orig[k].ident@),
                orig[k].fields@.len() as int,
            ));
        }
        assert(rewrites_fit(rewrites@, graph, out@));
        let terminal = graph.terminal_state();
        let mut after_types: Vec<AfterType> = Vec::new();
        let mut handlers: Vec<HandlerMethod> = Vec::new();
        let mut i: usize = 0;
        while i + 1 < n
            invariant
                n == graph.count(),
                graph.wf(),
                out@.len() == n,
                terminal == graph.terminal(),
                rewrites@.len() == n,
                rewrites_fit(rewrites@, graph, out@),
                normalised(out@, orig, generics),
                orig == decl.states@,
                generics == decl.generics,
                self_looping == decl.self_looping,
                n == orig.len(),
                names@.len() == n,
                forall|k: int| 0 <= k < n ==> #[trigger] names@[k]@ == orig[k].ident@,
                forall|k: int|
                    0 <= k < n ==> #[trigger] graph.looping()[k] == (k + 1 < n && is_listed(
                        markers@,
                        names@[k]@,
                    )),
                markers@ == loop_names(self_looping@),
                forall|k: int|
                    0 <= k < n ==> #[trigger] rewrites@[k] == rewrite_at(
                        self_looping@,
                        n as int,
                        k,
                        orig[k].ident@,
                    ),
                i < n,
                after_types@.len() == i,
                handlers@.len() == i,
                forall|k: int|
                    0 <= k < i ==> after_type_of(#[trigger] after_types@[k], k, graph, out@),
                forall|k: int| 0 <= k < i ==> handler_of(#[trigger] handlers@[k], k, out@),
            decreases n - i,
        {
            let succ = graph.successors(i);
            proof {
                crate::graph::lemma_single_terminal(&graph, i as int);
            }
            let mut variants: Vec<Variant> = Vec::new();
            let mut k: usize = 0;
            while k < succ.len()
                invariant
                    succ@ == graph.succ(i as int),
                    forall|m: int| 0 <= m < succ@.len() ==> #[trigger] succ@[m] < n,
                    out@.len() == n,
                    terminal == graph.terminal(),
                    k <= succ@.len(),
                    targets(variants@) == succ@.subrange(0, k as int),
                    forall|m: int|
                        0 <= m < k ==> {
                            let v = #[trigger] variants@[m];
                            &&& v.name@ == out@[v.target as int].ident@
                            &&& v.wraps_terminal == (v.target == terminal)
                        },
                decreases succ@.len() - k,
            {
                let t = succ[k];
                let ghost before = variants@;
                variants.push(
                    Variant { target: t, name: out[t].ident.clone(), wraps_terminal: t == terminal },
                );
                assert(targets(variants@) =~= targets(before).push(t));
                assert(succ@.subrange(0, k + 1) =~= succ@.subrange(0, k as int).push(t));
                k = k + 1;
            }
            assert(succ@.subrange(0, succ@.len() as int) =~= succ@);
            after_types.push(
                AfterType { state: i, name: after_name(&out[i].ident), variants },
            );
            handlers.push(
                HandlerMethod {
                    state: i,
                    name: handler_name(&out[i].ident),
                    input: out[i].ident.clone(),
                    output: after_name(&out[i].ident),
                },
            );
            i = i + 1;
        }
        match first_clash(&handlers) {
            Some((a, b)) => {
                assert(handler_of(handlers@[a as int], a as int, out@));
                assert(handler_of(handlers@[b as int], b as int, out@));
                assert(normalised_state(out@[a as int], orig[a as int], generics));
                assert(normalised_state(out@[b as int], orig[b as int], generics));
                assert(handler_clash(orig));
                return Err(CompileError::DuplicateHandlerName { first: a, second: b });
            },
            None => {},
        }
        assert(!handler_clash(orig)) by {
            assert forall|a: int, b: int|
                0 <= a < b < orig.len() - 1 implies #[trigger] snake_of(orig[a].ident@) != #[trigger] snake_of(
                orig[b].ident@,
            ) by {
                assert(handler_of(handlers@[a], a, out@));
                assert(handler_of(handlers@[b], b, out@));
                assert(normalised_state(out@[a], orig[a], generics));
                assert(normalised_state(out@[b], orig[b], generics));
                assert(handlers@[a].name@ != handlers@[b].name@);
            }
        }
        match first_repeat(&out) {
            Some((a, b)) => {
                assert(normalised_state(out@[a as int], orig[a as int], generics));
                assert(normalised_state(out@[b as int], orig[b as int], generics));
                assert(names_repeat(orig));
                return Err(CompileError::DuplicateState { first: a, second: b });
            },
            None => {},
        }
        assert(!names_repeat(orig)) by {
            assert forall|a: int, b: int|
                0 <= a < b < orig.len() implies #[trigger] orig[a].ident@ != #[trigger] orig[b].ident@ by {
                assert(normalised_state(out@[a], orig[a], generics));
                assert(normalised_state(out@[b], orig[b], generics));
                assert(out@[a].ident@ != out@[b].ident@);
            }
        }
        let m = Machine { states: out, after_types, handlers, graph, rewrites };
        assert(m.wf());
        Ok(m)
    }

    /// The normalised states, in declaration order.
    pub fn states(&self) -> (r: &Vec<GenericState>)
        ensures
            r@ == self.state_list(),
    {
        &self.states
    }

    /// The after-types, one per non-terminal state, in state order.
    pub fn after_types(&self) -> (r: &Vec<AfterType>)
        ensures
            r@ == self.after_list(),
    {
        &self.after_types
    }

    /// The handler methods, one per non-terminal state, in state order.
    pub fn handlers(&self) -> (r: &Vec<HandlerMethod>)
        ensures
            r@ == self.handler_list(),
    {
        &self.handlers
    }

    /// The swap of field positions along the self-loop edge of state `i`.
    pub fn rewrite(&self, i: usize) -> (r: Option<(usize, usize)>)
        requires
            self.wf(),
            i < self.count(),
        ensures
            r == self.rewrites()[i as int],
    {
        self.rewrites[i]
    }

    /// Number of payload fields of state `i`.
    pub fn field_count(&self, i: usize) -> (r: usize)
        requires
            self.wf(),
            i < self.count(),
        ensures
            r == self.state_list()[i as int].fields@.len(),
    {
        self.states[i].fields.len()
    }

    /// Index of the terminal state.
    pub fn terminal_state(&self) -> (r: usize)
        requires
            self.wf(),
        ensures
            r == self.terminal(),
    {
        self.graph.terminal_state()
    }

    /// The generic parameters of the after-type of non-terminal state `i`:
    /// those of `declared` that the payload of some successor of `i` has, in
    /// declaration order.
    pub fn after_generics(&self, i: usize, declared: &Generics) -> (r: Generics)
        requires
            self.wf(),
            i < self.terminal(),
        ensures
            strs(r.lifetimes@) == needed_params(
                strs(declared.lifetimes@),
                self.state_list(),
                self.graph().succ(i as int),
                true,
            ),
            strs(r.type_params@) == needed_params(
                strs(declared.type_params@),
                self.state_list(),
                self.graph().succ(i as int),
                false,
            ),
    {
        let succ = self.graph.successors(i);
        proof {
            crate::graph::lemma_single_terminal(&self.graph, i as int);
        }
        let lifetimes = keep_needed(&declared.lifetimes, &self.states, &succ, true);
        let type_params = keep_needed(&declared.type_params, &self.states, &succ, false);
        Generics { lifetimes, type_params }
    }

    /// The outgoing edges of state `i`, in graph order.
    pub fn successors(&self, i: usize) -> (r: Vec<usize>)
        requires
            self.wf(),
            i < self.count(),
        ensures
            r@ == self.graph().succ(i as int),
    {
        self.graph.successors(i)
    }
}

/// What well-formedness gives about the parts of a machine.
pub proof fn lemma_machine_parts(m: &Machine)
    requires
        m.wf(),
    ensures
        m.graph().wf(),
        m.count() > 0,
        m.state_list().len() == m.count(),
        m.rewrites().len() == m.count(),
        rewrites_fit(m.rewrites(), m.graph(), m.state_list()),
{
    crate::graph::lemma_nonempty(&m.graph());
}

/// Every non-terminal state's after-type has exactly the state's outgoing
/// edges as variants, in graph order, each named after its target; a variant
/// wraps the terminal payload exactly when its edge enters the terminal state.
pub proof fn lemma_edge_completeness(m: &Machine, i: int)
    requires
        m.wf(),
        0 <= i < m.terminal(),
    ensures
        after_type_of(m.after_list()[i], i, m.graph(), m.state_list()),
{
}

/// Every non-terminal state has exactly one handler method, named by snake-casing
/// the state's name, taking its payload and returning its after-type; no other
/// handler method has that name.
pub proof fn lemma_contract_completeness(m: &Machine, i: int)
    requires
        m.wf(),
        0 <= i < m.terminal(),
    ensures
        handler_of(m.handler_list()[i], i, m.state_list()),
        forall|j: int|
            0 <= j < m.handler_list().len() && (#[trigger] m.handler_list()[j]).state == i ==> j
                == i,
        forall|j: int|
            0 <= j < m.handler_list().len() && j != i ==> (#[trigger] m.handler_list()[j]).name@
                != m.handler_list()[i].name@,
{
}

/// The terminal state has neither an after-type nor a handler method, and
/// every other state has both.
pub proof fn lemma_terminal_minimality(m: &Machine)
    requires
        m.wf(),
    ensures
        m.after_list().len() == m.terminal(),
        m.handler_list().len() == m.terminal(),
        forall|j: int|
            0 <= j < m.after_list().len() ==> (#[trigger] m.after_list()[j]).state != m.terminal(),
        forall|j: int|
            0 <= j < m.handler_list().len() ==> (#[trigger] m.handler_list()[j]).state
                != m.terminal(),
        m.graph().succ(m.terminal()).len() == 0,
{
}

/// A self-looping state appears exactly once among its own successors, and a
/// field swap is configured only on states that loop.
pub proof fn lemma_self_loop_preservation(m: &Machine, i: int)
    requires
        m.wf(),
        0 <= i < m.count(),
    ensures
        m.graph().looping()[i] ==> m.graph().succ(i).filter(|t: usize| t == i).len() == 1,
        !m.graph().looping()[i] ==> !m.graph().succ(i).contains(i as usize),
        m.rewrites()[i] is Some ==> m.graph().looping()[i],
{
    crate::graph::lemma_self_loop_once(&m.graph(), i);
}

} // verus!
