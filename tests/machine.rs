use state_machine_async::driver::{DriveError, Handlers};
use state_machine_async::model::{GenericState, Generics, ModelError, State, StateField};
use state_machine_async::naming::{after_name, handler_name};
use state_machine_async::synth::{CompileError, StateMachineAsync, Machine, SelfLoop};

fn field(name: &str, ty: &str, type_names: &[&str], lifetimes: &[&str]) -> StateField {
    StateField {
        ident: Some(name.to_string()),
        ty: ty.to_string(),
        type_names: type_names.iter().map(|s| s.to_string()).collect(),
        lifetimes: lifetimes.iter().map(|s| s.to_string()).collect(),
    }
}

fn int_field(name: &str) -> StateField {
    field(name, "i64", &["i64"], &[])
}

fn state(name: &str, fields: Vec<StateField>) -> State {
    State { ident: name.to_string(), fields }
}

fn no_generics() -> Generics {
    Generics { lifetimes: vec![], type_params: vec![] }
}

fn decl(states: Vec<State>, loops: Vec<SelfLoop>) -> StateMachineAsync {
    StateMachineAsync {
        ident: "Machine".to_string(),
        is_enum: true,
        states,
        generics: no_generics(),
        self_looping: loops,
    }
}

fn game_decl() -> StateMachineAsync {
    let invite = state(
        "Invite",
        vec![
            field("invitation", "BoxFuture<'a, ()>", &["BoxFuture"], &["'a"]),
            field("from", "Player", &["Player"], &[]),
            field("to", "Player", &["Player"], &[]),
        ],
    );
    let waiting = state(
        "WaitingForTurn",
        vec![
            field("turn", "BoxFuture<'a, Turn>", &["BoxFuture", "Turn"], &["'a"]),
            field("active", "Player", &["Player"], &[]),
            field("idle", "Player", &["Player"], &[]),
        ],
    );
    let finished = State {
        ident: "Finished".to_string(),
        fields: vec![StateField {
            ident: None,
            ty: "GameResult".to_string(),
            type_names: vec!["GameResult".to_string()],
            lifetimes: vec![],
        }],
    };
    StateMachineAsync {
        ident: "Game".to_string(),
        is_enum: true,
        states: vec![invite, waiting, finished],
        generics: Generics { lifetimes: vec!["'a".to_string()], type_params: vec![] },
        self_looping: vec![SelfLoop { state: "WaitingForTurn".to_string(), swap: Some((1, 2)) }],
    }
}

/// Chain handler: `Start{x}` always goes to `End{y: 1}`.
struct Chain {
    calls: usize,
}

impl Handlers<i64> for Chain {
    fn handle(&mut self, _state: usize, _fields: Vec<i64>) -> (usize, Vec<i64>) {
        self.calls += 1;
        (0, vec![1])
    }
}

/// Counter handler: `Loop{n}` goes to `Loop{n - 1}` while `n > 0`, else to `Done{total: n}`.
struct Counter {
    calls: usize,
}

impl Handlers<i64> for Counter {
    fn handle(&mut self, _state: usize, fields: Vec<i64>) -> (usize, Vec<i64>) {
        self.calls += 1;
        let n = fields[0];
        if n > 0 {
            (0, vec![n - 1])
        } else {
            (1, vec![n])
        }
    }
}

/// Counter that hands over to a second state, which goes straight to the terminal one.
struct Staged {
    calls: usize,
}

impl Handlers<i64> for Staged {
    fn handle(&mut self, state: usize, fields: Vec<i64>) -> (usize, Vec<i64>) {
        self.calls += 1;
        let n = fields[0];
        if state == 0 && n > 0 {
            (0, vec![n - 1])
        } else if state == 0 {
            (1, vec![n])
        } else {
            (0, vec![n])
        }
    }
}

/// Always answers with a payload of two fields.
struct Wide;

impl Handlers<i64> for Wide {
    fn handle(&mut self, _state: usize, _fields: Vec<i64>) -> (usize, Vec<i64>) {
        (0, vec![1, 2])
    }
}

#[derive(Clone, Debug, PartialEq)]
enum GameValue {
    Unit,
    One,
    Two,
    Continue,
    GameFinished,
    Result,
}

struct Game {
    invites: usize,
    turns: Vec<(GameValue, GameValue)>,
}

impl Handlers<GameValue> for Game {
    fn handle(&mut self, state: usize, fields: Vec<GameValue>) -> (usize, Vec<GameValue>) {
        if state == 0 {
            self.invites += 1;
            let from = fields[1].clone();
            let to = fields[2].clone();
            (0, vec![GameValue::Continue, to, from])
        } else {
            self.turns.push((fields[1].clone(), fields[2].clone()));
            match fields[0] {
                GameValue::Continue => {
                    (0, vec![GameValue::GameFinished, fields[1].clone(), fields[2].clone()])
                }
                _ => (1, vec![GameValue::Result]),
            }
        }
    }
}

#[test]
fn two_state_chain() {
    let m = Machine::compile(decl(
        vec![state("Start", vec![int_field("x")]), state("End", vec![int_field("y")])],
        vec![],
    ))
    .unwrap();
    let mut h = Chain { calls: 0 };
    let run = m.drive(&mut h, vec![0], 100);
    let result = run.outcome.as_ref().unwrap().clone();
    assert_eq!(result, vec![1]);
    assert_eq!(h.calls, 1);
    assert_eq!(run.visited, vec![0]);
    assert_eq!(run.chosen, vec![0]);
}

#[test]
fn self_loop_with_counter() {
    let m = Machine::compile(decl(
        vec![state("Loop", vec![int_field("n")]), state("Done", vec![int_field("total")])],
        vec![SelfLoop { state: "Loop".to_string(), swap: None }],
    ))
    .unwrap();
    assert_eq!(m.successors(0), vec![0, 1]);
    let mut h = Counter { calls: 0 };
    let run = m.drive(&mut h, vec![3], 100);
    let result = run.outcome.as_ref().unwrap().clone();
    assert_eq!(result, vec![0]);
    assert_eq!(h.calls, 4);
    assert_eq!(run.visited, vec![0, 0, 0, 0]);
    assert_eq!(run.chosen, vec![0, 0, 0, 1]);
}

#[test]
fn role_swap_game() {
    let m = Machine::compile(game_decl()).unwrap();
    let mut h = Game { invites: 0, turns: vec![] };
    let run = m
        .drive(&mut h, vec![GameValue::Unit, GameValue::One, GameValue::Two], 100);
    let result = run.outcome.as_ref().unwrap().clone();
    assert_eq!(result, vec![GameValue::Result]);
    assert_eq!(h.invites, 1);
    assert_eq!(h.turns.len(), 2);
    assert_eq!(h.turns[0], (GameValue::Two, GameValue::One));
    assert_eq!(h.turns[1], (GameValue::One, GameValue::Two));
    assert_eq!(run.visited, vec![0, 1, 1]);
}

#[test]
fn driver_stops_at_first_terminal_result() {
    let m = Machine::compile(decl(
        vec![
            state("Loop", vec![int_field("n")]),
            state("Next", vec![int_field("n")]),
            state("Done", vec![int_field("total")]),
        ],
        vec![SelfLoop { state: "Loop".to_string(), swap: None }],
    ))
    .unwrap();
    // Loop{2} -> Loop{1} -> Loop{0} -> Next{0} -> Done{0}: four invocations.
    let mut h = Staged { calls: 0 };
    let run = m.drive(&mut h, vec![2], 4);
    let result = run.outcome.as_ref().unwrap().clone();
    assert_eq!(h.calls, 4);
    assert_eq!(run.visited, vec![0, 0, 0, 1]);
    assert_eq!(run.chosen, vec![0, 0, 1, 0]);
    assert_eq!(result, vec![0]);
    // A larger allowance changes nothing.
    let mut h = Staged { calls: 0 };
    let run = m.drive(&mut h, vec![2], 1000);
    let result = run.outcome.as_ref().unwrap().clone();
    assert_eq!(h.calls, 4);
    assert_eq!(run.visited.len(), 4);
    // One invocation short of the terminal state.
    let mut h = Staged { calls: 0 };
    let run = m.drive(&mut h, vec![2], 3);
    assert_eq!(run.outcome, Err(DriveError::StepLimit));
    assert_eq!(run.visited, vec![0, 0, 0]);
    assert_eq!(run.chosen, vec![0, 0, 1]);
    assert_eq!(h.calls, 3);
    // No invocation allowed at all.
    let mut h = Staged { calls: 0 };
    let run = m.drive(&mut h, vec![2], 0);
    assert_eq!(run.outcome, Err(DriveError::StepLimit));
    assert!(run.visited.is_empty());
    assert_eq!(h.calls, 0);
}

#[test]
fn game_artifacts() {
    let m = Machine::compile(game_decl()).unwrap();
    assert_eq!(m.terminal_state(), 2);
    let after = m.after_types();
    assert_eq!(after.len(), 2);
    assert_eq!(after[0].name, "AfterInvite");
    let names: Vec<&str> = after[0].variants.iter().map(|v| v.name.as_str()).collect();
    assert_eq!(names, vec!["WaitingForTurn"]);
    assert_eq!(after[1].name, "AfterWaitingForTurn");
    let names: Vec<&str> = after[1].variants.iter().map(|v| v.name.as_str()).collect();
    assert_eq!(names, vec!["WaitingForTurn", "Finished"]);
    assert!(!after[1].variants[0].wraps_terminal);
    assert!(after[1].variants[1].wraps_terminal);
    let handlers = m.handlers();
    assert_eq!(handlers.len(), 2);
    assert_eq!(handlers[0].name, "invite");
    assert_eq!(handlers[0].input, "Invite");
    assert_eq!(handlers[0].output, "AfterInvite");
    assert_eq!(handlers[1].name, "waiting_for_turn");
    assert_eq!(handlers[1].output, "AfterWaitingForTurn");
    assert!(after.iter().all(|a| a.state != 2));
    assert!(handlers.iter().all(|h| h.state != 2));
    assert_eq!(m.rewrite(1), Some((1, 2)));
    assert_eq!(m.rewrite(0), None);
    let states = m.states();
    assert_eq!(states[0].lifetimes, vec!["'a".to_string()]);
    assert!(states[2].lifetimes.is_empty());
}

#[test]
fn self_loop_marker_on_terminal_is_ignored() {
    let m = Machine::compile(decl(
        vec![state("A", vec![]), state("B", vec![])],
        vec![SelfLoop { state: "B".to_string(), swap: None }],
    ))
    .unwrap();
    assert_eq!(m.successors(0), vec![1]);
    assert!(m.successors(1).is_empty());
}

#[test]
fn names_of_generated_items() {
    assert_eq!(handler_name(&"WaitingForTurn".to_string()), "waiting_for_turn");
    assert_eq!(handler_name(&"Start".to_string()), "start");
    assert_eq!(after_name(&"Start".to_string()), "AfterStart");
}

#[test]
fn generic_parameters_are_propagated() {
    let s = state(
        "Holding",
        vec![
            field("item", "&'a T", &["T"], &["'a"]),
            field("count", "usize", &["usize"], &[]),
        ],
    );
    let g = Generics {
        lifetimes: vec!["'a".to_string(), "'b".to_string()],
        type_params: vec!["U".to_string(), "T".to_string()],
    };
    let gs: GenericState = GenericState::from_state_and_generics(s, &g).unwrap();
    assert_eq!(gs.ident, "Holding");
    assert_eq!(gs.fields.len(), 2);
    assert_eq!(gs.lifetimes, vec!["'a".to_string()]);
    assert_eq!(gs.ty_params, vec!["T".to_string()]);
}

#[test]
fn undeclared_lifetime_is_rejected() {
    let s = state("S", vec![int_field("x"), field("r", "&'b str", &[], &["'b"])]);
    let err = GenericState::from_state_and_generics(s, &no_generics()).unwrap_err();
    assert_eq!(err, ModelError::UnresolvedGenericParameter { field: 1, name: "'b".to_string() });
    let d = decl(
        vec![state("A", vec![]), state("B", vec![field("r", "&'c str", &[], &["'c"])])],
        vec![],
    );
    assert_eq!(
        Machine::compile(d).unwrap_err(),
        CompileError::UnresolvedGenericParameter { state: 1, field: 0, name: "'c".to_string() }
    );
}

#[test]
fn not_an_enumeration() {
    let mut d = decl(vec![state("A", vec![])], vec![]);
    d.is_enum = false;
    assert_eq!(Machine::compile(d).unwrap_err(), CompileError::NotAnEnumeration);
}

#[test]
fn no_states_means_no_terminal() {
    assert_eq!(Machine::compile(decl(vec![], vec![])).unwrap_err(), CompileError::NoTerminalState);
}

#[test]
fn invalid_rewrite_is_rejected() {
    let d = decl(
        vec![state("A", vec![int_field("x")]), state("B", vec![])],
        vec![SelfLoop { state: "A".to_string(), swap: Some((0, 1)) }],
    );
    assert_eq!(Machine::compile(d).unwrap_err(), CompileError::InvalidRewrite { state: 0 });
    let d = decl(
        vec![state("A", vec![int_field("x"), int_field("y")]), state("B", vec![])],
        vec![SelfLoop { state: "A".to_string(), swap: Some((1, 1)) }],
    );
    assert_eq!(Machine::compile(d).unwrap_err(), CompileError::InvalidRewrite { state: 0 });
}

#[test]
fn single_state_machine_returns_initial_payload() {
    let m = Machine::compile(decl(vec![state("Only", vec![int_field("v")])], vec![])).unwrap();
    assert!(m.after_types().is_empty());
    assert!(m.handlers().is_empty());
    let mut h = Chain { calls: 0 };
    let run = m.drive(&mut h, vec![7], 10);
    let result = run.outcome.as_ref().unwrap().clone();
    assert_eq!(result, vec![7]);
    assert_eq!(h.calls, 0);
}

#[test]
fn driver_errors() {
    let m = Machine::compile(decl(
        vec![state("Start", vec![int_field("x")]), state("End", vec![int_field("y")])],
        vec![],
    ))
    .unwrap();
    let mut h = Chain { calls: 0 };
    let run = m.drive(&mut h, vec![], 10);
    assert_eq!(run.outcome, Err(DriveError::PayloadShape { state: 0 }));
    assert!(run.visited.is_empty());
    assert_eq!(h.calls, 0);
    // A handler result of the wrong size stops the run after that call.
    let run = m.drive(&mut Wide, vec![0], 10);
    assert_eq!(run.outcome, Err(DriveError::PayloadShape { state: 1 }));
    assert_eq!(run.visited, vec![0]);
    assert_eq!(
        m.advance(0, 3, vec![1i64]).unwrap_err(),
        DriveError::UnknownVariant { state: 0, variant: 3 }
    );
    assert_eq!(m.advance(0, 0, vec![1i64, 2]).unwrap_err(), DriveError::PayloadShape { state: 1 });
}

#[test]
fn clashing_handler_names_are_rejected() {
    let d = decl(vec![state("Ab", vec![]), state("AB", vec![]), state("End", vec![])], vec![]);
    assert_eq!(
        Machine::compile(d).unwrap_err(),
        CompileError::DuplicateHandlerName { first: 0, second: 1 }
    );
    // The terminal state has no handler, so its name may coincide.
    let d = decl(vec![state("Ab", vec![]), state("AB", vec![])], vec![]);
    assert!(Machine::compile(d).is_ok());
}

#[test]
fn repeated_state_names_are_rejected() {
    let d = decl(vec![state("A", vec![]), state("B", vec![]), state("A", vec![])], vec![]);
    assert_eq!(
        Machine::compile(d).unwrap_err(),
        CompileError::DuplicateState { first: 0, second: 2 }
    );
}

#[test]
fn after_type_generics_are_those_of_the_successors() {
    let g = Generics {
        lifetimes: vec!["'a".to_string(), "'b".to_string()],
        type_params: vec!["T".to_string(), "U".to_string()],
    };
    let d = StateMachineAsync {
        ident: "M".to_string(),
        is_enum: true,
        states: vec![
            state("First", vec![field("x", "&'a T", &["T"], &["'a"])]),
            state("Second", vec![field("y", "&'b U", &["U"], &["'b"])]),
            state("Last", vec![int_field("z")]),
        ],
        generics: g,
        self_looping: vec![],
    };
    let m = Machine::compile(d).unwrap();
    let declared = Generics {
        lifetimes: vec!["'a".to_string(), "'b".to_string()],
        type_params: vec!["T".to_string(), "U".to_string()],
    };
    let first = m.after_generics(0, &declared);
    assert_eq!(first.lifetimes, vec!["'b".to_string()]);
    assert_eq!(first.type_params, vec!["U".to_string()]);
    let second = m.after_generics(1, &declared);
    assert!(second.lifetimes.is_empty());
    assert!(second.type_params.is_empty());
}
