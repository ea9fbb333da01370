//! The normalised model of a declaration: states with their fields, and the
//! generic parameters each state needs.
use vstd::prelude::*;

verus! {

/// One field of a state's payload. The type is opaque text; the names it
/// mentions are listed beside it so that generic parameters can be resolved.
#[derive(Debug)]
pub struct StateField {
    /// The field's name; `None` for a positional field.
    pub ident: Option<String>,
    /// The field's type, as written.
    pub ty: String,
    /// Single-segment type names the type mentions (type parameters among them).
    pub type_names: Vec<String>,
    /// Named lifetimes the type mentions, `'static` excluded.
    pub lifetimes: Vec<String>,
}

/// A declared state: its name and its fields, in declaration order.
#[derive(Debug)]
pub struct State {
    pub ident: String,
    pub fields: Vec<StateField>,
}

/// The generic parameters declared on the enclosing declaration, in order.
#[derive(Debug)]
pub struct Generics {
    pub lifetimes: Vec<String>,
    pub type_params: Vec<String>,
}

/// A state of the model with the generic parameters its fields use.
#[derive(Debug)]
pub struct GenericState {
    pub ident: String,
    pub fields: Vec<StateField>,
    pub lifetimes: Vec<String>,
    pub ty_params: Vec<String>,
}

/// Errors of model extraction.
#[derive(Debug, PartialEq, Eq)]
pub enum ModelError {
    /// The declaration is not an enumeration.
    NotAnEnumeration,
    /// Field `field` of a state names the lifetime `name`, which the enclosing
    /// declaration does not declare.
    UnresolvedGenericParameter { field: usize, name: String },
}

/// The character sequences of a list of strings.
pub open spec fn strs(v: Seq<String>) -> Seq<Seq<char>> {
    v.map_values(|s: String| s@)
}

/// The names a field mentions: its lifetimes, or its type names.
pub open spec fn mentioned(f: StateField, lifetime: bool) -> Seq<String> {
    if lifetime {
        f.lifetimes@
    } else {
        f.type_names@
    }
}

/// Whether some field mentions `name` (as a lifetime, or as a type name).
pub open spec fn fields_use(fields: Seq<StateField>, name: Seq<char>, lifetime: bool) -> bool {
    exists|i: int, j: int|
        0 <= i < fields.len() && 0 <= j < mentioned(fields[i], lifetime).len()
            && #[trigger] mentioned(fields[i], lifetime)[j]@ == name
}

/// The declared parameters that some field uses, in declaration order.
pub open spec fn used_params(decl: Seq<Seq<char>>, fields: Seq<StateField>, lifetime: bool) -> Seq<
    Seq<char>,
>
    decreases decl.len(),
{
    if decl.len() == 0 {
        Seq::empty()
    } else {
        let rest = used_params(decl.drop_last(), fields, lifetime);
        if fields_use(fields, decl.last(), lifetime) {
            rest.push(decl.last())
        } else {
            rest
        }
    }
}

/// Whether `name` is among `v`.
pub open spec fn listed(v: Seq<String>, name: Seq<char>) -> bool {
    exists|k: int| 0 <= k < v.len() && #[trigger] v[k]@ == name
}

/// Whether field `i` names a lifetime that `declared` lacks.
pub open spec fn field_unresolved(fields: Seq<StateField>, i: int, declared: Seq<String>) -> bool {
    exists|j: int|
        0 <= j < fields[i].lifetimes@.len() && !listed(declared, #[trigger] fields[i].lifetimes@[j]@)
}

/// Whether some field names a lifetime that `declared` lacks.
pub open spec fn has_unresolved(fields: Seq<StateField>, declared: Seq<String>) -> bool {
    exists|i: int| 0 <= i < fields.len() && #[trigger] field_unresolved(fields, i, declared)
}

pub(crate) fn contains_str(v: &Vec<String>, s: &String) -> (r: bool)
    ensures
        r == listed(v@, s@),
{
    let mut k: usize = 0;
    while k < v.len()
        invariant
            k <= v@.len(),
            forall|m: int| 0 <= m < k ==> #[trigger] v@[m]@ != s@,
        decreases v@.len() - k,
    {
        if v[k] == *s {
            return true;
        }
        k = k + 1;
    }
    false
}

fn uses_param(fields: &Vec<StateField>, name: &String, lifetime: bool) -> (r: bool)
    ensures
        r == fields_use(fields@, name@, lifetime),
{
    let mut i: usize = 0;
    while i < fields.len()
        invariant
            i <= fields@.len(),
            forall|a: int, b: int|
                0 <= a < i && 0 <= b < mentioned(fields@[a], lifetime).len() ==> #[trigger] mentioned(
                    fields@[a],
                    lifetime,
                )[b]@ != name@,
        decreases fields@.len() - i,
    {
        let names = if lifetime {
            &fields[i].lifetimes
        } else {
            &fields[i].type_names
        };
        assert(names@ == mentioned(fields@[i as int], lifetime));
        if contains_str(names, name) {
            let ghost k = choose|k: int| 0 <= k < names@.len() && #[trigger] names@[k]@ == name@;
            assert(mentioned(fields@[i as int], lifetime)[k]@ == name@);
            return true;
        }
        i = i + 1;
    }
    false
}

fn keep_used(decl: &Vec<String>, fields: &Vec<StateField>, lifetime: bool) -> (r: Vec<String>)
    ensures
        strs(r@) == used_params(strs(decl@), fields@, lifetime),
{
    let mut r: Vec<String> = Vec::new();
    let mut k: usize = 0;
    while k < decl.len()
        invariant
            k <= decl@.len(),
            strs(r@) == used_params(strs(decl@.subrange(0, k as int)), fields@, lifetime),
        decreases decl@.len() - k,
    {
        let ghost before = r@;
        let ghost pre = strs(decl@.subrange(0, k as int));
        let ghost next = strs(decl@.subrange(0, k + 1));
        assert(next.drop_last() =~= pre);
        assert(next.last() == decl@[k as int]@);
        if uses_param(fields, &decl[k], lifetime) {
            r.push(decl[k].clone());
            assert(strs(r@) =~= strs(before).push(decl@[k as int]@));
        }
        k = k + 1;
    }
    assert(decl@.subrange(0, decl@.len() as int) =~= decl@);
    r
}

impl GenericState {
    /// Normalises `state`: keeps its name and fields, and gives it exactly the
    /// declared lifetimes and type parameters that its fields use, in
    /// declaration order. Fails when a field names an undeclared lifetime.
    pub fn from_state_and_generics(state: State, generics: &Generics) -> (r: Result<
        GenericState,
        ModelError,
    >)
        ensures
            r is Err <==> has_unresolved(state.fields@, generics.lifetimes@),
            r is Err ==> (match r->Err_0 {
                ModelError::UnresolvedGenericParameter { field, name } => {
                    &&& field < state.fields@.len()
                    &&& state.fields@[field as int].lifetimes@.contains(name)
                    &&& !listed(generics.lifetimes@, name@)
                },
                ModelError::NotAnEnumeration => false,
            }),
            r is Ok ==> {
                let g = r->Ok_0;
                &&& g.ident == state.ident
                &&& g.fields@ == state.fields@
                &&& strs(g.lifetimes@) == used_params(
                    strs(generics.lifetimes@),
                    state.fields@,
                    true,
                )
                &&& strs(g.ty_params@) == used_params(
                    strs(generics.type_params@),
                    state.fields@,
                    false,
                )
            },
    {
        let mut i: usize = 0;
        while i < state.fields.len()
            invariant
                i <= state.fields@.len(),
                forall|a: int|
                    0 <= a < i ==> !#[trigger] field_unresolved(
                        state.fields@,
                        a,
                        generics.lifetimes@,
                    ),
            decreases state.fields@.len() - i,
        {
            let lts = &state.fields[i].lifetimes;
            let mut j: usize = 0;
            while j < lts.len()
                invariant
                    i < state.fields@.len(),
                    *lts == state.fields@[i as int].lifetimes,
                    j <= lts@.len(),
                    forall|b: int|
                        0 <= b < j ==> listed(generics.lifetimes@, #[trigger] lts@[b]@),
                decreases lts@.len() - j,
            {
                if !contains_str(&generics.lifetimes, &lts[j]) {
                    let name = lts[j].clone();
                    assert(field_unresolved(state.fields@, i as int, generics.lifetimes@));
                    assert(lts@[j as int] == name);
                    return Err(ModelError::UnresolvedGenericParameter { field: i, name });
                }
                j = j + 1;
            }
            i = i + 1;
        }
        let lifetimes = keep_used(&generics.lifetimes, &state.fields, true);
        let ty_params = keep_used(&generics.type_params, &state.fields, false);
        Ok(GenericState { ident: state.ident, fields: state.fields, lifetimes, ty_params })
    }
}

} // verus!
