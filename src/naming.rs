//! Names of generated items: handler methods and after-types.
use vstd::prelude::*;
use vstd::string::*;

verus! {

/// What `heck` makes of a name in snake case.
pub uninterp spec fn snake_of(s: Seq<char>) -> Seq<char>;

/// Relies on `heck::SnakeCase::to_snake_case` for `str` (heck 0.3): the result
/// depends on the characters of `s` alone.
#[verifier::external_body]
fn heck_snake_case(s: &str) -> (r: String)
    ensures
        r@ == snake_of(s@),
{
    heck::SnakeCase::to_snake_case(s)
}

/// Name of the handler method of the state named `state`: the name in snake case.
pub fn handler_name(state: &String) -> (r: String)
    ensures
        r@ == snake_of(state@),
{
    heck_snake_case(state.as_str())
}

/// The prefix of every after-type name.
pub open spec fn after_prefix() -> Seq<char> {
    seq!['A', 'f', 't', 'e', 'r']
}

/// Name of the after-type of the state named `state`: `After` and the name.
pub fn after_name(state: &String) -> (r: String)
    ensures
        r@ == after_prefix() + state@,
{
    let prefix = "After";
    proof {
        reveal_strlit("After");
    }
    let mut r = String::from_str(prefix);
    r.append(state.as_str());
    assert(prefix@ =~= after_prefix());
    r
}

} // verus!
