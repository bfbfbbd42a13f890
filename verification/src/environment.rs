//! The environment variables of a process.

use crate::text;
use vstd::prelude::*;

verus! {

/// What the variables hold, name by name.
pub open spec fn variables(environment: Seq<(String, String)>) -> Seq<(Seq<char>, Seq<char>)> {
    Seq::new(environment.len(), |i: int| (environment[i].0@, environment[i].1@))
}

/// The value of the first of `variables` with the name `name`.
pub open spec fn value_of(variables: Seq<(Seq<char>, Seq<char>)>, name: Seq<char>) -> Option<
    Seq<char>,
>
    decreases variables.len(),
{
    if variables.len() == 0 {
        None
    } else if variables[0].0 == name {
        Some(variables[0].1)
    } else {
        value_of(variables.drop_first(), name)
    }
}

/// The value of the first of the variables with the name `name`.
pub fn variable<'a>(environment: &'a Vec<(String, String)>, name: &str) -> (r: Option<&'a String>)
    ensures
        (match r {
            Some(value) => value_of(variables(environment@), name@) == Some(value@),
            None => value_of(variables(environment@), name@) is None,
        }),
{
    let ghost all = variables(environment@);
    let mut i: usize = 0;
    assert(all.skip(0) =~= all);
    while i < environment.len()
        invariant
            i <= environment@.len(),
            all == variables(environment@),
            value_of(all, name@) == value_of(all.skip(i as int), name@),
        decreases environment@.len() - i,
    {
        assert(all.skip(i as int)[0] == all[i as int]);
        if text::same_text(environment[i].0.as_str(), name) {
            return Some(&environment[i].1);
        }
        assert(all.skip(i as int).drop_first() =~= all.skip(i + 1));
        i += 1;
    }
    None
}

/// The value of the variable `name`, or an empty text.
pub open spec fn value_or_empty(
    variables: Seq<(Seq<char>, Seq<char>)>,
    name: Seq<char>,
) -> Seq<char> {
    match value_of(variables, name) {
        Some(value) => value,
        None => Seq::empty(),
    }
}

/// The value of the variable `name`, or an empty text.
pub fn variable_or_empty(environment: &Vec<(String, String)>, name: &str) -> (r: String)
    ensures
        r@ == value_or_empty(variables(environment@), name@),
{
    match variable(environment, name) {
        Some(value) => value.clone(),
        None => String::new(),
    }
}

/// The value of a variable is that of the first of the variables with its name, and there is none where
/// no variable has it.
pub proof fn lemma_first_variable(variables: Seq<(Seq<char>, Seq<char>)>, name: Seq<char>)
    ensures
        (match value_of(variables, name) {
            Some(value) => exists|i: int|
                0 <= i < variables.len() && #[trigger] variables[i] == (name, value) && forall|
                    j: int,
                |
                    0 <= j < i ==> (#[trigger] variables[j]).0 != name,
            None => forall|i: int| 0 <= i < variables.len() ==> (#[trigger] variables[i]).0 != name,
        }),
        value_or_empty(variables, name) == match value_of(variables, name) {
            Some(value) => value,
            None => ""@,
        },
    decreases variables.len(),
{
    reveal_strlit("");
    assert(""@ =~= Seq::<char>::empty());
    if variables.len() > 0 && variables[0].0 != name {
        let rest = variables.drop_first();
        lemma_first_variable(rest, name);
        assert forall|i: int| 0 < i < variables.len() implies #[trigger] variables[i] == rest[i
            - 1] by {}
        if let Some(value) = value_of(rest, name) {
            let i = choose|i: int|
                0 <= i < rest.len() && #[trigger] rest[i] == (name, value) && forall|j: int|
                    0 <= j < i ==> (#[trigger] rest[j]).0 != name;
            assert(variables[i + 1] == (name, value));
        }
    } else if variables.len() > 0 {
        assert(variables[0] == (name, variables[0].1));
    }
}

} // verus!
