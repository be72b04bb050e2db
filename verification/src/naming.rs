//! Names under which the parameters of functions and events are offered:
//! snake case, and a numbered name for a parameter that was declared without
//! one.

use vstd::prelude::*;
use vstd::string::*;
use crate::event::{Event, EventParam};
use crate::function::{Function, Param};
use crate::signature::{decimal, push_decimal};

verus! {

/// The snake case of a name, as `heck` gives it: a function of the name alone.
pub uninterp spec fn snake_case_of(name: Seq<char>) -> Seq<char>;

/// `heck::SnakeCase::to_snake_case` for `str`: the name in snake case.
#[verifier::external_body]
pub(crate) fn snake_case(name: &str) -> (r: String)
    ensures
        r@ == snake_case_of(name@),
{
    heck::SnakeCase::to_snake_case(name)
}

/// The name under which the `index`-th input of a function is offered: the
/// declared name in snake case, or `param` and the index where none was
/// declared.
pub open spec fn input_label_of(name: Seq<char>, index: nat) -> Seq<char> {
    if name.len() == 0 {
        "param"@ + decimal(index)
    } else {
        snake_case_of(name)
    }
}

/// The name under which the `index`-th parameter of an event is offered: the
/// declared name in snake case, or, where none was declared, `topic` and the
/// index for an indexed parameter and `param` and the index for another.
pub open spec fn field_label_of(name: Seq<char>, index: nat, indexed: bool) -> Seq<char> {
    if name.len() == 0 {
        if indexed {
            "topic"@ + decimal(index)
        } else {
            "param"@ + decimal(index)
        }
    } else {
        snake_case_of(name)
    }
}

/// The name under which the `index`-th input of a function is offered.
pub fn input_label(name: &str, index: usize) -> (label: String)
    ensures
        label@ == input_label_of(name@, index as nat),
{
    if name.is_empty() {
        let mut label = String::from_str("param");
        push_decimal(&mut label, index);
        label
    } else {
        snake_case(name)
    }
}

/// The name under which the `index`-th parameter of an event is offered.
pub fn field_label(name: &str, index: usize, indexed: bool) -> (label: String)
    ensures
        label@ == field_label_of(name@, index as nat, indexed),
{
    if name.is_empty() {
        let mut label = if indexed {
            String::from_str("topic")
        } else {
            String::from_str("param")
        };
        push_decimal(&mut label, index);
        label
    } else {
        snake_case(name)
    }
}

/// The names under which inputs are offered, in order.
pub fn input_names(params: &[Param]) -> (names: Vec<String>)
    ensures
        names@.len() == params@.len(),
        forall|i: int|
            0 <= i < params@.len() ==> (#[trigger] names@[i])@ == input_label_of(
                params@[i].name@,
                i as nat,
            ),
{
    let mut names: Vec<String> = Vec::new();
    let mut i: usize = 0;
    while i < params.len()
        invariant
            i <= params@.len(),
            names@.len() == i,
            forall|j: int|
                0 <= j < i ==> (#[trigger] names@[j])@ == input_label_of(
                    params@[j].name@,
                    j as nat,
                ),
        decreases params@.len() - i,
    {
        names.push(input_label(params[i].name.as_str(), i));
        i += 1;
    }
    names
}

/// The names under which the parameters of an event are offered, in order.
pub fn field_names(inputs: &[EventParam]) -> (names: Vec<String>)
    ensures
        names@.len() == inputs@.len(),
        forall|i: int|
            0 <= i < inputs@.len() ==> (#[trigger] names@[i])@ == field_label_of(
                inputs@[i].name@,
                i as nat,
                inputs@[i].indexed,
            ),
{
    let mut names: Vec<String> = Vec::new();
    let mut i: usize = 0;
    while i < inputs.len()
        invariant
            i <= inputs@.len(),
            names@.len() == i,
            forall|j: int|
                0 <= j < i ==> (#[trigger] names@[j])@ == field_label_of(
                    inputs@[j].name@,
                    j as nat,
                    inputs@[j].indexed,
                ),
        decreases inputs@.len() - i,
    {
        names.push(field_label(inputs[i].name.as_str(), i, inputs[i].indexed));
        i += 1;
    }
    names
}

impl Function {
    /// The names under which the inputs are offered, in order.
    pub fn input_names(&self) -> (names: Vec<String>)
        ensures
            names@.len() == self.inputs@.len(),
            forall|i: int|
                0 <= i < self.inputs@.len() ==> (#[trigger] names@[i])@ == input_label_of(
                    self.inputs@[i].name@,
                    i as nat,
                ),
    {
        input_names(self.inputs.as_slice())
    }
}

impl Event {
    /// The names under which the parameters are offered, in order.
    pub fn field_names(&self) -> (names: Vec<String>)
        ensures
            names@.len() == self.inputs@.len(),
            forall|i: int|
                0 <= i < self.inputs@.len() ==> (#[trigger] names@[i])@ == field_label_of(
                    self.inputs@[i].name@,
                    i as nat,
                    self.inputs@[i].indexed,
                ),
    {
        field_names(self.inputs.as_slice())
    }
}

} // verus!
