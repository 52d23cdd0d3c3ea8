//! Strings the loader composes: decimal numbers, model names, asset labels.

use vstd::prelude::*;

verus! {

/// The view of an optional string.
pub open spec fn opt_view(s: Option<String>) -> Option<Seq<char>> {
    match s {
        Some(s) => Some(s@),
        None => None,
    }
}

/// The view of an optional borrowed string.
pub open spec fn opt_ref_view(s: Option<&String>) -> Option<Seq<char>> {
    match s {
        Some(s) => Some(s@),
        None => None,
    }
}

/// The decimal digit for a number below ten.
pub open spec fn digit_char(d: nat) -> char
    recommends
        d < 10,
{
    if d == 0 {
        '0'
    } else if d == 1 {
        '1'
    } else if d == 2 {
        '2'
    } else if d == 3 {
        '3'
    } else if d == 4 {
        '4'
    } else if d == 5 {
        '5'
    } else if d == 6 {
        '6'
    } else if d == 7 {
        '7'
    } else if d == 8 {
        '8'
    } else {
        '9'
    }
}

/// A number in decimal, most significant digit first, without leading zeros.
pub open spec fn decimal(n: nat) -> Seq<char>
    decreases n,
{
    if n < 10 {
        seq![digit_char(n)]
    } else {
        decimal(n / 10).push(digit_char(n % 10))
    }
}

/// The one-character string for a digit.
fn digit_str(d: usize) -> (s: &'static str)
    requires
        d < 10,
    ensures
        s@ == seq![digit_char(d as nat)],
{
    proof {
        reveal_strlit("0");
        reveal_strlit("1");
        reveal_strlit("2");
        reveal_strlit("3");
        reveal_strlit("4");
        reveal_strlit("5");
        reveal_strlit("6");
        reveal_strlit("7");
        reveal_strlit("8");
        reveal_strlit("9");
    }
    let s = if d == 0 {
        "0"
    } else if d == 1 {
        "1"
    } else if d == 2 {
        "2"
    } else if d == 3 {
        "3"
    } else if d == 4 {
        "4"
    } else if d == 5 {
        "5"
    } else if d == 6 {
        "6"
    } else if d == 7 {
        "7"
    } else if d == 8 {
        "8"
    } else {
        "9"
    };
    assert(s@ =~= seq![digit_char(d as nat)]);
    s
}

/// Writes a number in decimal.
pub fn decimal_string(n: usize) -> (s: String)
    ensures
        s@ == decimal(n as nat),
    decreases n,
{
    if n < 10 {
        String::from_str(digit_str(n))
    } else {
        let mut s = decimal_string(n / 10);
        s.append(digit_str(n % 10));
        assert(s@ =~= decimal(n as nat));
        s
    }
}

/// The name given to a model that the scene graph left unnamed.
pub open spec fn default_model_name(index: nat) -> Seq<char> {
    seq!['m', 'o', 'd', 'e', 'l', '-'] + decimal(index)
}

/// The name of the model at `index`: the one the scene graph assigned, or
/// `model-` followed by the index.
pub open spec fn resolved_name(names: Seq<Option<Seq<char>>>, index: nat) -> Seq<char> {
    if index < names.len() && names[index as int] is Some {
        names[index as int]->0
    } else {
        default_model_name(index)
    }
}

/// `model-` followed by the index in decimal.
pub fn synthesized_model_name(index: usize) -> (name: String)
    ensures
        name@ == default_model_name(index as nat),
{
    proof {
        reveal_strlit("model-");
    }
    let mut name = String::from_str("model-");
    assert(name@ =~= seq!['m', 'o', 'd', 'e', 'l', '-']);
    let digits = decimal_string(index);
    name.append(digits.as_str());
    name
}

/// The label under which the model at `index` of a file is addressed by
/// position: `model` followed by the index.
pub open spec fn positional_label(index: nat) -> Seq<char> {
    seq!['m', 'o', 'd', 'e', 'l'] + decimal(index)
}

/// `model` followed by the index in decimal.
pub fn model_label(index: usize) -> (label: String)
    ensures
        label@ == positional_label(index as nat),
{
    proof {
        reveal_strlit("model");
    }
    let mut label = String::from_str("model");
    assert(label@ =~= seq!['m', 'o', 'd', 'e', 'l']);
    let digits = decimal_string(index);
    label.append(digits.as_str());
    label
}

/// What a model brings with it, each addressed by the model's name and a
/// suffix.
#[derive(Clone, Copy, Debug, PartialEq, Eq, Structural)]
pub enum ModelPart {
    /// The mesh: `@mesh`.
    Mesh,
    /// The material: `@material`.
    Material,
    /// The model itself: `@model`.
    Model,
}

/// The suffix of a part.
pub open spec fn part_suffix(part: ModelPart) -> Seq<char> {
    match part {
        ModelPart::Mesh => seq!['@', 'm', 'e', 's', 'h'],
        ModelPart::Material => seq!['@', 'm', 'a', 't', 'e', 'r', 'i', 'a', 'l'],
        ModelPart::Model => seq!['@', 'm', 'o', 'd', 'e', 'l'],
    }
}

/// The label of a part of the model with the given name.
pub fn part_label(name: &String, part: ModelPart) -> (label: String)
    ensures
        label@ == name@ + part_suffix(part),
{
    proof {
        reveal_strlit("@mesh");
        reveal_strlit("@material");
        reveal_strlit("@model");
    }
    let suffix = match part {
        ModelPart::Mesh => "@mesh",
        ModelPart::Material => "@material",
        ModelPart::Model => "@model",
    };
    assert(suffix@ =~= part_suffix(part));
    let mut label = name.clone();
    label.append(suffix);
    label
}

} // verus!
