//! How a material property is spread over the palette, which decides
//! whether one shared material serves a whole file.

use vstd::prelude::*;

verus! {

/// How the elements of a palette use a property such as emission or
/// transparency.
#[derive(Clone, Copy, Debug, PartialEq, Eq, Structural)]
pub enum MaterialProperty {
    /// No element uses the property.
    Unused,
    /// Every element that uses the property has the same value.
    Constant,
    /// Elements that use the property differ in value.
    VariesPerElement,
}

/// The class of a property, given its value for each element that uses it.
/// A value is the bit pattern of a number, and two values are the same if
/// their bits are.
pub open spec fn classified(values: Seq<Option<u32>>) -> MaterialProperty {
    if forall|i: int| 0 <= i < values.len() ==> (#[trigger] values[i]) is None {
        MaterialProperty::Unused
    } else if forall|i: int, j: int|
        0 <= i < values.len() && 0 <= j < values.len() && (#[trigger] values[i]) is Some && (
        #[trigger] values[j]) is Some ==> values[i] == values[j] {
        MaterialProperty::Constant
    } else {
        MaterialProperty::VariesPerElement
    }
}

/// Classifies a property by its value for each element of the palette.
pub fn classify(values: &Vec<Option<u32>>) -> (class: MaterialProperty)
    ensures
        class == classified(values@),
{
    let mut first: Option<u32> = None;
    let ghost mut first_at: int = 0;
    let mut i: usize = 0;
    while i < values.len()
        invariant
            i <= values.len(),
            first is None ==> forall|k: int| 0 <= k < i ==> (#[trigger] values@[k]) is None,
            first is Some ==> 0 <= first_at < i && values@[first_at] == first,
            forall|k: int| 0 <= k < i && (#[trigger] values@[k]) is Some ==> values@[k] == first,
        decreases values.len() - i,
    {
        match values[i] {
            Some(value) => {
                match first {
                    Some(seen) => {
                        if seen != value {
                            assert(values@[first_at] is Some && values@[i as int] is Some);
                            return MaterialProperty::VariesPerElement;
                        }
                    },
                    None => {
                        first = Some(value);
                        proof {
                            first_at = i as int;
                        }
                    },
                }
            },
            None => {},
        }
        i += 1;
    }
    match first {
        Some(_) => {
            assert(values@[first_at] is Some);
            MaterialProperty::Constant
        },
        None => MaterialProperty::Unused,
    }
}

} // verus!
