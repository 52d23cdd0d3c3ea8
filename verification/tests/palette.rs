use vox_scene::palette::{classify, MaterialProperty};

#[test]
fn property_that_no_element_uses_is_unused() {
    assert_eq!(classify(&vec![]), MaterialProperty::Unused);
    assert_eq!(classify(&vec![None, None, None]), MaterialProperty::Unused);
}

#[test]
fn property_with_one_value_is_constant() {
    assert_eq!(classify(&vec![Some(5)]), MaterialProperty::Constant);
    assert_eq!(classify(&vec![None, Some(5), None, Some(5)]), MaterialProperty::Constant);
    let half = 0.5f32.to_bits();
    assert_eq!(classify(&vec![Some(half), None, Some(half)]), MaterialProperty::Constant);
}

#[test]
fn property_with_two_values_varies() {
    assert_eq!(classify(&vec![Some(5), Some(6)]), MaterialProperty::VariesPerElement);
    assert_eq!(classify(&vec![None, Some(5), None, Some(5), Some(0)]), MaterialProperty::VariesPerElement);
    let values = vec![Some(1.1f32.to_bits()), None, Some(1.3f32.to_bits())];
    assert_eq!(classify(&values), MaterialProperty::VariesPerElement);
}
