use rose_data_core::item_ref::{decode_item_base1000, ItemType};
use rose_data_core::product::decode_product_material_item;

#[test]
fn decode_product_material_base1000_reference() {
    let item = decode_product_material_item(12041, 0, 0).unwrap();
    assert_eq!(item.item_type, ItemType::Material);
    assert_eq!(item.item_number, 41);
}

#[test]
fn decode_product_material_zero_returns_none() {
    assert!(decode_product_material_item(0, 0, 0).is_none());
}

#[test]
fn decode_product_material_class_code_falls_back_to_material_item_type() {
    let item = decode_product_material_item(421, 0, 0).unwrap();
    assert_eq!(item.item_type, ItemType::Material);
    assert_eq!(item.item_number, 421);
}

#[test]
fn decode_product_material_negative_and_unknown_types() {
    assert!(decode_product_material_item(-5, 0, 0).is_none());
    assert!(decode_product_material_item(99001, 0, 0).is_none());
    let weapon = decode_product_material_item(8001, 1, 2).unwrap();
    assert_eq!(weapon.item_type, ItemType::Weapon);
    assert_eq!(weapon.item_number, 1);
}

#[test]
fn base1000_codes_split_type_and_number() {
    let r = decode_item_base1000(3007).unwrap();
    assert_eq!(r.item_type, ItemType::Body);
    assert_eq!(r.item_number, 7);
    assert!(decode_item_base1000(3000).is_none());
    assert!(decode_item_base1000(15001).is_none());
}
