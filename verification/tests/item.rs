use hid_descriptor::{sort_hidraw_names, MainDataFlags};

#[test]
fn main_data_flags_read_their_bits() {
    let flags = MainDataFlags::from_bits(0b010);
    assert_eq!(flags.bits(), 0b010);
    assert!(!flags.is_constant());
    assert!(flags.is_variable());
    assert!(!flags.is_relative());
    assert!(flags.is_absolute());

    let flags = MainDataFlags::from_bits(0b101);
    assert!(flags.is_constant());
    assert!(!flags.is_variable());
    assert!(flags.is_relative());
    assert!(!flags.is_absolute());
}

#[test]
fn main_data_flags_keep_every_bit() {
    let flags = MainDataFlags::from_bits(0xFFFF_FFF8);
    assert_eq!(flags.bits(), 0xFFFF_FFF8);
    assert!(!flags.is_constant());
    assert!(!flags.is_variable());
    assert!(flags.is_absolute());
}

#[test]
fn hidraw_names_sort_by_their_bytes() {
    let names = vec![
        "hidraw10".to_string(),
        "hidraw2".to_string(),
        "hidraw1".to_string(),
        "hidraw".to_string(),
        "hidraw2".to_string(),
    ];
    let sorted = sort_hidraw_names(names.clone());
    let mut expected = names;
    expected.sort();
    assert_eq!(sorted, expected);
    assert_eq!(sorted, vec!["hidraw", "hidraw1", "hidraw10", "hidraw2", "hidraw2"]);
}

#[test]
fn sorting_no_names_gives_no_names() {
    assert!(sort_hidraw_names(Vec::new()).is_empty());
}
