use hid_descriptor::{
    DescriptorBuilder, GlobalItem, GlobalState, GlobalTag, Item, ItemIter, LocalItem, LocalTag,
    LongItem, MainItem, MainTag, RawItem, SemanticError, ShortItem, ItemType, Usage,
};

fn apply_descriptor(builder: &mut DescriptorBuilder, bytes: &[u8]) {
    let mut items = ItemIter::new(bytes);
    while let Some(raw) = items.next() {
        builder.apply(Item::from(raw.unwrap())).unwrap();
    }
}

fn try_descriptor(builder: &mut DescriptorBuilder, bytes: &[u8]) -> Result<(), SemanticError> {
    let mut items = ItemIter::new(bytes);
    while let Some(raw) = items.next() {
        builder.apply(Item::from(raw.unwrap()))?;
    }
    Ok(())
}

#[test]
fn signed_values_use_little_endian_and_sign_extension() {
    let mut builder = DescriptorBuilder::new();
    // Logical Minimum (-256), encoded as a two-byte global item.
    apply_descriptor(&mut builder, &[0x16, 0x00, 0xFF]);
    assert_eq!(builder.global().logical_minimum, Some(-256));
}

#[test]
fn local_usages_reset_after_main_item() {
    let mut builder = DescriptorBuilder::new();
    // Usage Page (Button), Usage (1), then Input.
    apply_descriptor(&mut builder, &[0x05, 0x09, 0x09, 0x01, 0x81, 0x02]);
    assert!(builder.local().usages.is_empty());
    assert_eq!(builder.global().usage_page, Some(0x09));
}

#[test]
fn push_and_pop_restore_global_state() {
    let mut builder = DescriptorBuilder::new();
    // Page 1, Push, Page 9, Pop.
    apply_descriptor(&mut builder, &[0x05, 0x01, 0xA4, 0x05, 0x09, 0xB4]);
    assert_eq!(builder.global().usage_page, Some(0x01));
}

#[test]
fn tag_number_is_decoded_in_its_type_context() {
    let mut items = ItemIter::new(&[0x81, 0, 0x85, 1, 0x89, 2]);
    let mut tags = Vec::new();
    while let Some(raw) = items.next() {
        tags.push(Item::from(raw.unwrap()));
    }
    assert!(matches!(tags[0], Item::Main(_)));
    assert!(matches!(tags[1], Item::Global(_)));
    assert!(matches!(tags[2], Item::Local(_)));
}

#[test]
fn raw_items_retain_borrowed_payloads() {
    let bytes = [0x05, 0x01];
    let RawItem::Short(item) = ItemIter::new(&bytes).next().unwrap().unwrap() else {
        panic!("expected short item");
    };
    assert_eq!(item.data.as_ptr(), bytes[1..].as_ptr());
}

#[test]
fn same_tag_number_decodes_per_type() {
    // Tag 8 is Input for main items, Report ID for global items and String
    // Minimum for local items.
    let mut items = ItemIter::new(&[0x81, 0, 0x85, 1, 0x89, 2]);
    let main = Item::from(items.next().unwrap().unwrap());
    let global = Item::from(items.next().unwrap().unwrap());
    let local = Item::from(items.next().unwrap().unwrap());
    assert_eq!(main, Item::Main(MainItem { tag: MainTag::Input, data: &[0] }));
    assert_eq!(global, Item::Global(GlobalItem { tag: GlobalTag::ReportId, data: &[1] }));
    assert_eq!(local, Item::Local(LocalItem { tag: LocalTag::StringMinimum, data: &[2] }));
}

#[test]
fn unassigned_tags_stay_unknown() {
    assert_eq!(MainTag::from(0x7), MainTag::Unknown(0x7));
    assert_eq!(MainTag::from(0xC), MainTag::EndCollection);
    assert_eq!(GlobalTag::from(0xC), GlobalTag::Unknown(0xC));
    assert_eq!(GlobalTag::from(0xB), GlobalTag::Pop);
    assert_eq!(LocalTag::from(0x6), LocalTag::Unknown(0x6));
    assert_eq!(LocalTag::from(0x7), LocalTag::StringIndex);
    assert_eq!(LocalTag::from(0xA), LocalTag::Delimiter);
}

#[test]
fn reserved_and_long_items_pass_through() {
    let short = ShortItem { prefix: 0xFC, item_type: ItemType::Reserved, tag: 15, data: &[] };
    assert_eq!(Item::from(RawItem::Short(short)), Item::Reserved(short));
    let long = LongItem { tag: 3, data: &[1, 2] };
    assert_eq!(Item::from(RawItem::Long(long)), Item::Long(long));
}

#[test]
fn push_pop_restores_across_several_items() {
    let mut builder = DescriptorBuilder::new();
    // Page 1, Logical Min 0, Push, Page 9, Logical Min -1, Report Size 8,
    // Usage 3, Input, Pop.
    apply_descriptor(
        &mut builder,
        &[0x05, 0x01, 0x15, 0x00, 0xA4, 0x05, 0x09, 0x15, 0xFF, 0x75, 0x08, 0x09, 0x03, 0x81, 0x02, 0xB4],
    );
    let mut expected = GlobalState::default();
    expected.usage_page = Some(1);
    expected.logical_minimum = Some(0);
    assert_eq!(*builder.global(), expected);
}

#[test]
fn nested_push_pop() {
    let mut builder = DescriptorBuilder::new();
    // Page 1, Push, Page 2, Push, Page 3, Pop, Pop.
    apply_descriptor(&mut builder, &[0x05, 0x01, 0xA4, 0x05, 0x02, 0xA4, 0x05, 0x03, 0xB4]);
    assert_eq!(builder.global().usage_page, Some(2));
    apply_descriptor(&mut builder, &[0xB4]);
    assert_eq!(builder.global().usage_page, Some(1));
}

#[test]
fn pop_without_push_is_refused_and_changes_nothing() {
    let mut builder = DescriptorBuilder::new();
    apply_descriptor(&mut builder, &[0x05, 0x01]);
    assert_eq!(try_descriptor(&mut builder, &[0xB4]), Err(SemanticError::GlobalStackUnderflow));
    assert_eq!(builder.global().usage_page, Some(1));
}

#[test]
fn report_id_must_be_between_one_and_255() {
    let mut builder = DescriptorBuilder::new();
    assert_eq!(try_descriptor(&mut builder, &[0x85, 0x00]), Err(SemanticError::InvalidReportId));
    assert_eq!(builder.global().report_id, None);
    assert_eq!(
        try_descriptor(&mut builder, &[0x86, 0x00, 0x01]),
        Err(SemanticError::InvalidReportId)
    );
    assert_eq!(builder.global().report_id, None);
    apply_descriptor(&mut builder, &[0x85, 0xFF]);
    assert_eq!(builder.global().report_id, Some(255));
    apply_descriptor(&mut builder, &[0x86, 0x01, 0x00]);
    assert_eq!(builder.global().report_id, Some(1));
}

#[test]
fn maximum_is_unsigned_unless_minimum_is_negative() {
    let mut builder = DescriptorBuilder::new();
    // Logical Maximum 255 with no minimum: read unsigned.
    apply_descriptor(&mut builder, &[0x25, 0xFF]);
    assert_eq!(builder.global().logical_maximum, Some(255));
    // Logical Minimum -127, then Logical Maximum 0xFF is -1.
    apply_descriptor(&mut builder, &[0x15, 0x81, 0x25, 0xFF]);
    assert_eq!(builder.global().logical_minimum, Some(-127));
    assert_eq!(builder.global().logical_maximum, Some(-1));
    // Physical: minimum 0, maximum 0xFFFF is 65535.
    apply_descriptor(&mut builder, &[0x35, 0x00, 0x46, 0xFF, 0xFF]);
    assert_eq!(builder.global().physical_minimum, Some(0));
    assert_eq!(builder.global().physical_maximum, Some(65535));
    // A four-byte unsigned maximum with its top bit set keeps its bits.
    apply_descriptor(&mut builder, &[0x47, 0xFF, 0xFF, 0xFF, 0xFF]);
    assert_eq!(builder.global().physical_maximum, Some(-1));
}

#[test]
fn other_global_values() {
    let mut builder = DescriptorBuilder::new();
    // Unit Exponent -2, Unit 0x1001, Report Size 16, Report Count 0x12345678,
    // Physical Minimum -32768 (two bytes), Usage Page 0xFF00.
    apply_descriptor(
        &mut builder,
        &[
            0x55, 0xFE, 0x66, 0x01, 0x10, 0x75, 0x10, 0x97, 0x78, 0x56, 0x34, 0x12, 0x36, 0x00,
            0x80, 0x06, 0x00, 0xFF,
        ],
    );
    let g = builder.global();
    assert_eq!(g.unit_exponent, Some(-2));
    assert_eq!(g.unit, Some(0x1001));
    assert_eq!(g.report_size, Some(16));
    assert_eq!(g.report_count, Some(0x1234_5678));
    assert_eq!(g.physical_minimum, Some(-32768));
    assert_eq!(g.usage_page, Some(0xFF00));
}

#[test]
fn empty_payloads_read_as_zero() {
    let mut builder = DescriptorBuilder::new();
    // Logical Minimum with no payload, Usage Page with no payload.
    apply_descriptor(&mut builder, &[0x14, 0x04]);
    assert_eq!(builder.global().logical_minimum, Some(0));
    assert_eq!(builder.global().usage_page, Some(0));
}

#[test]
fn local_usages_take_the_current_page() {
    let mut builder = DescriptorBuilder::new();
    // Usage 5 with no page, Usage Page 9, Usage 1, Usage Minimum 1, Usage Maximum 16.
    apply_descriptor(&mut builder, &[0x09, 0x05, 0x05, 0x09, 0x09, 0x01, 0x19, 0x01, 0x29, 0x10]);
    let local = builder.local();
    assert_eq!(local.usages, vec![Usage { page: 0, id: 5 }, Usage { page: 9, id: 1 }]);
    assert_eq!(local.usage_minimum, Some(Usage { page: 9, id: 1 }));
    assert_eq!(local.usage_maximum, Some(Usage { page: 9, id: 16 }));
}

#[test]
fn main_item_clears_local_and_keeps_global() {
    let mut builder = DescriptorBuilder::new();
    // Usage Page 1, Usage Minimum 1, Usage Maximum 2, Usage 3, then an unknown main tag 0.
    apply_descriptor(&mut builder, &[0x05, 0x01, 0x19, 0x01, 0x29, 0x02, 0x09, 0x03, 0x00]);
    assert!(builder.local().usages.is_empty());
    assert_eq!(builder.local().usage_minimum, None);
    assert_eq!(builder.local().usage_maximum, None);
    assert_eq!(builder.global().usage_page, Some(1));
}

#[test]
fn uninterpreted_items_change_nothing() {
    let mut builder = DescriptorBuilder::new();
    apply_descriptor(&mut builder, &[0x05, 0x01, 0x09, 0x02]);
    let before_global = *builder.global();
    let before_local = builder.local().clone();
    // Unknown global tag 12, Designator Index, reserved item, long item.
    apply_descriptor(&mut builder, &[0xC5, 0x07, 0x39, 0x01, 0xFC, 0xFE, 0x01, 0x20, 0x55]);
    assert_eq!(*builder.global(), before_global);
    assert_eq!(*builder.local(), before_local);
}

#[test]
fn global_items_leave_local_state_alone() {
    let mut builder = DescriptorBuilder::new();
    apply_descriptor(&mut builder, &[0x09, 0x02, 0x05, 0x07, 0x75, 0x08]);
    assert_eq!(builder.local().usages, vec![Usage { page: 0, id: 2 }]);
}

#[test]
fn new_builder_is_empty() {
    let builder = DescriptorBuilder::new();
    assert_eq!(*builder.global(), GlobalState::default());
    assert!(builder.local().usages.is_empty());
    assert_eq!(builder.local().usage_minimum, None);
    assert_eq!(builder.local().usage_maximum, None);
}

#[test]
fn pop_undoes_a_push_with_nested_push_pop_inside() {
    let mut builder = DescriptorBuilder::new();
    // Page 1, Report Size 8, Push, Page 2, Push, Report Size 4, Pop, Page 3, Pop.
    apply_descriptor(
        &mut builder,
        &[0x05, 0x01, 0x75, 0x08, 0xA4, 0x05, 0x02, 0xA4, 0x75, 0x04, 0xB4, 0x05, 0x03, 0xB4],
    );
    assert_eq!(builder.global().usage_page, Some(1));
    assert_eq!(builder.global().report_size, Some(8));
    // The stack is back to empty: one more Pop is refused.
    assert_eq!(try_descriptor(&mut builder, &[0xB4]), Err(SemanticError::GlobalStackUnderflow));
}
