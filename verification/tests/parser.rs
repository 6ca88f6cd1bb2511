use hid_descriptor::{ItemIter, ItemType, LongItem, ParseError, RawItem, ShortItem};

#[test]
fn size_code_three_means_four_bytes() {
    let bytes = [0x07, 1, 2, 3, 4];
    let RawItem::Short(item) = ItemIter::new(&bytes).next().unwrap().unwrap() else {
        panic!("expected a short item");
    };

    assert_eq!(item.data, &[1, 2, 3, 4]);
}

#[test]
fn rejects_truncated_short_item() {
    let error = ItemIter::new(&[0x06, 1]).next().unwrap().unwrap_err();

    assert_eq!(
        error,
        ParseError::TruncatedShort {
            offset: 0,
            required: 2,
            remaining: 1
        }
    );
}

#[test]
fn rejects_truncated_long_items() {
    assert_eq!(
        ItemIter::new(&[0xFE]).next().unwrap().unwrap_err(),
        ParseError::TruncatedLongHeader { offset: 0 }
    );

    assert_eq!(
        ItemIter::new(&[0xFE, 2, 0x42, 0xAA])
            .next()
            .unwrap()
            .unwrap_err(),
        ParseError::TruncatedLong {
            offset: 0,
            declared: 2,
            remaining: 1
        }
    );
}

#[test]
fn parses_long_item_without_losing_sync() {
    let bytes = [0xFE, 2, 0x42, 0xAA, 0xBB, 0x05, 0x01];
    let mut items = ItemIter::new(&bytes);

    assert_eq!(
        items.next().unwrap().unwrap(),
        RawItem::Long(LongItem {
            tag: 0x42,
            data: &[0xAA, 0xBB],
        })
    );

    assert!(matches!(items.next().unwrap().unwrap(), RawItem::Short(_)));
    assert!(items.next().is_none());
}

#[test]
fn empty_descriptor_yields_nothing() {
    let mut items = ItemIter::new(&[]);
    assert!(items.next().is_none());
    assert!(items.next().is_none());
}

#[test]
fn short_item_fields_come_from_its_prefix() {
    // 0x26: tag 2, type Global, size code 2.
    let bytes = [0x26, 0xFF, 0x7F];
    let item = ItemIter::new(&bytes).next().unwrap().unwrap();
    assert_eq!(
        item,
        RawItem::Short(ShortItem {
            prefix: 0x26,
            item_type: ItemType::Global,
            tag: 2,
            data: &[0xFF, 0x7F],
        })
    );
}

#[test]
fn size_codes_select_zero_one_two_and_four_bytes() {
    let bytes = [0xC0, 0x81, 0x02, 0x06, 0x01, 0x02, 0x0B, 9, 8, 7, 6];
    let mut items = ItemIter::new(&bytes);
    let mut lens = Vec::new();
    while let Some(item) = items.next() {
        match item.unwrap() {
            RawItem::Short(s) => lens.push(s.data.len()),
            RawItem::Long(_) => panic!("expected short items only"),
        }
    }
    assert_eq!(lens, vec![0, 1, 2, 4]);
}

#[test]
fn reserved_type_bits_give_a_reserved_short_item() {
    // 0xFC: tag 15, type bits 11, size 0 (0xFE is the long prefix, not this).
    let item = ItemIter::new(&[0xFC]).next().unwrap().unwrap();
    let RawItem::Short(s) = item else {
        panic!("expected a short item");
    };
    assert_eq!(s.item_type, ItemType::Reserved);
    assert_eq!(s.tag, 15);
    assert!(s.data.is_empty());
}

#[test]
fn an_error_consumes_the_rest_of_the_descriptor() {
    // A valid item, then a short item that asks for four bytes with two left.
    let bytes = [0x05, 0x01, 0x07, 0xAA, 0xBB];
    let mut items = ItemIter::new(&bytes);
    assert!(items.next().unwrap().is_ok());
    assert_eq!(
        items.next().unwrap().unwrap_err(),
        ParseError::TruncatedShort {
            offset: 2,
            required: 4,
            remaining: 2
        }
    );
    assert!(items.next().is_none());
}

#[test]
fn long_item_with_empty_payload() {
    let bytes = [0xFE, 0, 0x10, 0x09, 0x01];
    let mut items = ItemIter::new(&bytes);
    assert_eq!(
        items.next().unwrap().unwrap(),
        RawItem::Long(LongItem {
            tag: 0x10,
            data: &[],
        })
    );
    assert_eq!(
        items.next().unwrap().unwrap(),
        RawItem::Short(ShortItem {
            prefix: 0x09,
            item_type: ItemType::Local,
            tag: 0,
            data: &[0x01],
        })
    );
    assert!(items.next().is_none());
}

#[test]
fn long_header_error_reports_the_item_offset() {
    let bytes = [0x05, 0x01, 0xFE, 0x03];
    let mut items = ItemIter::new(&bytes);
    assert!(items.next().unwrap().is_ok());
    assert_eq!(
        items.next().unwrap().unwrap_err(),
        ParseError::TruncatedLongHeader { offset: 2 }
    );
    assert!(items.next().is_none());
}

#[test]
fn items_span_exactly_their_encoding() {
    // Re-encoding every item gives back the bytes that were read.
    let bytes = [0x05, 0x01, 0xFE, 1, 0x33, 0x44, 0x27, 1, 2, 3, 4, 0xC0];
    let mut items = ItemIter::new(&bytes);
    let mut encoded = Vec::new();
    while let Some(item) = items.next() {
        match item.unwrap() {
            RawItem::Short(s) => {
                encoded.push(s.prefix);
                encoded.extend_from_slice(s.data);
            }
            RawItem::Long(l) => {
                encoded.push(0xFE);
                encoded.push(l.data.len() as u8);
                encoded.push(l.tag);
                encoded.extend_from_slice(l.data);
            }
        }
    }
    assert_eq!(encoded, bytes.to_vec());
}
