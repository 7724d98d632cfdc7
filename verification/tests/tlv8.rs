use amcrust::tlv8::{find, find_u16, find_u32, find_u8, parse, Writer};

#[test]
fn tlv8_roundtrip_scalars() {
    let buf = Writer::new().u8(0x01, 7).u16(0x02, 0x1234).u32(0x03, 0xdead_beef).build();
    let items = parse(&buf);
    assert_eq!(find_u8(&items, 0x01), Some(7));
    assert_eq!(find_u16(&items, 0x02), Some(0x1234));
    assert_eq!(find_u32(&items, 0x03), Some(0xdead_beef));
}

#[test]
fn fragments_long_values() {
    let long = vec![0xAB; 600];
    let buf = Writer::new().bytes(0x05, &long).build();
    // 600 bytes → fragments of 255 + 255 + 90, each with a 2-byte header.
    assert_eq!(buf.len(), 600 + 3 * 2);
    let items = parse(&buf);
    assert_eq!(items.len(), 1);
    assert_eq!(items[0].value, long);
}

#[test]
fn delimiter_separates_repeated_tags() {
    let buf = Writer::new().u8(0x01, 1).delimiter().u8(0x01, 2).build();
    let items = parse(&buf);
    let values: Vec<_> = items.iter().filter(|i| i.tag == 0x01).map(|i| i.value.clone()).collect();
    assert_eq!(values, vec![vec![1], vec![2]]);
}

#[test]
fn parses_nested_containers() {
    let inner = Writer::new().u16(0x03, 1280).u16(0x02, 720).build();
    let buf = Writer::new().bytes(0x01, &inner).build();
    let items = parse(&buf);
    let inner_items = parse(find(&items, 0x01).unwrap());
    assert_eq!(find_u16(&inner_items, 0x03), Some(1280));
    assert_eq!(find_u16(&inner_items, 0x02), Some(720));
}

#[test]
fn empty_value_is_preserved() {
    let buf = Writer::new().bytes(0x09, &[]).build();
    let items = parse(&buf);
    assert_eq!(items.len(), 1);
    assert!(items[0].value.is_empty());
}

#[test]
fn written_bytes_are_little_endian() {
    let buf = Writer::new().u16(0x02, 0x1234).u32(0x03, 0x0102_0304).delimiter().build();
    assert_eq!(buf, vec![2, 2, 0x34, 0x12, 3, 4, 4, 3, 2, 1, 0, 0]);
}

#[test]
fn building_starts_over() {
    let mut w = Writer::new();
    assert_eq!(w.u8(0x01, 1).build(), vec![1, 1, 1]);
    assert!(w.build().is_empty());
    assert!(Writer::default().build().is_empty());
}

#[test]
fn full_fragments_need_a_delimiter_to_stay_apart() {
    let full = vec![7u8; 255];
    let joined = Writer::new().bytes(0x05, &full).bytes(0x05, &[1]).build();
    let items = parse(&joined);
    assert_eq!(items.len(), 1);
    assert_eq!(items[0].value.len(), 256);
    let apart = Writer::new().bytes(0x05, &full).delimiter().bytes(0x05, &[1]).build();
    assert_eq!(parse(&apart).len(), 3);
}

#[test]
fn a_length_past_the_end_stops_there() {
    let items = parse(&[1, 5, 9, 9]);
    assert_eq!(items.len(), 1);
    assert_eq!(items[0].value, vec![9, 9]);
    assert!(parse(&[1]).is_empty());
}

#[test]
fn numbers_of_another_length_are_not_read() {
    let items = parse(&[1, 1, 9, 2, 0]);
    assert_eq!(find_u16(&items, 1), None);
    assert_eq!(find_u32(&items, 1), None);
    assert_eq!(find_u8(&items, 2), None);
    assert!(find(&items, 3).is_none());
}

#[test]
fn a_short_fragment_ends_its_value() {
    let mut data = vec![1, 255];
    data.extend_from_slice(&[0; 255]);
    data.extend_from_slice(&[1, 0]);
    data.extend_from_slice(&[1, 1, 7]);
    let items = parse(&data);
    assert_eq!(items.len(), 2);
    assert_eq!(items[0].value, vec![0; 255]);
    assert_eq!(items[1].value, vec![7]);
}
