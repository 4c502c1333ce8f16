use np_array_msg::{CodecError, Grid, NpArrayD, NpArrayData, NpArrayDataType};

fn f32_grid(shape: [usize; 3], values: &[f32]) -> NpArrayData {
    NpArrayData::F32(Grid { shape, data: values.iter().map(|v| v.to_bits()).collect() })
}

fn u8_grid(shape: [usize; 3], values: &[u8]) -> NpArrayData {
    NpArrayData::U8(Grid { shape, data: values.to_vec() })
}

fn le(v: u32) -> [u8; 4] {
    v.to_le_bytes()
}

#[test]
fn test_msg() {
    let np_array = NpArrayD::new("motherfucker".to_owned(), f32_grid([1, 1, 3], &[1.0, 2.0, 3.0]));
    let np_array_1 = NpArrayD::new("motherfucker".to_owned(), f32_grid([1, 1, 3], &[1.0, 2.0, 4.0]));
    let np_array_msg = np_array.pack_msg().unwrap();
    let np_array_msg_parse = NpArrayD::try_from_msg(&np_array_msg).unwrap().1;
    let np_array_msg_1 = np_array_1.pack_msg().unwrap();
    let np_array_msg_parse_1 = NpArrayD::try_from_msg(&np_array_msg_1).unwrap().1;

    assert_eq!(np_array, np_array_msg_parse);
    assert_eq!(np_array_1, np_array_msg_parse_1);
    assert_ne!(np_array, np_array_msg_parse_1);
}

#[test]
fn round_trip_bytes_resets_time() {
    let mut m = NpArrayD::new("cam".to_owned(), u8_grid([2, 1, 2], &[1, 2, 3, 4]));
    m.time_id = 42;
    let bytes = m.pack_msg().unwrap();
    assert_eq!(bytes.len(), 4 + 17 + 128 + 4);
    let (rest, back) = NpArrayD::try_from_msg(&bytes).unwrap();
    assert!(rest.is_empty());
    assert_eq!(back.unique_name, "cam");
    assert_eq!(back.array_data, m.array_data);
    assert_eq!(back.time_id, 0);
}

#[test]
fn round_trip_floats_exact_bytes() {
    let m = NpArrayD::new("f".to_owned(), f32_grid([1, 2, 1], &[1.5, -2.0]));
    let bytes = m.pack_msg().unwrap();
    assert_eq!(&bytes[0..4], b"Ihg\x1c");
    assert_eq!(&bytes[4..8], &le(8));
    assert_eq!(bytes[20], 1);
    assert_eq!(&bytes[149..153], &1.5f32.to_le_bytes());
    assert_eq!(&bytes[153..157], &(-2.0f32).to_le_bytes());
    let back = NpArrayD::try_from_msg(&bytes).unwrap().1;
    assert_eq!(back, m);
}

#[test]
fn name_padding_and_trim() {
    for l in [0usize, 1, 5, 64, 127] {
        let name: String = (0..l).map(|i| (b'a' + (i % 26) as u8) as char).collect();
        let m = NpArrayD::new(name.clone(), u8_grid([1, 1, 2], &[7, 8]));
        let bytes = m.pack_msg().unwrap();
        assert_eq!(&bytes[21..21 + l], name.as_bytes());
        assert!(bytes[21 + l..149].iter().all(|b| *b == b' '));
        let back = NpArrayD::try_from_msg(&bytes).unwrap().1;
        assert_eq!(back.unique_name, name);
    }
}

#[test]
fn name_full_width() {
    let name = "x".repeat(128);
    let m = NpArrayD::new(name.clone(), u8_grid([1, 1, 2], &[7, 8]));
    let back = NpArrayD::try_from_msg(&m.pack_msg().unwrap()).unwrap().1;
    assert_eq!(back.unique_name, name);
}

#[test]
fn name_trailing_whitespace_is_trimmed() {
    let m = NpArrayD::new("ab \t".to_owned(), u8_grid([1, 1, 2], &[7, 8]));
    let back = NpArrayD::try_from_msg(&m.pack_msg().unwrap()).unwrap().1;
    assert_eq!(back.unique_name, "ab");
}

#[test]
fn unit_shape_elides_payload() {
    let m = NpArrayD::new("one".to_owned(), f32_grid([1, 1, 1], &[9.0]));
    let bytes = m.pack_msg().unwrap();
    assert_eq!(bytes.len(), 149);
    assert_eq!(&bytes[4..8], &[0, 0, 0, 0]);
    let back = NpArrayD::try_from_msg(&bytes).unwrap().1;
    assert_eq!(back.array_data, NpArrayData::F32(Grid { shape: [0, 0, 0], data: vec![] }));

    let m = NpArrayD::new("one".to_owned(), u8_grid([1, 1, 1], &[200]));
    let back = NpArrayD::try_from_msg(&m.pack_msg().unwrap()).unwrap().1;
    assert_eq!(back.array_data, NpArrayData::U8(Grid { shape: [0, 0, 0], data: vec![] }));
}

fn message(len: u32, dims: [u32; 3], tag: u8, name: &[u8], payload: &[u8]) -> Vec<u8> {
    let mut b = Vec::new();
    b.extend_from_slice(&le(len));
    for d in dims {
        b.extend_from_slice(&le(d));
    }
    b.push(tag);
    let mut field = name.to_vec();
    field.resize(128, b' ');
    b.extend_from_slice(&field);
    b.extend_from_slice(payload);
    b
}

#[test]
fn type_tag_selects_element_type() {
    let payload = [1u8, 0, 0, 0];
    let m0 = NpArrayD::try_from_msg(&message(4, [1, 4, 1], 0, b"t", &payload)).unwrap().1;
    assert_eq!(m0.array_data, u8_grid([4, 1, 1], &payload));
    assert_eq!(m0.array_data.data_type(), NpArrayDataType::U8);
    for tag in [1u8, 255] {
        let m = NpArrayD::try_from_msg(&message(4, [1, 1, 1], tag, b"t", &payload)).unwrap().1;
        assert_eq!(m.array_data, NpArrayData::F32(Grid { shape: [1, 1, 1], data: vec![1] }));
    }
}

#[test]
fn magic_is_optional() {
    let m = NpArrayD::new("mag".to_owned(), u8_grid([1, 3, 1], &[4, 5, 6]));
    let with = m.pack_msg().unwrap();
    let without = &with[4..];
    let a = NpArrayD::try_from_msg(&with).unwrap();
    let b = NpArrayD::try_from_msg(without).unwrap();
    assert_eq!(a.1, b.1);
    assert!(a.0.is_empty() && b.0.is_empty());
}

#[test]
fn dimension_fields_are_permuted() {
    let data: Vec<u8> = (0..24).collect();
    let m = NpArrayD::new("dims".to_owned(), u8_grid([2, 3, 4], &data));
    let bytes = m.pack_msg().unwrap();
    assert_eq!(&bytes[8..12], &le(3));
    assert_eq!(&bytes[12..16], &le(2));
    assert_eq!(&bytes[16..20], &le(4));
    let back = NpArrayD::try_from_msg(&bytes).unwrap().1;
    assert_eq!(back.array_data.shape(), [2, 3, 4]);
    assert_eq!(back, m);
}

#[test]
fn every_prefix_is_incomplete() {
    let m = NpArrayD::new("stream".to_owned(), f32_grid([1, 2, 2], &[1.0, 2.0, 3.0, 4.0]));
    let bytes = m.pack_msg().unwrap();
    for k in 0..bytes.len() {
        assert_eq!(NpArrayD::try_from_msg(&bytes[..k]).err(), Some(CodecError::IncompleteInput));
    }
}

#[test]
fn two_messages_back_to_back() {
    let m1 = NpArrayD::new("first".to_owned(), u8_grid([1, 1, 2], &[1, 2]));
    let m2 = NpArrayD::new("second".to_owned(), f32_grid([2, 1, 1], &[0.5, 0.25]));
    let mut bytes = m1.pack_msg().unwrap();
    let first_len = bytes.len();
    bytes.extend(m2.pack_msg().unwrap());
    let (rest, a) = NpArrayD::try_from_msg(&bytes).unwrap();
    assert_eq!(a, m1);
    assert_eq!(rest, &bytes[first_len..]);
    let (rest, b) = NpArrayD::try_from_msg(rest).unwrap();
    assert_eq!(b, m2);
    assert!(rest.is_empty());
}

#[test]
fn non_ascii_name_is_rejected() {
    let m = NpArrayD::new("caf\u{e9}".to_owned(), u8_grid([1, 1, 2], &[1, 2]));
    assert_eq!(m.pack_msg(), Err(CodecError::InvalidEncoding));
}

#[test]
fn malformed_fields() {
    let mut bad_name = message(2, [1, 2, 1], 0, b"ok", &[1, 2]);
    bad_name[4 + 16 + 1] = 0xc3;
    assert_eq!(NpArrayD::try_from_msg(&bad_name).err(), Some(CodecError::MalformedField));
    let odd = message(6, [1, 1, 1], 1, b"f", &[0; 6]);
    assert_eq!(NpArrayD::try_from_msg(&odd).err(), Some(CodecError::MalformedField));
    let negative = message(0xffff_fff0, [1, 1, 1], 0, b"n", &[]);
    assert_eq!(NpArrayD::try_from_msg(&negative).err(), Some(CodecError::MalformedField));
    let mismatch = message(3, [1, 2, 1], 0, b"m", &[1, 2, 3]);
    assert_eq!(NpArrayD::try_from_msg(&mismatch).err(), Some(CodecError::MalformedField));
}

#[test]
fn header_without_payload_is_incomplete() {
    let short = message(4, [2, 2, 1], 0, b"p", &[1, 2]);
    assert_eq!(NpArrayD::try_from_msg(&short).err(), Some(CodecError::IncompleteInput));
}

#[test]
fn empty_payload_ignores_dimensions() {
    let bytes = message(0, [5, 6, 7], 0, b"e", &[9, 9]);
    let m = NpArrayD::try_from_msg(&bytes).unwrap();
    assert_eq!(m.1.array_data, u8_grid([0, 0, 0], &[]));
    assert_eq!(m.0, &[9, 9]);
}

#[test]
fn array_accessors() {
    let a = f32_grid([1, 2, 3], &[0.0; 6]);
    assert_eq!(a.len(), 6);
    assert_eq!(a.shape(), [1, 2, 3]);
    assert!(!a.shape_is_1());
    assert!(u8_grid([1, 1, 1], &[3]).shape_is_1());
    assert_eq!(a.data_type().data_size(), 4);
    assert_eq!(NpArrayDataType::U8.data_size(), 1);
}

#[test]
fn word_bytes() {
    let b = np_array_msg::words_to_le(&vec![0x0403_0201, 0xdead_beef]);
    assert_eq!(b, vec![1, 2, 3, 4, 0xef, 0xbe, 0xad, 0xde]);
    assert_eq!(np_array_msg::words_from_le(&b[..7]), vec![0x0403_0201]);
}

#[test]
fn name_field_bytes() {
    let f = np_array_msg::encode_name("hi").unwrap();
    assert_eq!(f.len(), 128);
    assert_eq!(&f[..3], b"hi ");
    assert_eq!(np_array_msg::encode_name("\u{3b1}"), None);
}
