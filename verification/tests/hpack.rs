use pajamax::hpack_encoder::{encode_int, encode_int_one_byte, Encoder};

fn literal(lead: &[u8], name: &str, value: &str) -> Vec<u8> {
    let mut bytes = lead.to_vec();
    bytes.push(name.len() as u8);
    bytes.extend_from_slice(name.as_bytes());
    bytes.push(value.len() as u8);
    bytes.extend_from_slice(value.as_bytes());
    bytes
}

#[test]
fn status_200_is_a_static_index() {
    let mut encoder = Encoder::new();
    let mut dst = vec![7];
    encoder.encode_status_200(&mut dst);
    assert_eq!(dst, vec![7, 0x88]);
}

#[test]
fn content_type_is_spelt_out_once() {
    let mut encoder = Encoder::new();
    let mut dst = Vec::new();
    encoder.encode_content_type(&mut dst);
    assert_eq!(dst, literal(&[0x40], "content-type", "application/grpc"));

    let mut again = Vec::new();
    encoder.encode_content_type(&mut again);
    assert_eq!(again, vec![0x80 | 62]);
}

#[test]
fn grpc_status_zero_is_spelt_out_once() {
    let mut encoder = Encoder::new();
    let mut dst = Vec::new();
    encoder.encode_grpc_status_zero(&mut dst);
    assert_eq!(dst, literal(&[0x40], "grpc-status", "0"));

    let mut again = Vec::new();
    encoder.encode_grpc_status_zero(&mut again);
    assert_eq!(again, vec![0x80 | 62]);
}

#[test]
fn later_fields_push_earlier_ones_back() {
    let mut encoder = Encoder::new();
    let mut dst = Vec::new();
    encoder.encode_content_type(&mut dst);
    encoder.encode_grpc_status_zero(&mut dst);

    let mut again = Vec::new();
    encoder.encode_content_type(&mut again);
    encoder.encode_grpc_status_zero(&mut again);
    assert_eq!(again, vec![0x80 | 63, 0x80 | 62]);
}

#[test]
fn fields_in_the_other_order() {
    let mut encoder = Encoder::new();
    let mut dst = Vec::new();
    encoder.encode_grpc_status_zero(&mut dst);
    encoder.encode_content_type(&mut dst);

    let mut again = Vec::new();
    encoder.encode_content_type(&mut again);
    encoder.encode_grpc_status_zero(&mut again);
    assert_eq!(again, vec![0x80 | 62, 0x80 | 63]);
}

#[test]
fn nonzero_status_without_a_stored_name() {
    let mut encoder = Encoder::new();
    let mut dst = Vec::new();
    encoder.encode_grpc_status_nonzero(5, &mut dst);
    assert_eq!(dst, literal(&[0x00], "grpc-status", "5"));
}

#[test]
fn nonzero_status_with_a_stored_name() {
    let mut encoder = Encoder::new();
    let mut dst = Vec::new();
    encoder.encode_grpc_status_zero(&mut dst);

    let mut status = Vec::new();
    encoder.encode_grpc_status_nonzero(16, &mut status);
    // 62 in a prefix of four bits, then the value
    assert_eq!(status, vec![0x0f, 62 - 15, 2, b'1', b'6']);
}

#[test]
fn big_status_numbers_are_written_in_decimal() {
    let mut encoder = Encoder::new();
    let mut dst = Vec::new();
    encoder.encode_grpc_status_nonzero(101, &mut dst);
    assert_eq!(dst, literal(&[0x00], "grpc-status", "101"));

    let mut dst = Vec::new();
    encoder.encode_grpc_status_nonzero(17, &mut dst);
    assert_eq!(dst, literal(&[0x00], "grpc-status", "17"));

    let mut dst = Vec::new();
    encoder.encode_grpc_status_nonzero(0, &mut dst);
    assert_eq!(dst, literal(&[0x00], "grpc-status", "0"));
}

#[test]
fn grpc_message_is_a_plain_literal() {
    let mut encoder = Encoder::new();
    let mut dst = Vec::new();
    encoder.encode_grpc_message("key \u{e4} is not found", &mut dst);
    assert_eq!(dst, literal(&[0x00], "grpc-message", "key \u{e4} is not found"));
}

#[test]
fn accept_encoding_is_a_plain_literal() {
    let mut encoder = Encoder::new();
    let mut dst = Vec::new();
    encoder.encode_grpc_accept_encoding(&mut dst);
    assert_eq!(dst, literal(&[0x00], "grpc-accept-encoding", "gzip,deflate,zstd"));
}

#[test]
fn long_strings_have_their_length_in_several_bytes() {
    let mut encoder = Encoder::new();
    let long: String = vec!["x"; 1337 + 127].concat();
    let mut dst = Vec::new();
    encoder.encode_grpc_message(&long, &mut dst);
    let lead = literal(&[0x00], "grpc-message", "");
    let lead = &lead[..lead.len() - 1];
    assert_eq!(&dst[..lead.len()], lead);
    // 1337 behind a full prefix: 0xb9 0x0a
    assert_eq!(&dst[lead.len()..lead.len() + 3], &[0x7f, 0xb9, 0x0a]);
    assert_eq!(&dst[lead.len() + 3..], long.as_bytes());
}

#[test]
fn a_full_prefix_goes_on_with_a_zero_byte() {
    let mut encoder = Encoder::new();
    let text: String = vec!["y"; 127].concat();
    let mut dst = Vec::new();
    encoder.encode_grpc_message(&text, &mut dst);
    let at = 2 + "grpc-message".len();
    assert_eq!(&dst[at..at + 2], &[0x7f, 0x00]);
    assert_eq!(dst.len(), at + 2 + 127);

    let text: String = vec!["y"; 126].concat();
    let mut dst = Vec::new();
    encoder.encode_grpc_message(&text, &mut dst);
    assert_eq!(dst[at], 126);
    assert_eq!(dst.len(), at + 1 + 126);
}

#[test]
fn numbers_in_decimal() {
    assert_eq!(pajamax::decimal::decimal_string(0), "0");
    assert_eq!(pajamax::decimal::decimal_string(9), "9");
    assert_eq!(pajamax::decimal::decimal_string(10), "10");
    assert_eq!(pajamax::decimal::decimal_string(907), "907");
    assert_eq!(
        pajamax::decimal::decimal_string(usize::MAX),
        format!("{}", usize::MAX)
    );
}

#[test]
fn integers_in_their_prefixes() {
    let encoded = |value: usize, bits: usize, first: u8| {
        let mut dst = vec![];
        encode_int(value, bits, first, &mut dst);
        dst
    };
    assert_eq!(encoded(10, 5, 0), vec![0x0a]);
    assert_eq!(encoded(1337, 5, 0xe0), vec![0xff, 0x9a, 0x0a]);
    assert_eq!(encoded(42, 8, 0), vec![42]);
    assert_eq!(encoded(255, 8, 0), vec![255, 0]);
    assert_eq!(encoded(0, 1, 0x80), vec![0x80]);
    assert_eq!(encoded(1, 1, 0x80), vec![0x81, 0]);
    for bits in 1..9usize {
        let max: usize = (1 << bits) - 1;
        assert!(encode_int_one_byte(max - 1, bits) && !encode_int_one_byte(max, bits));
        assert_eq!(encoded(max - 1, bits, 0).len(), 1);
        assert_eq!(encoded(max, bits, 0).len(), 2);
        assert_eq!(encoded(max + 127, bits, 0).len(), 2);
        assert_eq!(encoded(max + 128, bits, 0).len(), 3);
        assert_eq!(encoded(usize::MAX, bits, 0).len(), 11);
    }
}
