use pajamax::config::Config;
use pajamax::error::Error;
use pajamax::hpack_encoder::Encoder;
use pajamax::http2::{
    build_ping_ack, build_response, build_rst_stream, build_settings, build_settings_ack,
    build_status, build_window_update, check_preface, push_be32, read_be32, Frame, FrameHeader,
    FrameKind, HeadFlags,
};
use pajamax::status::{Code, Status};

#[test]
fn frame_kinds_by_their_byte() {
    assert_eq!(FrameKind::parse(0), FrameKind::Data);
    assert_eq!(FrameKind::parse(1), FrameKind::Headers);
    assert_eq!(FrameKind::parse(2), FrameKind::Priority);
    assert_eq!(FrameKind::parse(3), FrameKind::Reset);
    assert_eq!(FrameKind::parse(4), FrameKind::Settings);
    assert_eq!(FrameKind::parse(5), FrameKind::PushPromise);
    assert_eq!(FrameKind::parse(6), FrameKind::Ping);
    assert_eq!(FrameKind::parse(7), FrameKind::GoAway);
    assert_eq!(FrameKind::parse(8), FrameKind::WindowUpdate);
    assert_eq!(FrameKind::parse(9), FrameKind::Continuation);
    assert_eq!(FrameKind::parse(10), FrameKind::Unknown);
    assert_eq!(FrameKind::parse(255), FrameKind::Unknown);
}

#[test]
fn flags_are_single_bits() {
    let none = HeadFlags::from(0);
    assert!(!none.is_end_stream() && !none.is_ack() && !none.is_ping_ack());
    assert!(!none.is_end_headers() && !none.is_padded() && !none.is_priority());
    assert!(HeadFlags::from(0x01).is_end_stream());
    assert!(HeadFlags::from(0x01).is_ack());
    assert!(HeadFlags::from(0x01).is_ping_ack());
    assert!(HeadFlags::from(0x04).is_end_headers());
    assert!(HeadFlags::from(0x08).is_padded());
    assert!(HeadFlags::from(0x20).is_priority());
    assert!(!HeadFlags::from(0xfe).is_end_stream());
    assert!(!HeadFlags::from(0xf7).is_padded());
}

#[test]
fn four_bytes_and_their_number() {
    assert_eq!(read_be32(0x12, 0x34, 0x56, 0x78), 0x1234_5678);
    let mut bytes = Vec::new();
    push_be32(0x1234_5678, &mut bytes);
    assert_eq!(bytes, vec![0x12, 0x34, 0x56, 0x78]);
    assert_eq!(read_be32(0xff, 0xff, 0xff, 0xff), u32::MAX);
}

#[test]
fn frame_header_fields() {
    let head = FrameHeader::parse(&[0x01, 0x02, 0x03, 9, 0x04, 0xff, 0, 0, 5]).unwrap();
    assert_eq!(head.len, 0x010203);
    assert_eq!(head.kind, FrameKind::Continuation);
    assert_eq!(head.flags, HeadFlags(0x04));
    // the top bit is reserved
    assert_eq!(head.stream_id, 0x7f00_0005);
    assert!(FrameHeader::parse(&[0; 8]).is_none());
}

fn http2_text<T>(r: Result<T, Error>) -> &'static str {
    match r {
        Err(Error::InvalidHttp2(s)) => s,
        _ => panic!("not an HTTP/2 error"),
    }
}

#[test]
fn padding_is_taken_off() {
    let padded = HeadFlags(0x08);
    assert_eq!(
        Frame::strip_data_padding(padded, &[2, b'a', b'b', 0, 0]).unwrap(),
        b"ab"
    );
    assert_eq!(Frame::strip_data_padding(padded, &[0]).unwrap(), b"");
    assert_eq!(Frame::strip_data_padding(padded, &[1, 9]).unwrap(), b"");
    assert_eq!(
        Frame::strip_data_padding(HeadFlags(0), &[2, b'a']).unwrap(),
        &[2, b'a']
    );
    assert_eq!(http2_text(Frame::strip_data_padding(padded, &[])), "invalid padding");
    assert_eq!(http2_text(Frame::strip_data_padding(padded, &[2, 9])), "invalid padding");
}

#[test]
fn priority_is_taken_off_headers() {
    let both = HeadFlags(0x28);
    assert_eq!(
        Frame::strip_headers(both, &[1, 0, 0, 0, 0, 16, b'h', 0]).unwrap(),
        b"h"
    );
    assert_eq!(
        Frame::strip_headers(HeadFlags(0x20), &[0, 0, 0, 0, 16, b'h']).unwrap(),
        b"h"
    );
    assert_eq!(Frame::strip_headers(HeadFlags(0x04), b"h").unwrap(), b"h");
    assert_eq!(
        http2_text(Frame::strip_headers(HeadFlags(0x20), &[0, 0, 0, 0])),
        "HEADERS too short for priority"
    );
    assert_eq!(http2_text(Frame::strip_headers(both, &[9])), "invalid padding");
}

#[test]
fn control_frames_byte_by_byte() {
    let mut out = Vec::new();
    build_rst_stream(5, 7, &mut out);
    assert_eq!(out, vec![0, 0, 4, 3, 0, 0, 0, 0, 5, 0, 0, 0, 7]);

    let mut out = Vec::new();
    build_settings_ack(&mut out);
    assert_eq!(out, vec![0, 0, 0, 4, 1, 0, 0, 0, 0]);

    let mut out = Vec::new();
    build_ping_ack(b"12345678", &mut out);
    assert_eq!(&out[..9], &[0, 0, 8, 6, 1, 0, 0, 0, 0]);
    assert_eq!(&out[9..], b"12345678");

    let mut out = Vec::new();
    build_window_update(0x0102, 3, &mut out);
    assert_eq!(out, vec![0, 0, 4, 8, 0, 0, 0, 0, 3, 0, 0, 1, 2]);
}

#[test]
fn preface_and_settings() {
    assert!(check_preface(b"PRI * HTTP/2.0\r\n\r\nSM\r\n\r\n").is_ok());
    assert_eq!(
        http2_text(check_preface(b"PRI * HTTP/2.0\r\n\r\nSM\r\n\r")),
        "invalid preface"
    );
    assert_eq!(
        http2_text(check_preface(b"GET * HTTP/2.0\r\n\r\nSM\r\n\r\n")),
        "invalid preface"
    );
    let config = Config { max_concurrent_connections: 1, max_concurrent_streams: 100 };
    let mut out = Vec::new();
    build_settings(&config, &mut out);
    assert_eq!(out, vec![0, 0, 6, 4, 0, 0, 0, 0, 0, 0, 3, 0, 0, 0, 100]);
}

fn split_frames(mut bytes: &[u8]) -> Vec<(FrameHeader, Vec<u8>)> {
    let mut frames = Vec::new();
    while !bytes.is_empty() {
        let head = FrameHeader::parse(bytes).unwrap();
        frames.push((head, bytes[9..9 + head.len].to_vec()));
        bytes = &bytes[9 + head.len..];
    }
    frames
}

#[test]
fn a_reply_is_three_frames() {
    let mut encoder = Encoder::new();
    let mut out = Vec::new();
    build_response(3, b"hello", &mut encoder, &mut out);
    let frames = split_frames(&out);
    assert_eq!(frames.len(), 3);

    assert_eq!(frames[0].0.kind, FrameKind::Headers);
    assert_eq!(frames[0].0.flags, HeadFlags(0x04));
    assert_eq!(frames[0].0.stream_id, 3);
    let mut headers = Vec::new();
    let mut fresh = Encoder::new();
    fresh.encode_status_200(&mut headers);
    fresh.encode_content_type(&mut headers);
    fresh.encode_grpc_accept_encoding(&mut headers);
    assert_eq!(frames[0].1, headers);

    assert_eq!(frames[1].0.kind, FrameKind::Data);
    assert_eq!(frames[1].0.flags, HeadFlags(0));
    assert_eq!(frames[1].0.stream_id, 3);
    assert_eq!(frames[1].1, b"\x00\x00\x00\x00\x05hello");

    assert_eq!(frames[2].0.kind, FrameKind::Headers);
    assert_eq!(frames[2].0.flags, HeadFlags(0x05));
    assert_eq!(frames[2].0.stream_id, 3);
    let mut trailers = Vec::new();
    fresh.encode_grpc_status_zero(&mut trailers);
    assert_eq!(frames[2].1, trailers);
}

#[test]
fn the_second_reply_uses_indices() {
    let mut encoder = Encoder::new();
    let mut out = Vec::new();
    build_response(1, b"", &mut encoder, &mut out);
    out.clear();
    build_response(3, b"", &mut encoder, &mut out);
    let frames = split_frames(&out);
    assert_eq!(&frames[0].1[..2], &[0x88, 0x80 | 63]);
    assert_eq!(frames[2].1, vec![0x80 | 62]);
}

#[test]
fn a_status_is_one_frame() {
    let mut encoder = Encoder::new();
    let mut out = Vec::new();
    let status = Status { code: Code::NotFound, message: String::from("gone") };
    build_status(7, &status, &mut encoder, &mut out);
    let frames = split_frames(&out);
    assert_eq!(frames.len(), 1);
    assert_eq!(frames[0].0.kind, FrameKind::Headers);
    assert_eq!(frames[0].0.flags, HeadFlags(0x05));
    assert_eq!(frames[0].0.stream_id, 7);
    let mut headers = Vec::new();
    let mut fresh = Encoder::new();
    fresh.encode_status_200(&mut headers);
    fresh.encode_content_type(&mut headers);
    fresh.encode_grpc_status_nonzero(5, &mut headers);
    fresh.encode_grpc_message("gone", &mut headers);
    assert_eq!(frames[0].1, headers);
}

#[test]
fn status_code_numbers() {
    assert_eq!(Code::Okay.as_usize(), 0);
    assert_eq!(Code::Cancelled.as_usize(), 1);
    assert_eq!(Code::Unknown.as_usize(), 2);
    assert_eq!(Code::InvalidArgument.as_usize(), 3);
    assert_eq!(Code::DeadlineExceeded.as_usize(), 4);
    assert_eq!(Code::NotFound.as_usize(), 5);
    assert_eq!(Code::AlreadyExists.as_usize(), 6);
    assert_eq!(Code::PermissionDenied.as_usize(), 7);
    assert_eq!(Code::ResourceExhausted.as_usize(), 8);
    assert_eq!(Code::FailedPrecondition.as_usize(), 9);
    assert_eq!(Code::Aborted.as_usize(), 10);
    assert_eq!(Code::OutOfRange.as_usize(), 11);
    assert_eq!(Code::Unimplemented.as_usize(), 12);
    assert_eq!(Code::Internal.as_usize(), 13);
    assert_eq!(Code::Unavailable.as_usize(), 14);
    assert_eq!(Code::DataLoss.as_usize(), 15);
    assert_eq!(Code::Unauthenticated.as_usize(), 16);
    assert_eq!(Code::DispatchPending.as_usize(), 101);
}
