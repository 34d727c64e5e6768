use pajamax::error::Error;
use pajamax::grpc_message::{decode_grpc_message, take_decoded, GrpcEncoding};
use std::io::Write;

fn framed(flag: u8, body: &[u8]) -> Vec<u8> {
    let mut data = vec![flag, 0, 0, 0, 0];
    data.extend_from_slice(body);
    data
}

fn http2_text(r: Result<bytes::Bytes, Error>) -> &'static str {
    match r {
        Err(Error::InvalidHttp2(s)) => s,
        _ => panic!("not an HTTP/2 error"),
    }
}

#[test]
fn plain_message() {
    let r = decode_grpc_message(framed(0, b"hello"), GrpcEncoding::Identity).unwrap();
    assert_eq!(&r[..], b"hello");
    let r = decode_grpc_message(framed(0, b"hello"), GrpcEncoding::Gzip).unwrap();
    assert_eq!(&r[..], b"hello");
    let r = decode_grpc_message(framed(0, b""), GrpcEncoding::Zstd).unwrap();
    assert_eq!(&r[..], b"");
}

#[test]
fn short_messages_are_refused() {
    for n in 0..5usize {
        let r = decode_grpc_message(vec![0; n], GrpcEncoding::Identity);
        assert_eq!(http2_text(r), "DATA too short for grpc");
    }
}

#[test]
fn compressed_without_an_encoding_is_refused() {
    let r = decode_grpc_message(framed(1, b"hello"), GrpcEncoding::Identity);
    assert_eq!(http2_text(r), "compressed flag set but no grpc-encoding");
}

#[test]
fn gzip_message() {
    let mut enc = flate2::write::GzEncoder::new(Vec::new(), flate2::Compression::default());
    enc.write_all(b"hello gzip").unwrap();
    let body = enc.finish().unwrap();
    let r = decode_grpc_message(framed(1, &body), GrpcEncoding::Gzip).unwrap();
    assert_eq!(&r[..], b"hello gzip");
    // any nonzero flag means compressed
    let r = decode_grpc_message(framed(255, &body), GrpcEncoding::Gzip).unwrap();
    assert_eq!(&r[..], b"hello gzip");
}

#[test]
fn deflate_message() {
    let mut enc = flate2::write::DeflateEncoder::new(Vec::new(), flate2::Compression::default());
    enc.write_all(b"hello deflate").unwrap();
    let body = enc.finish().unwrap();
    let r = decode_grpc_message(framed(1, &body), GrpcEncoding::Deflate).unwrap();
    assert_eq!(&r[..], b"hello deflate");
}

#[test]
fn zstd_message() {
    let body = zstd::encode_all(&b"hello zstd"[..], 3).unwrap();
    let r = decode_grpc_message(framed(1, &body), GrpcEncoding::Zstd).unwrap();
    assert_eq!(&r[..], b"hello zstd");
}

#[test]
fn broken_compression_is_an_io_failure() {
    for encoding in [GrpcEncoding::Gzip, GrpcEncoding::Deflate, GrpcEncoding::Zstd] {
        let r = decode_grpc_message(framed(1, b"\xff\xff\xff\xff\xff\xff\xff\xff"), encoding);
        assert!(matches!(r, Err(Error::IoFail(_))));
    }
}

#[test]
fn what_a_decoder_made_is_taken() {
    assert_eq!(&take_decoded(Ok(vec![1, 2, 3])).unwrap()[..], &[1, 2, 3]);
    let e = std::io::Error::new(std::io::ErrorKind::InvalidData, "broken");
    match take_decoded(Err(e)) {
        Err(Error::IoFail(e)) => assert_eq!(e.kind(), std::io::ErrorKind::InvalidData),
        _ => panic!("not an I/O failure"),
    }
}
