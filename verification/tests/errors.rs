use pajamax::error::{labelled, Error};

#[test]
fn errors_in_words() {
    assert_eq!(Error::InvalidHttp2("bad frame").to_text(), "invalid http2: bad frame");
    assert_eq!(Error::InvalidHpack("bad index").to_text(), "invalid hpack: bad index");
    assert_eq!(Error::InvalidHuffman.to_text(), "invalid huffman");
    assert_eq!(Error::ChannelClosed.to_text(), "channel closed");
    assert_eq!(
        Error::UnknownMethod(String::from("/a.B/C")).to_text(),
        "unknown method: /a.B/C"
    );
    assert_eq!(Error::NoPathSet.to_text(), "no :path set");
}

#[test]
fn errors_from_outside_keep_their_text() {
    let e = std::io::Error::new(std::io::ErrorKind::Other, "socket gone");
    assert_eq!(Error::from(e).to_text(), "IO fail: socket gone");

    let e = <String as prost::Message>::decode(&[0xffu8][..]).unwrap_err();
    let text = format!("invalid protobuf: {}", e);
    assert_eq!(Error::from(e).to_text(), text);
}

#[test]
fn labels() {
    assert_eq!(labelled("a: ", "b"), "a: b");
    assert_eq!(labelled("", ""), "");
}
