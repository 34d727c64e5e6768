//! What can go wrong on a connection.
use vstd::prelude::*;
use vstd::std_specs::convert::FromSpecImpl;

verus! {

/// An I/O failure, as the standard library reports it.
#[verifier::external_type_specification]
#[verifier::external_body]
pub struct ExIoError(std::io::Error);

/// A failure to decode a protobuf message, as prost reports it.
#[verifier::external_type_specification]
#[verifier::external_body]
pub struct ExDecodeError(prost::DecodeError);

#[derive(Debug)]
pub enum Error {
    InvalidHttp2(&'static str),
    InvalidHpack(&'static str),
    InvalidHuffman,
    InvalidProtobuf(prost::DecodeError),
    IoFail(std::io::Error),
    ChannelClosed,
    UnknownMethod(String),
    NoPathSet,
}

/// An error as a value: which one it is, and its text where it carries one.
pub enum ErrorView {
    InvalidHttp2(Seq<char>),
    InvalidHpack(Seq<char>),
    InvalidHuffman,
    InvalidProtobuf,
    IoFail,
    ChannelClosed,
    UnknownMethod(Seq<char>),
    NoPathSet,
}

impl View for Error {
    type V = ErrorView;

    open spec fn view(&self) -> ErrorView {
        match self {
            Error::InvalidHttp2(s) => ErrorView::InvalidHttp2(s@),
            Error::InvalidHpack(s) => ErrorView::InvalidHpack(s@),
            Error::InvalidHuffman => ErrorView::InvalidHuffman,
            Error::InvalidProtobuf(_) => ErrorView::InvalidProtobuf,
            Error::IoFail(_) => ErrorView::IoFail,
            Error::ChannelClosed => ErrorView::ChannelClosed,
            Error::UnknownMethod(m) => ErrorView::UnknownMethod(m@),
            Error::NoPathSet => ErrorView::NoPathSet,
        }
    }
}

impl From<std::io::Error> for Error {
    fn from(io: std::io::Error) -> (r: Self) {
        Error::IoFail(io)
    }
}

impl FromSpecImpl<std::io::Error> for Error {
    open spec fn obeys_from_spec() -> bool {
        true
    }

    open spec fn from_spec(io: std::io::Error) -> Self {
        Error::IoFail(io)
    }
}

impl From<prost::DecodeError> for Error {
    fn from(de: prost::DecodeError) -> (r: Self) {
        Error::InvalidProtobuf(de)
    }
}

impl FromSpecImpl<prost::DecodeError> for Error {
    open spec fn obeys_from_spec() -> bool {
        true
    }

    open spec fn from_spec(de: prost::DecodeError) -> Self {
        Error::InvalidProtobuf(de)
    }
}

/// `label` and then `text`.
pub fn labelled(label: &str, text: &str) -> (r: String)
    ensures
        r@ == label@ + text@,
{
    label.to_owned().concat(text)
}

impl ErrorView {
    /// The words that an error of this kind starts with.
    pub open spec fn label(self) -> Seq<char> {
        match self {
            ErrorView::InvalidHttp2(_) => "invalid http2: "@,
            ErrorView::InvalidHpack(_) => "invalid hpack: "@,
            ErrorView::InvalidHuffman => "invalid huffman"@,
            ErrorView::InvalidProtobuf => "invalid protobuf: "@,
            ErrorView::IoFail => "IO fail: "@,
            ErrorView::ChannelClosed => "channel closed"@,
            ErrorView::UnknownMethod(_) => "unknown method: "@,
            ErrorView::NoPathSet => "no :path set"@,
        }
    }
}

impl Error {
    /// The error in words. Behind `invalid protobuf: ` and `IO fail: ` comes the text
    /// of the error inside, as its `Display` has it.
    pub fn to_text(&self) -> (r: String)
        ensures
            match *self {
                Error::InvalidHttp2(s) => r@ == self@.label() + s@,
                Error::InvalidHpack(s) => r@ == self@.label() + s@,
                Error::UnknownMethod(m) => r@ == self@.label() + m@,
                Error::InvalidProtobuf(e) => exists|t: String| #[trigger]
                    vstd::string::to_string_from_display_ensures(&e, t) && r@ == self@.label()
                        + t@,
                Error::IoFail(e) => exists|t: String| #[trigger]
                    vstd::string::to_string_from_display_ensures(&e, t) && r@ == self@.label()
                        + t@,
                _ => r@ == self@.label(),
            },
    {
        match self {
            Error::InvalidHttp2(s) => labelled("invalid http2: ", s),
            Error::InvalidHpack(s) => labelled("invalid hpack: ", s),
            Error::InvalidHuffman => "invalid huffman".to_owned(),
            Error::InvalidProtobuf(e) => {
                let text = e.to_string();
                labelled("invalid protobuf: ", text.as_str())
            },
            Error::IoFail(e) => {
                let text = e.to_string();
                labelled("IO fail: ", text.as_str())
            },
            Error::ChannelClosed => "channel closed".to_owned(),
            Error::UnknownMethod(m) => labelled("unknown method: ", m.as_str()),
            Error::NoPathSet => "no :path set".to_owned(),
        }
    }
}

} // verus!
