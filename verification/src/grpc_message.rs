//! The body of a request: a gRPC message, possibly compressed.
use crate::error::{Error, ErrorView};
use crate::http2;
use std::io::Read;
use vstd::prelude::*;

verus! {

/// How a client says that it compresses its messages.
#[derive(Clone, Copy, Debug, PartialEq, Eq, Structural)]
pub enum GrpcEncoding {
    Identity,
    Gzip,
    Deflate,
    Zstd,
}

/// A shared byte buffer of the `bytes` crate.
#[verifier::external_type_specification]
#[verifier::external_body]
pub struct ExBytes(bytes::Bytes);

/// The bytes that a `bytes::Bytes` holds.
pub uninterp spec fn bytes_contents(b: bytes::Bytes) -> Seq<u8>;

/// `bytes::Bytes::from` on a vector: it takes the vector over, with the same bytes.
#[verifier::external_body]
fn bytes_from_vec(v: Vec<u8>) -> (r: bytes::Bytes)
    ensures
        bytes_contents(r) == v@,
{
    bytes::Bytes::from(v)
}

/// `bytes::Bytes::slice` on an open-ended range: the bytes from `begin` on. It panics
/// where `begin` lies beyond the end.
#[verifier::external_body]
fn bytes_from(b: &bytes::Bytes, begin: usize) -> (r: bytes::Bytes)
    requires
        begin <= bytes_contents(*b).len(),
    ensures
        bytes_contents(r) == bytes_contents(*b).skip(begin as int),
{
    b.slice(begin..)
}

/// `bytes::Bytes::new`: no bytes.
#[verifier::external_body]
pub(crate) fn bytes_empty() -> (r: bytes::Bytes)
    ensures
        bytes_contents(r) == Seq::<u8>::empty(),
{
    bytes::Bytes::new()
}

/// What `flate2::read::GzDecoder` makes of a gzip member, read to its end; `None` where
/// it reports an error.
pub uninterp spec fn gunzipped(data: Seq<u8>) -> Option<Seq<u8>>;

/// What `flate2::read::DeflateDecoder` makes of a raw deflate stream, read to its end;
/// `None` where it reports an error.
pub uninterp spec fn inflated(data: Seq<u8>) -> Option<Seq<u8>>;

/// What `zstd::Decoder` makes of zstd frames, read to their end; `None` where it reports
/// an error.
pub uninterp spec fn unzstd(data: Seq<u8>) -> Option<Seq<u8>>;

/// Whether `r` is the named result: the same bytes, or an error where there are none.
pub open spec fn same_decoded(r: Result<Vec<u8>, std::io::Error>, named: Option<Seq<u8>>) -> bool {
    match r {
        Ok(v) => named == Some(v@),
        Err(_) => named is None,
    }
}

/// `flate2::read::GzDecoder::new` and `read_to_end`: whether it succeeds and what it
/// yields is a function of the input bytes.
#[verifier::external_body]
fn gunzip(data: &[u8]) -> (r: Result<Vec<u8>, std::io::Error>)
    ensures
        same_decoded(r, gunzipped(data@)),
{
    let mut decoded = Vec::new();
    flate2::read::GzDecoder::new(data).read_to_end(&mut decoded)?;
    Ok(decoded)
}

/// `flate2::read::DeflateDecoder::new` and `read_to_end`: whether it succeeds and what
/// it yields is a function of the input bytes.
#[verifier::external_body]
fn inflate(data: &[u8]) -> (r: Result<Vec<u8>, std::io::Error>)
    ensures
        same_decoded(r, inflated(data@)),
{
    let mut decoded = Vec::new();
    flate2::read::DeflateDecoder::new(data).read_to_end(&mut decoded)?;
    Ok(decoded)
}

/// `zstd::Decoder::new` and `read_to_end`: whether it succeeds and what it yields is a
/// function of the input bytes.
#[verifier::external_body]
fn decode_zstd(data: &[u8]) -> (r: Result<Vec<u8>, std::io::Error>)
    ensures
        same_decoded(r, unzstd(data@)),
{
    let mut decoded = Vec::new();
    zstd::Decoder::new(data)?.read_to_end(&mut decoded)?;
    Ok(decoded)
}

/// What the decoder for `encoding` makes of `data`; for `Identity` there is none.
pub open spec fn decompressed(data: Seq<u8>, encoding: GrpcEncoding) -> Option<Seq<u8>> {
    match encoding {
        GrpcEncoding::Gzip => gunzipped(data),
        GrpcEncoding::Deflate => inflated(data),
        GrpcEncoding::Zstd => unzstd(data),
        GrpcEncoding::Identity => None,
    }
}

/// A request body as its sender meant it, given what the decoder made of the part
/// behind the five bytes in front. The first of these says whether the message is
/// compressed; the length in the other four is not looked at.
pub open spec fn message_given(
    data: Seq<u8>,
    encoding: GrpcEncoding,
    decoded: Option<Seq<u8>>,
) -> Result<Seq<u8>, ErrorView> {
    if data.len() < 5 {
        Err(ErrorView::InvalidHttp2("DATA too short for grpc"@))
    } else if data[0] == 0 {
        Ok(data.skip(5))
    } else if encoding == GrpcEncoding::Identity {
        Err(ErrorView::InvalidHttp2("compressed flag set but no grpc-encoding"@))
    } else {
        match decoded {
            Some(v) => Ok(v),
            None => Err(ErrorView::IoFail),
        }
    }
}

/// A request body as its sender meant it.
pub open spec fn grpc_message(data: Seq<u8>, encoding: GrpcEncoding) -> Result<
    Seq<u8>,
    ErrorView,
> {
    message_given(data, encoding, decompressed(data.skip(5), encoding))
}

/// Whether `r` is `m`, values compared by what they hold.
pub open spec fn same_message(
    r: Result<bytes::Bytes, Error>,
    m: Result<Seq<u8>, ErrorView>,
) -> bool {
    match r {
        Ok(b) => m == Ok::<Seq<u8>, ErrorView>(bytes_contents(b)),
        Err(e) => m == Err::<Seq<u8>, ErrorView>(e@),
    }
}

/// The message that a decoder made, or its failure as an error of the connection.
pub fn take_decoded(decoded: Result<Vec<u8>, std::io::Error>) -> (r: Result<bytes::Bytes, Error>)
    ensures
        match decoded {
            Ok(v) => r matches Ok(b) && bytes_contents(b) == v@,
            Err(e) => r == Err::<bytes::Bytes, Error>(Error::IoFail(e)),
        },
{
    match decoded {
        Ok(v) => Ok(bytes_from_vec(v)),
        Err(e) => Err(Error::IoFail(e)),
    }
}

pub fn decode_grpc_message(data: Vec<u8>, encoding: GrpcEncoding) -> (r: Result<
    bytes::Bytes,
    Error,
>)
    ensures
        same_message(r, grpc_message(data@, encoding)),
{
    if data.len() < 5 {
        return Err(Error::InvalidHttp2("DATA too short for grpc"));
    }
    let compressed = data[0] != 0;

    if !compressed {
        let all = bytes_from_vec(data);
        return Ok(bytes_from(&all, 5));
    }
    let body = vstd::slice::slice_subrange(data.as_slice(), 5, data.len());
    match encoding {
        GrpcEncoding::Gzip => take_decoded(gunzip(body)),
        GrpcEncoding::Deflate => take_decoded(inflate(body)),
        GrpcEncoding::Zstd => take_decoded(decode_zstd(body)),
        GrpcEncoding::Identity => Err(
            Error::InvalidHttp2("compressed flag set but no grpc-encoding"),
        ),
    }
}

/// Any flag but 0 says that the message is compressed, and the length behind it makes no
/// difference: the message is what the decoder for the encoding of the request makes of
/// the rest, and where that fails, so does the request.
pub proof fn law_message_by_encoding(flag: u8, length: Seq<u8>, body: Seq<u8>)
    requires
        flag != 0,
        length.len() == 4,
    ensures
        ({
            let data = seq![flag] + length + body;
            &&& grpc_message(data, GrpcEncoding::Gzip) == or_io_failure(gunzipped(body))
            &&& grpc_message(data, GrpcEncoding::Deflate) == or_io_failure(inflated(body))
            &&& grpc_message(data, GrpcEncoding::Zstd) == or_io_failure(unzstd(body))
            &&& grpc_message(data, GrpcEncoding::Identity) == Err::<Seq<u8>, ErrorView>(
                ErrorView::InvalidHttp2("compressed flag set but no grpc-encoding"@),
            )
        }),
{
    let data = seq![flag] + length + body;
    assert(data[0] == flag);
    assert(data.skip(5) =~= body);
}

/// What was decoded, or the failure to.
pub open spec fn or_io_failure(decoded: Option<Seq<u8>>) -> Result<Seq<u8>, ErrorView> {
    match decoded {
        Some(message) => Ok(message),
        None => Err(ErrorView::IoFail),
    }
}

/// With the flag 0 the message is what stands behind the length, whatever that is, and
/// whatever the encoding; with fewer than five bytes there is no message.
pub proof fn law_plain_message(
    length: Seq<u8>,
    body: Seq<u8>,
    short: Seq<u8>,
    encoding: GrpcEncoding,
)
    requires
        length.len() == 4,
        short.len() < 5,
    ensures
        grpc_message(seq![0u8] + length + body, encoding) == Ok::<Seq<u8>, ErrorView>(body),
        grpc_message(short, encoding) == Err::<Seq<u8>, ErrorView>(
            ErrorView::InvalidHttp2("DATA too short for grpc"@),
        ),
{
    let data = seq![0u8] + length + body;
    assert(data[0] == 0);
    assert(data.skip(5) =~= body);
}

/// Any flag but 0 says that the message is compressed, and the length behind it makes no
/// difference: the message is what the decoder makes of the rest.
pub proof fn law_compressed_message(
    flag: u8,
    length: Seq<u8>,
    body: Seq<u8>,
    encoding: GrpcEncoding,
)
    requires
        flag != 0,
        length.len() == 4,
        encoding != GrpcEncoding::Identity,
    ensures
        grpc_message(seq![flag] + length + body, encoding) == match decompressed(body, encoding) {
            Some(message) => Ok::<Seq<u8>, ErrorView>(message),
            None => Err(ErrorView::IoFail),
        },
{
    let data = seq![flag] + length + body;
    assert(data[0] == flag);
    assert(data.skip(5) =~= body);
}

/// A message as the server itself writes one is read back, under any encoding.
pub proof fn law_message_read_back(reply: Seq<u8>, encoding: GrpcEncoding)
    ensures
        grpc_message(http2::message_bytes(reply), encoding) == Ok::<Seq<u8>, ErrorView>(reply),
{
    assert(http2::message_bytes(reply)[0] == 0);
    assert(http2::message_bytes(reply).skip(5) =~= reply);
}

} // verus!
