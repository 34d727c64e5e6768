//! The HTTP/2 frames that a gRPC server reads and writes.
use crate::config::Config;
use crate::decimal;
use crate::error::{Error, ErrorView};
use crate::hpack_encoder;
use crate::hpack_encoder::{Encoder, HeaderField};
use crate::status::{Status, StatusView};
use vstd::prelude::*;

verus! {

/// The types of frames that the server tells apart.
#[derive(Clone, Copy, Debug, PartialEq, Eq, Structural)]
pub enum FrameKind {
    Data,
    Headers,
    Priority,
    Reset,
    Settings,
    PushPromise,
    Ping,
    GoAway,
    WindowUpdate,
    Continuation,
    Unknown,
}

impl FrameKind {
    /// The kind that the type byte of a frame stands for.
    pub open spec fn of_byte(b: u8) -> FrameKind {
        match b {
            0u8 => FrameKind::Data,
            1u8 => FrameKind::Headers,
            2u8 => FrameKind::Priority,
            3u8 => FrameKind::Reset,
            4u8 => FrameKind::Settings,
            5u8 => FrameKind::PushPromise,
            6u8 => FrameKind::Ping,
            7u8 => FrameKind::GoAway,
            8u8 => FrameKind::WindowUpdate,
            9u8 => FrameKind::Continuation,
            _ => FrameKind::Unknown,
        }
    }

    pub fn parse(b: u8) -> (r: FrameKind)
        ensures
            r == FrameKind::of_byte(b),
    {
        match b {
            0 => FrameKind::Data,
            1 => FrameKind::Headers,
            2 => FrameKind::Priority,
            3 => FrameKind::Reset,
            4 => FrameKind::Settings,
            5 => FrameKind::PushPromise,
            6 => FrameKind::Ping,
            7 => FrameKind::GoAway,
            8 => FrameKind::WindowUpdate,
            9 => FrameKind::Continuation,
            _ => FrameKind::Unknown,
        }
    }
}

/// The flags of a frame.
#[derive(Clone, Copy, Debug, PartialEq, Eq, Structural)]
pub struct HeadFlags(pub u8);

impl From<u8> for HeadFlags {
    fn from(bits: u8) -> (r: Self) {
        HeadFlags(bits)
    }
}

impl vstd::std_specs::convert::FromSpecImpl<u8> for HeadFlags {
    open spec fn obeys_from_spec() -> bool {
        true
    }

    open spec fn from_spec(bits: u8) -> Self {
        HeadFlags(bits)
    }
}

impl HeadFlags {
    pub open spec fn has(self, bit: u8) -> bool {
        self.0 & bit != 0
    }

    pub fn is_end_stream(self) -> (r: bool)
        ensures
            r == self.has(0x01),
    {
        self.0 & 0x01 != 0
    }

    pub fn is_ack(self) -> (r: bool)
        ensures
            r == self.has(0x01),
    {
        self.0 & 0x01 != 0
    }

    pub fn is_ping_ack(self) -> (r: bool)
        ensures
            r == self.has(0x01),
    {
        self.0 & 0x01 != 0
    }

    pub fn is_end_headers(self) -> (r: bool)
        ensures
            r == self.has(0x04),
    {
        self.0 & 0x04 != 0
    }

    pub fn is_padded(self) -> (r: bool)
        ensures
            r == self.has(0x08),
    {
        self.0 & 0x08 != 0
    }

    pub fn is_priority(self) -> (r: bool)
        ensures
            r == self.has(0x20),
    {
        self.0 & 0x20 != 0
    }
}

/// The number that four bytes stand for, most significant first.
pub open spec fn be32(a: u8, b: u8, c: u8, d: u8) -> u32 {
    (a * 0x100_0000 + b * 0x1_0000 + c * 0x100 + d) as u32
}

/// The four bytes of `v`, most significant first.
pub open spec fn be32_bytes(v: u32) -> Seq<u8> {
    seq![
        (v / 0x100_0000) as u8,
        (v / 0x1_0000 % 0x100) as u8,
        (v / 0x100 % 0x100) as u8,
        (v % 0x100) as u8,
    ]
}

pub fn read_be32(a: u8, b: u8, c: u8, d: u8) -> (r: u32)
    ensures
        r == be32(a, b, c, d),
        r == a * 0x100_0000 + b * 0x1_0000 + c * 0x100 + d,
{
    a as u32 * 0x100_0000 + b as u32 * 0x1_0000 + c as u32 * 0x100 + d as u32
}

pub fn push_be32(v: u32, output: &mut Vec<u8>)
    ensures
        final(output)@ == old(output)@ + be32_bytes(v),
{
    output.push((v / 0x100_0000) as u8);
    output.push((v / 0x1_0000 % 0x100) as u8);
    output.push((v / 0x100 % 0x100) as u8);
    output.push((v % 0x100) as u8);
    assert(output@ =~= old(output)@ + be32_bytes(v));
}

/// Four bytes and the number that they stand for determine each other.
pub proof fn law_be32_read_back(v: u32)
    ensures
        be32_bytes(v).len() == 4,
        be32(be32_bytes(v)[0], be32_bytes(v)[1], be32_bytes(v)[2], be32_bytes(v)[3]) == v,
{
}

/// The first nine bytes of a frame.
#[derive(Clone, Copy, Debug)]
pub struct FrameHeader {
    pub len: usize,
    pub kind: FrameKind,
    pub flags: HeadFlags,
    pub stream_id: u32,
}

impl FrameHeader {
    /// What the first nine bytes of `buf` say; the top bit of the stream identifier
    /// is reserved and ignored.
    pub open spec fn of_bytes(buf: Seq<u8>) -> FrameHeader {
        FrameHeader {
            len: (buf[0] * 0x1_0000 + buf[1] * 0x100 + buf[2]) as usize,
            kind: FrameKind::of_byte(buf[3]),
            flags: HeadFlags(buf[4]),
            stream_id: be32((buf[5] % 0x80) as u8, buf[6], buf[7], buf[8]),
        }
    }

    pub fn parse(buf: &[u8]) -> (r: Option<FrameHeader>)
        ensures
            r is Some <==> buf@.len() >= 9,
            r matches Some(h) ==> h == FrameHeader::of_bytes(buf@) && h.len < 0x100_0000,
    {
        if buf.len() < 9 {
            return None;
        }
        Some(
            FrameHeader {
                len: buf[0] as usize * 0x1_0000 + buf[1] as usize * 0x100 + buf[2] as usize,
                kind: FrameKind::parse(buf[3]),
                flags: HeadFlags(buf[4]),
                stream_id: read_be32(buf[5] % 0x80, buf[6], buf[7], buf[8]),
            },
        )
    }
}

/// The payload of a padded frame without its padding: the first byte says how many
/// bytes at the end are padding.
pub open spec fn without_padding(flags: HeadFlags, payload: Seq<u8>) -> Result<Seq<u8>, ErrorView> {
    if !flags.has(0x08) {
        Ok(payload)
    } else if payload.len() == 0 || payload[0] >= payload.len() {
        Err(ErrorView::InvalidHttp2("invalid padding"@))
    } else {
        Ok(payload.subrange(1, payload.len() - payload[0]))
    }
}

/// The header block fragment of a HEADERS frame.
pub open spec fn header_fragment(flags: HeadFlags, payload: Seq<u8>) -> Result<
    Seq<u8>,
    ErrorView,
> {
    match without_padding(flags, payload) {
        Err(e) => Err(e),
        Ok(rest) => if !flags.has(0x20) {
            Ok(rest)
        } else if rest.len() < 5 {
            Err(ErrorView::InvalidHttp2("HEADERS too short for priority"@))
        } else {
            Ok(rest.skip(5))
        },
    }
}

/// Whether `r` is `m`, values compared by what they hold.
pub open spec fn same_bytes(r: Result<&[u8], Error>, m: Result<Seq<u8>, ErrorView>) -> bool {
    match r {
        Ok(v) => m == Ok::<Seq<u8>, ErrorView>(v@),
        Err(e) => m == Err::<Seq<u8>, ErrorView>(e@),
    }
}

/// A frame as a value.
pub struct Frame {
    pub kind: FrameKind,
    pub flags: HeadFlags,
    pub stream_id: u32,
    pub payload: Seq<u8>,
}

impl Frame {
    pub fn strip_data_padding(flags: HeadFlags, payload: &[u8]) -> (r: Result<&[u8], Error>)
        ensures
            same_bytes(r, without_padding(flags, payload@)),
    {
        if !flags.is_padded() {
            return Ok(payload);
        }
        if payload.len() == 0 || payload[0] as usize >= payload.len() {
            return Err(Error::InvalidHttp2("invalid padding"));
        }
        let end: usize = payload.len() - payload[0] as usize;
        Ok(vstd::slice::slice_subrange(payload, 1, end))
    }

    pub fn strip_headers(flags: HeadFlags, payload: &[u8]) -> (r: Result<&[u8], Error>)
        ensures
            same_bytes(r, header_fragment(flags, payload@)),
    {
        let rest = Self::strip_data_padding(flags, payload)?;
        if !flags.is_priority() {
            return Ok(rest);
        }
        if rest.len() < 5 {
            return Err(Error::InvalidHttp2("HEADERS too short for priority"));
        }
        Ok(vstd::slice::slice_subrange(rest, 5, rest.len()))
    }
}

/// The nine bytes in front of a payload of `len` bytes, of which the frame holds the
/// low 24 bits.
pub open spec fn head_bytes(len: nat, kind: u8, flags: u8, stream_id: u32) -> Seq<u8> {
    seq![
        (len / 0x1_0000 % 0x100) as u8,
        (len / 0x100 % 0x100) as u8,
        (len % 0x100) as u8,
        kind,
        flags,
    ] + be32_bytes(stream_id)
}

/// A whole frame.
pub open spec fn frame_bytes(kind: u8, flags: u8, stream_id: u32, payload: Seq<u8>) -> Seq<u8> {
    head_bytes(payload.len(), kind, flags, stream_id) + payload
}

/// The frame at the start of `bytes`.
pub open spec fn read_frame(bytes: Seq<u8>) -> Option<Frame> {
    if bytes.len() < 9 {
        None
    } else {
        let head = FrameHeader::of_bytes(bytes);
        if bytes.len() < 9 + head.len {
            None
        } else {
            Some(
                Frame {
                    kind: head.kind,
                    flags: head.flags,
                    stream_id: head.stream_id,
                    payload: bytes.subrange(9, 9 + head.len),
                },
            )
        }
    }
}

/// A frame header reads back as it was written.
pub proof fn law_head_read_back(len: nat, kind: u8, flags: u8, stream_id: u32)
    requires
        len < 0x100_0000,
        stream_id < 0x8000_0000,
    ensures
        head_bytes(len, kind, flags, stream_id).len() == 9,
        FrameHeader::of_bytes(head_bytes(len, kind, flags, stream_id)) == (FrameHeader {
            len: len as usize,
            kind: FrameKind::of_byte(kind),
            flags: HeadFlags(flags),
            stream_id,
        }),
{
    let all = head_bytes(len, kind, flags, stream_id);
    law_be32_read_back(stream_id);
    assert(stream_id / 0x100_0000 < 0x80);
    assert(all[5] == stream_id / 0x100_0000);
    assert(all[0] == len / 0x1_0000 % 0x100);
    assert(all[1] == len / 0x100 % 0x100);
    assert(all[2] == len % 0x100);
    assert(len / 0x1_0000 % 0x100 * 0x1_0000 + len / 0x100 % 0x100 * 0x100 + len % 0x100 == len);
}

/// A frame is read back as it was written, whatever follows it.
pub proof fn law_frame_read_back(
    kind: u8,
    flags: u8,
    stream_id: u32,
    payload: Seq<u8>,
    rest: Seq<u8>,
)
    requires
        payload.len() < 0x100_0000,
        stream_id < 0x8000_0000,
    ensures
        frame_bytes(kind, flags, stream_id, payload).len() == 9 + payload.len(),
        read_frame(frame_bytes(kind, flags, stream_id, payload) + rest) == Some(
            Frame {
                kind: FrameKind::of_byte(kind),
                flags: HeadFlags(flags),
                stream_id,
                payload,
            },
        ),
{
    let all = frame_bytes(kind, flags, stream_id, payload) + rest;
    let head = head_bytes(payload.len(), kind, flags, stream_id);
    law_head_read_back(payload.len(), kind, flags, stream_id);
    assert(forall|i: int| 0 <= i < 9 ==> all[i] == head[i]);
    assert(FrameHeader::of_bytes(all) == FrameHeader::of_bytes(head));
    assert(all.subrange(9, 9 + payload.len() as int) =~= payload);
}

fn build_frame(kind: u8, flags: u8, stream_id: u32, payload: &[u8], output: &mut Vec<u8>)
    ensures
        final(output)@ == old(output)@ + frame_bytes(kind, flags, stream_id, payload@),
{
    let len = payload.len();
    output.push((len / 0x1_0000 % 0x100) as u8);
    output.push((len / 0x100 % 0x100) as u8);
    output.push((len % 0x100) as u8);
    output.push(kind);
    output.push(flags);
    push_be32(stream_id, output);
    output.extend_from_slice(payload);
    assert(output@ =~= old(output)@ + frame_bytes(kind, flags, stream_id, payload@));
}

/// What a client sends before anything else.
pub open spec fn preface_bytes() -> Seq<u8> {
    vstd::utf8::encode_utf8("PRI * HTTP/2.0\r\n\r\nSM\r\n\r\n"@)
}

/// Whether `buf` is what a client has to begin with.
pub fn check_preface(buf: &[u8]) -> (r: Result<(), Error>)
    ensures
        r is Ok <==> buf@ == preface_bytes(),
        r matches Err(e) ==> e@ == ErrorView::InvalidHttp2("invalid preface"@),
{
    let preface = "PRI * HTTP/2.0\r\n\r\nSM\r\n\r\n".as_bytes();
    if buf.len() != preface.len() {
        return Err(Error::InvalidHttp2("invalid preface"));
    }
    let mut i: usize = 0;
    while i < buf.len()
        invariant
            i <= buf@.len(),
            buf@.len() == preface@.len(),
            preface@ == preface_bytes(),
            forall|j: int| 0 <= j < i ==> buf@[j] == preface@[j],
        decreases buf@.len() - i,
    {
        if buf[i] != preface[i] {
            return Err(Error::InvalidHttp2("invalid preface"));
        }
        i += 1;
    }
    assert(buf@ =~= preface@);
    Ok(())
}

/// The SETTINGS frame of the server: how many streams a client may have open. The frame
/// holds the low 32 bits of that.
pub open spec fn settings_bytes(max_streams: usize) -> Seq<u8> {
    frame_bytes(4, 0, 0, seq![0u8, 3u8] + be32_bytes(max_streams as u32))
}

pub fn build_settings(config: &Config, output: &mut Vec<u8>)
    ensures
        final(output)@ == old(output)@ + settings_bytes(config.max_concurrent_streams),
{
    let mut payload: Vec<u8> = Vec::new();
    payload.push(0);
    payload.push(3);
    push_be32(#[verifier::truncate] (config.max_concurrent_streams as u32), &mut payload);
    assert(payload@ =~= seq![0u8, 3u8] + be32_bytes(config.max_concurrent_streams as u32));
    build_frame(4, 0, 0, payload.as_slice(), output);
}

/// A frame that ends the stream `stream_id` with an error.
pub open spec fn rst_stream_bytes(stream_id: u32, error_code: u32) -> Seq<u8> {
    frame_bytes(3, 0, stream_id, be32_bytes(error_code))
}

pub fn build_rst_stream(stream_id: u32, error_code: u32, output: &mut Vec<u8>)
    ensures
        final(output)@ == old(output)@ + rst_stream_bytes(stream_id, error_code),
{
    let mut payload: Vec<u8> = Vec::new();
    push_be32(error_code, &mut payload);
    assert(payload@ =~= be32_bytes(error_code));
    build_frame(3, 0, stream_id, payload.as_slice(), output);
}

/// The acknowledgement of a SETTINGS frame.
pub open spec fn settings_ack_bytes() -> Seq<u8> {
    frame_bytes(4, 1, 0, Seq::empty())
}

pub fn build_settings_ack(output: &mut Vec<u8>)
    ensures
        final(output)@ == old(output)@ + settings_ack_bytes(),
{
    let payload: Vec<u8> = Vec::new();
    assert(payload@ =~= Seq::empty());
    build_frame(4, 1, 0, payload.as_slice(), output);
}

/// The answer to a PING frame: the same payload.
pub open spec fn ping_ack_bytes(payload: Seq<u8>) -> Seq<u8> {
    frame_bytes(6, 1, 0, payload)
}

pub fn build_ping_ack(payload: &[u8], output: &mut Vec<u8>)
    ensures
        final(output)@ == old(output)@ + ping_ack_bytes(payload@),
{
    build_frame(6, 1, 0, payload, output);
}

/// A frame that lets the peer send `len` more bytes on `stream_id`, or on the whole
/// connection where that is 0. The frame holds the low 32 bits of `len`.
pub open spec fn window_update_bytes(len: usize, stream_id: u32) -> Seq<u8> {
    frame_bytes(8, 0, stream_id, be32_bytes(len as u32))
}

pub fn build_window_update(len: usize, stream_id: u32, output: &mut Vec<u8>)
    ensures
        final(output)@ == old(output)@ + window_update_bytes(len, stream_id),
{
    let mut payload: Vec<u8> = Vec::new();
    push_be32(#[verifier::truncate] (len as u32), &mut payload);
    assert(payload@ =~= be32_bytes(len as u32));
    build_frame(8, 0, stream_id, payload.as_slice(), output);
}

/// A gRPC message: a flag that says it is not compressed, its length, and itself. The
/// length field holds the low 32 bits of the length.
pub open spec fn message_bytes(reply: Seq<u8>) -> Seq<u8> {
    seq![0u8] + be32_bytes(reply.len() as u32) + reply
}

/// The headers in front of a reply.
pub open spec fn reply_headers(table: Seq<HeaderField>) -> Seq<u8> {
    hpack_encoder::index_bytes(8) + hpack_encoder::stored_field_bytes(
        table,
        hpack_encoder::content_type_field(),
    ) + hpack_encoder::literal_bytes(hpack_encoder::accept_encoding_field())
}

/// The header table behind those headers.
pub open spec fn table_after_headers(table: Seq<HeaderField>) -> Seq<HeaderField> {
    hpack_encoder::table_with(table, hpack_encoder::content_type_field())
}

/// The header table behind a whole reply.
pub open spec fn table_after_reply(table: Seq<HeaderField>) -> Seq<HeaderField> {
    hpack_encoder::table_with(table_after_headers(table), hpack_encoder::grpc_status_zero_field())
}

/// A successful response: the headers, the message, and the trailers that end the
/// stream with the status 0.
pub open spec fn reply_bytes(table: Seq<HeaderField>, stream_id: u32, reply: Seq<u8>) -> Seq<u8> {
    frame_bytes(1, 0x04, stream_id, reply_headers(table)) + frame_bytes(
        0,
        0,
        stream_id,
        message_bytes(reply),
    ) + frame_bytes(
        1,
        0x05,
        stream_id,
        hpack_encoder::stored_field_bytes(
            table_after_headers(table),
            hpack_encoder::grpc_status_zero_field(),
        ),
    )
}

pub fn build_response(
    stream_id: u32,
    reply: &[u8],
    hpack_encoder: &mut Encoder,
    output: &mut Vec<u8>,
)
    requires
        old(hpack_encoder).wf(),
    ensures
        final(hpack_encoder).wf(),
        final(hpack_encoder)@ == table_after_reply(old(hpack_encoder)@),
        final(output)@ == old(output)@ + reply_bytes(old(hpack_encoder)@, stream_id, reply@),
{
    let mut headers: Vec<u8> = Vec::new();
    hpack_encoder.encode_status_200(&mut headers);
    hpack_encoder.encode_content_type(&mut headers);
    hpack_encoder.encode_grpc_accept_encoding(&mut headers);
    assert(headers@ =~= reply_headers(old(hpack_encoder)@));
    build_frame(1, 0x04, stream_id, headers.as_slice(), output);

    let mut message: Vec<u8> = Vec::new();
    message.push(0);
    push_be32(#[verifier::truncate] (reply.len() as u32), &mut message);
    message.extend_from_slice(reply);
    assert(message@ =~= message_bytes(reply@));
    build_frame(0, 0, stream_id, message.as_slice(), output);

    let mut trailers: Vec<u8> = Vec::new();
    hpack_encoder.encode_grpc_status_zero(&mut trailers);
    assert(trailers@ =~= hpack_encoder::stored_field_bytes(
        table_after_headers(old(hpack_encoder)@),
        hpack_encoder::grpc_status_zero_field(),
    ));
    build_frame(1, 0x05, stream_id, trailers.as_slice(), output);
    assert(output@ =~= old(output)@ + reply_bytes(old(hpack_encoder)@, stream_id, reply@));
}

/// The headers of a response that is a status alone.
pub open spec fn status_headers(table: Seq<HeaderField>, status: StatusView) -> Seq<u8> {
    hpack_encoder::index_bytes(8) + hpack_encoder::stored_field_bytes(
        table,
        hpack_encoder::content_type_field(),
    ) + hpack_encoder::grpc_status_bytes(
        table_after_headers(table),
        decimal::decimal(status.code.number() as nat),
    ) + hpack_encoder::literal_bytes(
        hpack_encoder::header_field("grpc-message"@, status.message),
    )
}

/// A response that is a status alone: one frame, which ends the stream.
pub open spec fn status_bytes(table: Seq<HeaderField>, stream_id: u32, status: StatusView) -> Seq<
    u8,
> {
    frame_bytes(1, 0x05, stream_id, status_headers(table, status))
}

pub fn build_status(
    stream_id: u32,
    status: &Status,
    hpack_encoder: &mut Encoder,
    output: &mut Vec<u8>,
)
    requires
        old(hpack_encoder).wf(),
    ensures
        final(hpack_encoder).wf(),
        final(hpack_encoder)@ == table_after_headers(old(hpack_encoder)@),
        final(output)@ == old(output)@ + status_bytes(old(hpack_encoder)@, stream_id, status@),
{
    let mut headers: Vec<u8> = Vec::new();
    hpack_encoder.encode_status_200(&mut headers);
    hpack_encoder.encode_content_type(&mut headers);
    hpack_encoder.encode_grpc_status_nonzero(status.code.as_usize(), &mut headers);
    hpack_encoder.encode_grpc_message(status.message.as_str(), &mut headers);
    assert(headers@ =~= status_headers(old(hpack_encoder)@, status@));
    build_frame(1, 0x05, stream_id, headers.as_slice(), output);
}

} // verus!
