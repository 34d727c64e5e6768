//! What a client reads of what the server writes.
use crate::decimal;
use crate::hpack_encoder;
use crate::hpack_encoder::HeaderField;
use crate::hpack_reading;
use crate::http2;
use crate::http2::{Frame, FrameKind, HeadFlags};
use crate::response_end;
use crate::response_end::JobView;
use crate::status::StatusView;
use vstd::prelude::*;
use vstd::utf8;

verus! {

/// All frames of a run of bytes, in order; `None` where they do not add up.
#[verifier::opaque]
pub open spec fn read_frames(bytes: Seq<u8>) -> Option<Seq<Frame>>
    decreases bytes.len(),
{
    if bytes.len() == 0 {
        Some(Seq::empty())
    } else {
        match http2::read_frame(bytes) {
            Some(f) => if 9 + f.payload.len() <= bytes.len() {
                match read_frames(bytes.skip(9 + f.payload.len() as int)) {
                    Some(fs) => Some(seq![f] + fs),
                    None => None,
                }
            } else {
                None
            },
            None => None,
        }
    }
}

/// A frame in front of others is read first, and then the others.
pub proof fn law_frames_in_order(
    kind: u8,
    flags: u8,
    stream_id: u32,
    payload: Seq<u8>,
    rest: Seq<u8>,
)
    requires
        payload.len() < 0x100_0000,
        stream_id < 0x8000_0000,
        read_frames(rest) is Some,
    ensures
        read_frames(http2::frame_bytes(kind, flags, stream_id, payload) + rest) == Some(
            seq![
                Frame {
                    kind: FrameKind::of_byte(kind),
                    flags: HeadFlags(flags),
                    stream_id,
                    payload,
                },
            ] + read_frames(rest)->0,
        ),
{
    reveal_with_fuel(read_frames, 1);
    http2::law_frame_read_back(kind, flags, stream_id, payload, rest);
    let all = http2::frame_bytes(kind, flags, stream_id, payload) + rest;
    assert(all.skip(9 + payload.len() as int) =~= rest);
}

/// There is nothing to read in an empty block.
proof fn lemma_no_field(table: Seq<HeaderField>)
    ensures
        hpack_reading::read_block(table, Seq::empty()) == Some(
            (Seq::<HeaderField>::empty(), table),
        ),
{
    reveal_with_fuel(hpack_reading::read_block, 1);
}

/// A header in front of others is read first, and then the others.
proof fn lemma_field_first(
    table: Seq<HeaderField>,
    field: HeaderField,
    bytes: Seq<u8>,
    next: Seq<HeaderField>,
    rest: Seq<u8>,
)
    requires
        bytes.len() > 0,
        hpack_reading::read_field(table, bytes + rest) == Some(
            (hpack_reading::Taken { item: field, used: bytes.len() }, next),
        ),
        hpack_reading::read_block(next, rest) is Some,
    ensures
        hpack_reading::read_block(table, bytes + rest) == Some(
            (
                seq![field] + (hpack_reading::read_block(next, rest)->0).0,
                (hpack_reading::read_block(next, rest)->0).1,
            ),
        ),
{
    reveal_with_fuel(hpack_reading::read_block, 1);
    assert((bytes + rest).skip(bytes.len() as int) =~= rest);
}

pub proof fn lemma_names_short()
    ensures
        utf8::encode_utf8("content-type"@).len() == 12,
        utf8::encode_utf8("application/grpc"@).len() == 16,
        utf8::encode_utf8("grpc-status"@).len() == 11,
        utf8::encode_utf8("0"@).len() == 1,
        utf8::encode_utf8("grpc-message"@).len() == 12,
        utf8::encode_utf8("grpc-accept-encoding"@).len() == 20,
        utf8::encode_utf8("gzip,deflate,zstd"@).len() == 17,
{
    reveal_strlit("content-type");
    reveal_strlit("application/grpc");
    reveal_strlit("grpc-status");
    reveal_strlit("0");
    reveal_strlit("grpc-message");
    reveal_strlit("grpc-accept-encoding");
    reveal_strlit("gzip,deflate,zstd");
    utf8::is_ascii_chars_encode_utf8("content-type"@);
    utf8::is_ascii_chars_encode_utf8("application/grpc"@);
    utf8::is_ascii_chars_encode_utf8("grpc-status"@);
    utf8::is_ascii_chars_encode_utf8("0"@);
    utf8::is_ascii_chars_encode_utf8("grpc-message"@);
    utf8::is_ascii_chars_encode_utf8("grpc-accept-encoding"@);
    utf8::is_ascii_chars_encode_utf8("gzip,deflate,zstd"@);
}

/// The headers in front of a reply are read as the status 200, the content type and the
/// encodings that the server accepts; the client's table is then the server's.
pub proof fn law_reply_headers_read(table: Seq<HeaderField>)
    requires
        62 + table.len() <= usize::MAX,
    ensures
        hpack_reading::read_block(table, http2::reply_headers(table)) == Some(
            (
                seq![
                    hpack_encoder::status_200_field(),
                    hpack_encoder::content_type_field(),
                    hpack_encoder::accept_encoding_field(),
                ],
                http2::table_after_headers(table),
            ),
        ),
{
    lemma_names_short();
    let ct = hpack_encoder::content_type_field();
    let ae = hpack_encoder::accept_encoding_field();
    let next = http2::table_after_headers(table);
    let x = hpack_encoder::index_bytes(8);
    let y = hpack_encoder::stored_field_bytes(table, ct);
    let z = hpack_encoder::literal_bytes(ae);
    let none = Seq::<u8>::empty();
    lemma_no_field(next);
    hpack_reading::law_literal_read(next, ae, none);
    lemma_field_first(next, ae, z, next, none);
    assert(z + none =~= z);
    hpack_reading::law_stored_field_read(table, ct, z);
    lemma_field_first(table, ct, y, next, z);
    hpack_reading::law_index_read(table, 8, y + z);
    lemma_field_first(table, hpack_encoder::status_200_field(), x, table, y + z);
    assert(x + (y + z) =~= http2::reply_headers(table));
    let fields = (hpack_reading::read_block(table, http2::reply_headers(table))->0).0;
    assert(fields =~= seq![hpack_encoder::status_200_field(), ct, ae]);
}

/// The trailers of a reply are read as the status 0.
pub proof fn law_reply_trailers_read(table: Seq<HeaderField>)
    requires
        62 + table.len() <= usize::MAX,
    ensures
        hpack_reading::read_block(
            table,
            hpack_encoder::stored_field_bytes(table, hpack_encoder::grpc_status_zero_field()),
        ) == Some(
            (
                seq![hpack_encoder::grpc_status_zero_field()],
                hpack_encoder::table_with(table, hpack_encoder::grpc_status_zero_field()),
            ),
        ),
{
    lemma_names_short();
    let zero = hpack_encoder::grpc_status_zero_field();
    let x = hpack_encoder::stored_field_bytes(table, zero);
    let next = hpack_encoder::table_with(table, zero);
    let none = Seq::<u8>::empty();
    lemma_no_field(next);
    hpack_reading::law_stored_field_read(table, zero, none);
    lemma_field_first(table, zero, x, next, none);
    assert(x + none =~= x);
    assert((hpack_reading::read_block(table, x)->0).0 =~= seq![zero]);
}

/// The headers of a status alone are read as the status 200, the content type, and the
/// code and the message of the status.
pub proof fn law_status_headers_read(table: Seq<HeaderField>, status: StatusView)
    requires
        63 + table.len() <= usize::MAX,
        utf8::encode_utf8(status.message).len() <= usize::MAX,
    ensures
        hpack_reading::read_block(table, http2::status_headers(table, status)) == Some(
            (
                seq![
                    hpack_encoder::status_200_field(),
                    hpack_encoder::content_type_field(),
                    hpack_encoder::header_field(
                        "grpc-status"@,
                        decimal::decimal(status.code.number() as nat),
                    ),
                    hpack_encoder::header_field("grpc-message"@, status.message),
                ],
                http2::table_after_headers(table),
            ),
        ),
{
    lemma_names_short();
    let ct = hpack_encoder::content_type_field();
    let code = decimal::decimal(status.code.number() as nat);
    let msg = hpack_encoder::header_field("grpc-message"@, status.message);
    let next = http2::table_after_headers(table);
    let x = hpack_encoder::index_bytes(8);
    let y = hpack_encoder::stored_field_bytes(table, ct);
    let z = hpack_encoder::grpc_status_bytes(next, code);
    let w = hpack_encoder::literal_bytes(msg);
    let none = Seq::<u8>::empty();
    assert(utf8::encode_utf8(code).len() <= usize::MAX) by {
        decimal::lemma_decimal_short(status.code.number() as nat);
    }
    lemma_no_field(next);
    hpack_reading::law_literal_read(next, msg, none);
    hpack_reading::law_grpc_status_read(next, code, w);
    hpack_reading::law_stored_field_read(table, ct, z + w);
    hpack_reading::law_index_read(table, 8, y + (z + w));
    assert(http2::status_headers(table, status) == x + (y + (z + w))) by {
        lemma_regroup(x, y, z, w);
    }
    assert(x.len() > 0 && y.len() > 0 && z.len() > 0 && w.len() > 0) by {
        hpack_reading::lemma_prefixes_free();
        hpack_reading::law_int_read_back(8, 7, 0x80, none);
    }
    lemma_four_fields(
        table,
        next,
        seq![
            hpack_encoder::status_200_field(),
            ct,
            hpack_encoder::header_field("grpc-status"@, code),
            msg,
        ],
        x,
        y,
        z,
        w,
    );
}

/// What reading one header gives, where it takes up `bytes`.
spec fn one_field(field: HeaderField, bytes: Seq<u8>, next: Seq<HeaderField>) -> Option<
    (hpack_reading::Taken<HeaderField>, Seq<HeaderField>),
> {
    Some((hpack_reading::Taken { item: field, used: bytes.len() }, next))
}

/// Four headers, of which the second may go into the table.
proof fn lemma_four_fields(
    table: Seq<HeaderField>,
    next: Seq<HeaderField>,
    f: Seq<HeaderField>,
    x: Seq<u8>,
    y: Seq<u8>,
    z: Seq<u8>,
    w: Seq<u8>,
)
    requires
        f.len() == 4,
        x.len() > 0,
        y.len() > 0,
        z.len() > 0,
        w.len() > 0,
        hpack_reading::read_block(next, Seq::empty()) == Some(
            (Seq::<HeaderField>::empty(), next),
        ),
        hpack_reading::read_field(next, w + Seq::<u8>::empty()) == one_field(f[3], w, next),
        hpack_reading::read_field(next, z + w) == one_field(f[2], z, next),
        hpack_reading::read_field(table, y + (z + w)) == one_field(f[1], y, next),
        hpack_reading::read_field(table, x + (y + (z + w))) == one_field(f[0], x, table),
    ensures
        hpack_reading::read_block(table, x + (y + (z + w))) == Some((f, next)),
{
    let none = Seq::<u8>::empty();
    lemma_field_first(next, f[3], w, next, none);
    assert(w + none =~= w);
    lemma_field_first(next, f[2], z, next, w);
    lemma_field_first(table, f[1], y, next, z + w);
    lemma_field_first(table, f[0], x, table, y + (z + w));
    assert(seq![f[0]] + (seq![f[1]] + (seq![f[2]] + (seq![f[3]] + Seq::<HeaderField>::empty())))
        =~= f);
}

/// A reply is read as three frames on its stream: headers, the message, and trailers
/// that end the stream.
pub proof fn law_reply_frames(
    table: Seq<HeaderField>,
    stream_id: u32,
    reply: Seq<u8>,
    rest: Seq<u8>,
)
    requires
        stream_id < 0x8000_0000,
        http2::reply_headers(table).len() < 0x100_0000,
        http2::message_bytes(reply).len() < 0x100_0000,
        hpack_encoder::stored_field_bytes(
            http2::table_after_headers(table),
            hpack_encoder::grpc_status_zero_field(),
        ).len() < 0x100_0000,
        read_frames(rest) is Some,
    ensures
        read_frames(
            response_end::job_bytes(table, JobView::Reply { stream_id, reply }) + rest,
        ) == Some(
            seq![
                Frame {
                    kind: FrameKind::Headers,
                    flags: HeadFlags(0x04),
                    stream_id,
                    payload: http2::reply_headers(table),
                },
                Frame {
                    kind: FrameKind::Data,
                    flags: HeadFlags(0),
                    stream_id,
                    payload: http2::message_bytes(reply),
                },
                Frame {
                    kind: FrameKind::Headers,
                    flags: HeadFlags(0x05),
                    stream_id,
                    payload: hpack_encoder::stored_field_bytes(
                        http2::table_after_headers(table),
                        hpack_encoder::grpc_status_zero_field(),
                    ),
                },
            ] + read_frames(rest)->0,
        ),
{
    let h = http2::reply_headers(table);
    let m = http2::message_bytes(reply);
    let t = hpack_encoder::stored_field_bytes(
        http2::table_after_headers(table),
        hpack_encoder::grpc_status_zero_field(),
    );
    let fh = http2::frame_bytes(1, 0x04, stream_id, h);
    let fm = http2::frame_bytes(0, 0, stream_id, m);
    let ft = http2::frame_bytes(1, 0x05, stream_id, t);
    assert(http2::reply_bytes(table, stream_id, reply) + rest == fh + (fm + (ft + rest))) by {
        lemma_regroup(fh, fm, ft, rest);
    }
    lemma_three_frames(stream_id, h, m, t, rest);
}

proof fn lemma_regroup(a: Seq<u8>, b: Seq<u8>, c: Seq<u8>, d: Seq<u8>)
    ensures
        a + b + c + d == a + (b + (c + d)),
{
    assert(a + b + c + d =~= a + (b + (c + d)));
}

proof fn lemma_three_frames(stream_id: u32, h: Seq<u8>, m: Seq<u8>, t: Seq<u8>, rest: Seq<u8>)
    requires
        stream_id < 0x8000_0000,
        h.len() < 0x100_0000,
        m.len() < 0x100_0000,
        t.len() < 0x100_0000,
        read_frames(rest) is Some,
    ensures
        read_frames(
            http2::frame_bytes(1, 0x04, stream_id, h) + (http2::frame_bytes(0, 0, stream_id, m) + (
            http2::frame_bytes(1, 0x05, stream_id, t) + rest)),
        ) == Some(
            seq![
                Frame { kind: FrameKind::Headers, flags: HeadFlags(0x04), stream_id, payload: h },
                Frame { kind: FrameKind::Data, flags: HeadFlags(0), stream_id, payload: m },
                Frame { kind: FrameKind::Headers, flags: HeadFlags(0x05), stream_id, payload: t },
            ] + read_frames(rest)->0,
        ),
{
    let ft = http2::frame_bytes(1, 0x05, stream_id, t);
    let fm = http2::frame_bytes(0, 0, stream_id, m);
    let a = Frame { kind: FrameKind::Headers, flags: HeadFlags(0x04), stream_id, payload: h };
    let b = Frame { kind: FrameKind::Data, flags: HeadFlags(0), stream_id, payload: m };
    let c = Frame { kind: FrameKind::Headers, flags: HeadFlags(0x05), stream_id, payload: t };
    let r = read_frames(rest)->0;
    law_frames_in_order(1, 0x05, stream_id, t, rest);
    law_frames_in_order(0, 0, stream_id, m, ft + rest);
    law_frames_in_order(1, 0x04, stream_id, h, fm + (ft + rest));
    assert(seq![a] + (seq![b] + (seq![c] + r)) =~= seq![a, b, c] + r);
}

/// A status is read as one frame on its stream, which ends it.
pub proof fn law_status_frame(
    table: Seq<HeaderField>,
    stream_id: u32,
    status: StatusView,
    rest: Seq<u8>,
)
    requires
        stream_id < 0x8000_0000,
        http2::status_headers(table, status).len() < 0x100_0000,
        read_frames(rest) is Some,
    ensures
        read_frames(
            response_end::job_bytes(table, JobView::Status { stream_id, status }) + rest,
        ) == Some(
            seq![
                Frame {
                    kind: FrameKind::Headers,
                    flags: HeadFlags(0x05),
                    stream_id,
                    payload: http2::status_headers(table, status),
                },
            ] + read_frames(rest)->0,
        ),
{
    law_frames_in_order(1, 0x05, stream_id, http2::status_headers(table, status), rest);
}

/// From its second use on, a header that is stored on first use is sent as an index.
pub proof fn law_second_use_is_index(table: Seq<HeaderField>, field: HeaderField)
    ensures
        hpack_encoder::table_with(table, field).contains(field),
        hpack_encoder::table_with(hpack_encoder::table_with(table, field), field)
            == hpack_encoder::table_with(table, field),
        hpack_encoder::stored_field_bytes(hpack_encoder::table_with(table, field), field)
            == hpack_encoder::index_bytes(
            hpack_encoder::dynamic_table_index(
                hpack_encoder::table_with(table, field).index_of(field),
            ),
        ),
{
    if !table.contains(field) {
        assert((seq![field] + table)[0] == field);
    }
}

} // verus!
