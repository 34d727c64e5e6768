//! What each kind of frame does to the requests of a connection, and what it leaves alone.
use crate::connection_laws;
use crate::connection_model;
use crate::connection_model::{ActionView, ConnectionView, Outcome, StreamView};
use crate::error::ErrorView;
use crate::grpc_message;
use crate::grpc_message::GrpcEncoding;
use crate::http2;
use crate::http2::{Frame, FrameKind, HeadFlags};
use crate::http2_laws;
use crate::route;
use crate::route::PathView;
use vstd::prelude::*;

verus! {

/// The requests on all streams but one, in their order.
pub open spec fn others(streams: Seq<StreamView>, id: u32) -> Seq<StreamView> {
    streams.filter(|s: StreamView| s.id != id)
}

/// Whether a request is open on this stream.
pub open spec fn is_open(streams: Seq<StreamView>, id: u32) -> bool {
    exists|i: int| 0 <= i < streams.len() && (#[trigger] streams[i]).id == id
}

proof fn lemma_others_all(streams: Seq<StreamView>, id: u32)
    requires
        forall|i: int| 0 <= i < streams.len() ==> (#[trigger] streams[i]).id != id,
    ensures
        others(streams, id) == streams,
    decreases streams.len(),
{
    reveal(Seq::filter);
    if streams.len() > 0 {
        let front = streams.drop_last();
        assert forall|i: int| 0 <= i < front.len() implies (#[trigger] front[i]).id != id by {
            assert(front[i] == streams[i]);
        }
        lemma_others_all(front, id);
        assert(front.push(streams.last()) =~= streams);
    } else {
        assert(streams =~= Seq::empty());
    }
}

proof fn lemma_others_one(streams: Seq<StreamView>, id: u32, k: int)
    requires
        0 <= k < streams.len(),
        streams[k].id == id,
        forall|i: int| 0 <= i < streams.len() && i != k ==> (#[trigger] streams[i]).id != id,
    ensures
        others(streams, id) == streams.remove(k),
    decreases streams.len(),
{
    reveal(Seq::filter);
    let front = streams.drop_last();
    assert forall|i: int| 0 <= i < front.len() && i != k implies (#[trigger] front[i]).id != id by {
        assert(front[i] == streams[i]);
    }
    if k == streams.len() - 1 {
        lemma_others_all(front, id);
        assert(front =~= streams.remove(k));
    } else {
        assert(front[k] == streams[k]);
        lemma_others_one(front, id, k);
        assert(streams.last().id != id);
        assert(front.remove(k).push(streams.last()) =~= streams.remove(k));
    }
}

/// In a connection that is in order, a stream stands at most once among the requests.
proof fn lemma_position(c: ConnectionView, id: u32)
    requires
        connection_laws::inv(c),
    ensures
        match connection_model::position(c.streams, id) {
            Some(k) => 0 <= k < c.streams.len() && c.streams[k].id == id && others(c.streams, id)
                == c.streams.remove(k) && forall|i: int|
                0 <= i < c.streams.len() && i != k ==> (#[trigger] c.streams[i]).id != id,
            None => others(c.streams, id) == c.streams && !is_open(c.streams, id),
        },
{
    connection_model::lemma_position_from(c.streams, id, 0);
    match connection_model::position(c.streams, id) {
        Some(k) => {
            assert forall|i: int| 0 <= i < c.streams.len() && i != k implies (
            #[trigger] c.streams[i]).id != id by {
                if i < k {
                    assert(c.streams[i].id < c.streams[k].id);
                } else {
                    assert(c.streams[k].id < c.streams[i].id);
                }
            }
            lemma_others_one(c.streams, id, k);
        },
        None => {
            lemma_others_all(c.streams, id);
        },
    }
}

/// A request that the client resets is taken out; every other request stays, in the same
/// order, with its service, method, encoding and body so far, and nothing else changes.
pub proof fn law_reset_leaves_others(
    c: ConnectionView,
    flags: HeadFlags,
    stream_id: u32,
    payload: Seq<u8>,
)
    requires
        connection_laws::inv(c),
        c.continuation is None,
        payload.len() == 4,
    ensures
        connection_model::on_frame(c, FrameKind::Reset, flags, stream_id, payload) == (
            ConnectionView { streams: others(c.streams, stream_id), ..c },
            Ok::<ActionView, ErrorView>(ActionView::Nothing),
        ),
{
    lemma_position(c, stream_id);
}

/// What a body that is complete, with `body` as its bytes, leads to for this request.
pub open spec fn is_answered(
    r: Result<ActionView, ErrorView>,
    s: StreamView,
    body: Seq<u8>,
) -> bool {
    match grpc_message::grpc_message(body, s.encoding) {
        Ok(message) => r == Ok::<ActionView, ErrorView>(
            ActionView::Call {
                isvc: s.isvc,
                req_disc: s.req_disc,
                stream_id: s.id,
                data: message,
            },
        ),
        Err(e) => r == Err::<ActionView, ErrorView>(e),
    }
}

/// What a DATA frame leaves alone, whichever stream it is on: it is counted with its whole
/// payload, padding and all, and touches nothing but the requests and the counts.
pub open spec fn counted_only(
    before: ConnectionView,
    after: ConnectionView,
    stream_id: u32,
    payload: Seq<u8>,
) -> bool {
    after == ConnectionView {
        streams: after.streams,
        data_len: before.data_len + payload.len(),
        stream_data_lens: before.stream_data_lens.push((stream_id, payload.len() as usize)),
        ..before
    }
}

/// A DATA frame that does not end the stream adds its data to the body of the request on
/// its stream, where there is one. Every other request is as it was.
pub proof fn law_data_goes_on(
    c: ConnectionView,
    flags: HeadFlags,
    stream_id: u32,
    payload: Seq<u8>,
    data: Seq<u8>,
)
    requires
        connection_laws::inv(c),
        c.continuation is None,
        stream_id != 0,
        payload.len() <= usize::MAX,
        flags.0 % 2 == 0,
        http2::without_padding(flags, payload) == Ok::<Seq<u8>, ErrorView>(data),
    ensures
        ({
            let o = connection_model::on_frame(c, FrameKind::Data, flags, stream_id, payload);
            &&& o.1 == Ok::<ActionView, ErrorView>(ActionView::Nothing)
            &&& counted_only(c, o.0, stream_id, payload)
            &&& o.0.streams.len() == c.streams.len()
            &&& forall|i: int|
                0 <= i < c.streams.len() ==> #[trigger] o.0.streams[i] == if c.streams[i].id
                    == stream_id {
                    StreamView { data: c.streams[i].data + data, ..c.streams[i] }
                } else {
                    c.streams[i]
                }
        }),
{
    http2_laws::law_flag_bits(flags.0);
    lemma_position(c, stream_id);
    let grown = connection_model::with_data(c.streams, stream_id, data);
    connection_model::lemma_position_same(c.streams, grown, stream_id, 0);
}

/// A DATA frame that ends the stream of an open request takes that request out, and its
/// service gets the message that the body is, with this frame's data at its end. Every
/// other request stays as it was, in the same order.
pub proof fn law_data_ends(
    c: ConnectionView,
    flags: HeadFlags,
    stream_id: u32,
    payload: Seq<u8>,
    data: Seq<u8>,
    i: int,
)
    requires
        connection_laws::inv(c),
        c.continuation is None,
        stream_id != 0,
        payload.len() <= usize::MAX,
        flags.0 % 2 == 1,
        http2::without_padding(flags, payload) == Ok::<Seq<u8>, ErrorView>(data),
        0 <= i < c.streams.len(),
        c.streams[i].id == stream_id,
    ensures
        ({
            let o = connection_model::on_frame(c, FrameKind::Data, flags, stream_id, payload);
            &&& is_answered(o.1, c.streams[i], c.streams[i].data + data)
            &&& counted_only(c, o.0, stream_id, payload)
            &&& o.0.streams == others(c.streams, stream_id)
        }),
{
    http2_laws::law_flag_bits(flags.0);
    lemma_position(c, stream_id);
    let grown = connection_model::with_data(c.streams, stream_id, data);
    connection_model::lemma_position_same(c.streams, grown, stream_id, 0);
    assert(connection_model::position(c.streams, stream_id) == Some(i));
    assert(grown.remove(i) =~= c.streams.remove(i));
}

/// A DATA frame on a stream without an open request is counted, and that is all.
pub proof fn law_data_for_nobody(
    c: ConnectionView,
    flags: HeadFlags,
    stream_id: u32,
    payload: Seq<u8>,
)
    requires
        connection_laws::inv(c),
        c.continuation is None,
        stream_id != 0,
        payload.len() <= usize::MAX,
        http2::without_padding(flags, payload) is Ok,
        !is_open(c.streams, stream_id),
    ensures
        ({
            let o = connection_model::on_frame(c, FrameKind::Data, flags, stream_id, payload);
            &&& o.1 == Ok::<ActionView, ErrorView>(ActionView::Nothing)
            &&& counted_only(c, o.0, stream_id, payload)
            &&& o.0.streams == c.streams
        }),
{
    lemma_position(c, stream_id);
    if let Some(k) = connection_model::position(c.streams, stream_id) {
        assert(is_open(c.streams, stream_id));
    }
}

/// A padded DATA frame does to the requests what the same frame without padding does.
pub proof fn law_padding_makes_no_difference(
    c: ConnectionView,
    flags: u8,
    stream_id: u32,
    data: Seq<u8>,
    padding: Seq<u8>,
)
    requires
        flags / 8 % 2 == 0,
        flags + 8 <= 255,
        padding.len() <= 255,
        data.len() + 256 <= usize::MAX,
    ensures
        ({
            let plain = connection_model::on_frame(
                c,
                FrameKind::Data,
                HeadFlags(flags),
                stream_id,
                data,
            );
            let padded = connection_model::on_frame(
                c,
                FrameKind::Data,
                HeadFlags((flags + 8) as u8),
                stream_id,
                http2_laws::padded(data, padding),
            );
            &&& padded.1 == plain.1
            &&& padded.0.streams == plain.0.streams
        }),
{
    let more = (flags + 8) as u8;
    http2_laws::law_flag_bits(flags);
    http2_laws::law_flag_bits(more);
    http2_laws::law_padding_taken_off(HeadFlags(more), data, padding);
    assert(more % 2 == flags % 2);
}

/// A payload with too little behind its padding length is refused, and nothing changes.
pub proof fn law_data_refused(
    c: ConnectionView,
    flags: HeadFlags,
    stream_id: u32,
    payload: Seq<u8>,
    e: ErrorView,
)
    requires
        c.continuation is None,
        stream_id != 0,
        http2::without_padding(flags, payload) == Err::<Seq<u8>, ErrorView>(e),
    ensures
        connection_model::on_frame(c, FrameKind::Data, flags, stream_id, payload) == (
            c,
            Err::<ActionView, ErrorView>(e),
        ),
{
}

/// Whether an outcome is an HTTP/2 error with these words, and changes nothing.
pub open spec fn is_refused(c: ConnectionView, o: Outcome, words: Seq<char>) -> bool {
    o == (c, Err::<ActionView, ErrorView>(ErrorView::InvalidHttp2(words)))
}

/// A request has to be on an odd stream above every one that was seen, and not on stream
/// 0; otherwise the frame is refused and nothing changes.
pub proof fn law_headers_refused(
    c: ConnectionView,
    flags: HeadFlags,
    stream_id: u32,
    payload: Seq<u8>,
)
    requires
        c.continuation is None,
    ensures
        ({
            let o = connection_model::on_frame(c, FrameKind::Headers, flags, stream_id, payload);
            &&& stream_id == 0 ==> is_refused(c, o, "DATA/HEADERS must not be on stream 0"@)
            &&& stream_id != 0 && stream_id % 2 == 0 ==> is_refused(
                c,
                o,
                "client stream ID must be odd"@,
            )
            &&& stream_id % 2 == 1 && stream_id <= c.last_client_stream_id ==> is_refused(
                c,
                o,
                "client stream ID must be monotonically increasing"@,
            )
            &&& stream_id % 2 == 1 && stream_id > c.last_client_stream_id
                ==> o.0.last_client_stream_id == stream_id && o.0.streams == c.streams
        }),
{
}

/// A request on a stream of its own, with room for it: its header block, where it is
/// complete, is asked about; where it is not, the rest is waited for. Whether the request
/// ends with its headers is kept. Nothing else changes.
pub proof fn law_headers_taken(
    c: ConnectionView,
    flags: HeadFlags,
    stream_id: u32,
    payload: Seq<u8>,
)
    requires
        c.continuation is None,
        c.streams.len() < c.max_streams,
        stream_id % 2 == 1,
        stream_id > c.last_client_stream_id,
    ensures
        ({
            let o = connection_model::on_frame(c, FrameKind::Headers, flags, stream_id, payload);
            let seen = ConnectionView { last_client_stream_id: stream_id, ..c };
            let ends = flags.0 % 2 == 1;
            match http2::header_fragment(flags, payload) {
                Err(e) => o == (seen, Err::<ActionView, ErrorView>(e)),
                Ok(block) => if flags.0 / 4 % 2 == 1 {
                    o == (
                        ConnectionView { awaiting: Some((stream_id, ends)), ..seen },
                        Ok::<ActionView, ErrorView>(ActionView::ReadHeaders { block }),
                    )
                } else {
                    o == (
                        ConnectionView { continuation: Some((stream_id, ends, block)), ..seen },
                        Ok::<ActionView, ErrorView>(ActionView::Nothing),
                    )
                },
            }
        }),
{
    http2_laws::law_flag_bits(flags.0);
}

/// Whether it is asked to write this frame, and nothing but this frame.
pub open spec fn writes(r: Result<ActionView, ErrorView>, f: Frame) -> bool {
    match r {
        Ok(ActionView::Write { buf }) => buf.len() == 9 + f.payload.len() && http2::read_frame(buf)
            == Some(f),
        _ => false,
    }
}

/// Whether it is asked to write an end of this stream, with this code.
pub open spec fn writes_reset(r: Result<ActionView, ErrorView>, id: u32, code: nat) -> bool {
    exists|payload: Seq<u8>|
        payload.len() == 4 && #[trigger] http2_laws::value_of(payload) == code && writes(
            r,
            Frame { kind: FrameKind::Reset, flags: HeadFlags(0), stream_id: id, payload },
        )
}

/// A request without room for it is answered with an end of its stream, code 7; nothing of
/// it is kept but that it was seen.
pub proof fn law_headers_without_room(
    c: ConnectionView,
    flags: HeadFlags,
    stream_id: u32,
    payload: Seq<u8>,
)
    requires
        c.continuation is None,
        c.streams.len() >= c.max_streams,
        stream_id % 2 == 1,
        c.last_client_stream_id < stream_id < 0x8000_0000,
    ensures
        ({
            let o = connection_model::on_frame(c, FrameKind::Headers, flags, stream_id, payload);
            &&& o.0 == ConnectionView { last_client_stream_id: stream_id, ..c }
            &&& writes_reset(o.1, stream_id, 7)
        }),
{
    http2_laws::law_rst_stream_read(stream_id, 7);
    let f = http2::read_frame(http2::rst_stream_bytes(stream_id, 7))->0;
    assert(http2_laws::value_of(f.payload) == 7);
}

/// While a header block goes on: only a CONTINUATION frame on its stream is taken. Its
/// payload is added to the block, and where it ends the block, the whole of it is asked
/// about. The other requests are as they were.
pub proof fn law_block_goes_on(
    c: ConnectionView,
    kind: FrameKind,
    flags: HeadFlags,
    stream_id: u32,
    payload: Seq<u8>,
    id: u32,
    ends: bool,
    block: Seq<u8>,
)
    requires
        c.continuation == Some((id, ends, block)),
    ensures
        ({
            let o = connection_model::on_frame(c, kind, flags, stream_id, payload);
            &&& kind != FrameKind::Continuation ==> is_refused(
                c,
                o,
                "expected CONTINUATION frame"@,
            )
            &&& kind == FrameKind::Continuation && stream_id != id ==> is_refused(
                c,
                o,
                "CONTINUATION stream ID mismatch"@,
            )
            &&& kind == FrameKind::Continuation && stream_id == id ==> if flags.0 / 4 % 2 == 1 {
                o == (
                    ConnectionView { continuation: None, awaiting: Some((id, ends)), ..c },
                    Ok::<ActionView, ErrorView>(
                        ActionView::ReadHeaders { block: block + payload },
                    ),
                )
            } else {
                o == (
                    ConnectionView { continuation: Some((id, ends, block + payload)), ..c },
                    Ok::<ActionView, ErrorView>(ActionView::Nothing),
                )
            }
        }),
{
    http2_laws::law_flag_bits(flags.0);
}

/// Where no header block goes on there is nothing to continue.
pub proof fn law_no_block_to_continue(
    c: ConnectionView,
    flags: HeadFlags,
    stream_id: u32,
    payload: Seq<u8>,
)
    requires
        c.continuation is None,
    ensures
        is_refused(
            c,
            connection_model::on_frame(c, FrameKind::Continuation, flags, stream_id, payload),
            "unexpected CONTINUATION frame"@,
        ),
{
}

/// SETTINGS are acknowledged, a PING is answered with its own payload, and neither where it
/// is an acknowledgement itself. Both have to be on stream 0. Nothing changes.
pub proof fn law_settings_and_ping(
    c: ConnectionView,
    flags: HeadFlags,
    stream_id: u32,
    payload: Seq<u8>,
)
    requires
        c.continuation is None,
        payload.len() < 0x100_0000,
    ensures
        ({
            let settings = connection_model::on_frame(
                c,
                FrameKind::Settings,
                flags,
                stream_id,
                payload,
            );
            let ping = connection_model::on_frame(c, FrameKind::Ping, flags, stream_id, payload);
            let words = "SETTINGS/PING/GOAWAY must be on stream 0"@;
            &&& settings.0 == c && ping.0 == c
            &&& stream_id != 0 ==> is_refused(c, settings, words) && is_refused(c, ping, words)
            &&& stream_id == 0 && flags.0 % 2 == 1 ==> settings.1 == Ok::<ActionView, ErrorView>(
                ActionView::Nothing,
            ) && ping.1 == settings.1
            &&& stream_id == 0 && flags.0 % 2 == 0 ==> writes(
                settings.1,
                Frame {
                    kind: FrameKind::Settings,
                    flags: HeadFlags(1),
                    stream_id: 0,
                    payload: Seq::empty(),
                },
            )
            &&& stream_id == 0 && flags.0 % 2 == 0 ==> writes(
                ping.1,
                Frame { kind: FrameKind::Ping, flags: HeadFlags(1), stream_id: 0, payload },
            )
        }),
{
    http2_laws::law_flag_bits(flags.0);
    http2_laws::law_acknowledgements_read(payload);
}

/// GOAWAY on stream 0 closes the connection, where it has its eight bytes.
pub proof fn law_goaway(c: ConnectionView, flags: HeadFlags, stream_id: u32, payload: Seq<u8>)
    requires
        c.continuation is None,
    ensures
        ({
            let o = connection_model::on_frame(c, FrameKind::GoAway, flags, stream_id, payload);
            &&& stream_id != 0 ==> is_refused(c, o, "SETTINGS/PING/GOAWAY must be on stream 0"@)
            &&& stream_id == 0 && payload.len() < 8 ==> is_refused(
                c,
                o,
                "GOAWAY payload must be at least 8 bytes"@,
            )
            &&& stream_id == 0 && payload.len() >= 8 ==> o == (
                c,
                Ok::<ActionView, ErrorView>(ActionView::Close),
            )
        }),
{
}

/// WINDOW_UPDATE and RST_STREAM have four bytes. An increment is read without its top bit
/// and must not be zero; it is not used. Frames of the kinds that the server has no use
/// for are skipped.
pub proof fn law_other_frames(
    c: ConnectionView,
    kind: FrameKind,
    flags: HeadFlags,
    stream_id: u32,
    payload: Seq<u8>,
)
    requires
        c.continuation is None,
    ensures
        ({
            let o = connection_model::on_frame(c, kind, flags, stream_id, payload);
            &&& kind == FrameKind::Reset && payload.len() != 4 ==> is_refused(
                c,
                o,
                "RST_STREAM payload must be 4 bytes"@,
            )
            &&& kind == FrameKind::WindowUpdate && payload.len() != 4 ==> is_refused(
                c,
                o,
                "WINDOW_UPDATE payload must be 4 bytes"@,
            )
            &&& kind == FrameKind::WindowUpdate && payload.len() == 4 ==> if http2_laws::value_of(
                payload,
            ) % 0x8000_0000 == 0 {
                is_refused(c, o, "WINDOW_UPDATE increment must be non-zero"@)
            } else {
                o == (c, Ok::<ActionView, ErrorView>(ActionView::Nothing))
            }
            &&& kind == FrameKind::Priority || kind == FrameKind::PushPromise || kind
                == FrameKind::Unknown ==> o == (
                c,
                Ok::<ActionView, ErrorView>(ActionView::Nothing),
            )
        }),
{
    if payload.len() == 4 {
        http2_laws::lemma_value_of_four(payload);
        let top = payload[0] as int;
        let low = (top % 0x80) * 0x100_0000 + payload[1] * 0x1_0000 + payload[2] * 0x100
            + payload[3];
        assert(top % 0x80 + 0x80 * (top / 0x80) == top);
        assert(0 <= low < 0x8000_0000);
        assert(http2_laws::value_of(payload) == low + 0x8000_0000 * (top / 0x80));
        assert(http2_laws::value_of(payload) % 0x8000_0000 == low);
    }
}

/// No frame changes the limit or the routes that are cached, nor how far the parser has
/// come.
pub proof fn law_frames_leave_routes(
    c: ConnectionView,
    kind: FrameKind,
    flags: HeadFlags,
    stream_id: u32,
    payload: Seq<u8>,
)
    ensures
        ({
            let o = connection_model::on_frame(c, kind, flags, stream_id, payload);
            &&& o.0.max_streams == c.max_streams
            &&& o.0.route_cache == c.route_cache
            &&& o.0.parsing == c.parsing
        }),
{
}

/// Nor do any bytes that come in.
pub proof fn law_bytes_leave_routes(c: ConnectionView, bytes: Seq<u8>)
    ensures
        connection_model::run(c, bytes).state.max_streams == c.max_streams,
        connection_model::run(c, bytes).state.route_cache == c.route_cache,
    decreases bytes.len(),
{
    if bytes.len() > 0 {
        let (next, result) = connection_model::on_byte(c, bytes[0]);
        if result == Ok::<ActionView, ErrorView>(ActionView::Nothing) {
            law_bytes_leave_routes(next, bytes.skip(1));
        }
    }
}

/// Whether a request with these headers went where it should: one that ends with them is
/// handed over at once, with nothing as its message; another one is open from now on,
/// behind the others, with the encoding of its own headers and no body yet.
pub open spec fn went_to(
    c: ConnectionView,
    o: Outcome,
    isvc: usize,
    req_disc: usize,
    encoding: GrpcEncoding,
) -> bool {
    c.awaiting matches Some((id, ends)) && if ends {
        o.0.streams == c.streams && o.1 == Ok::<ActionView, ErrorView>(
            ActionView::Call { isvc, req_disc, stream_id: id, data: Seq::empty() },
        )
    } else {
        o.0.streams == c.streams.push(
            StreamView { id, isvc, req_disc, encoding, data: Seq::empty() },
        ) && o.1 == Ok::<ActionView, ErrorView>(ActionView::Nothing)
    }
}

/// Headers with a cached path lead to the route at that place, whatever the services
/// would say, and the cache stays as it is. A path that was spelt out leads to where the
/// services say, and their route goes behind those that are cached; one that none of them
/// knows is an error with that path in it, and is not cached. In each case the header
/// block is no longer waited for, and nothing else changes.
pub proof fn law_headers_answered(
    c: ConnectionView,
    path: PathView,
    encoding: GrpcEncoding,
    route: Option<(usize, usize)>,
)
    requires
        c.awaiting is Some,
        route::path_within(path, c.route_cache),
    ensures
        ({
            let o = connection_model::on_headers_read(c, path, encoding, route);
            &&& o.0 == ConnectionView {
                streams: o.0.streams,
                route_cache: o.0.route_cache,
                awaiting: None,
                ..c
            }
            &&& match path {
                PathView::Cached(n) => {
                    &&& went_to(
                        c,
                        o,
                        c.route_cache[n as int].0,
                        c.route_cache[n as int].1,
                        encoding,
                    )
                    &&& o.0.route_cache == c.route_cache
                },
                PathView::Plain(p) => match route {
                    Some((isvc, req_disc)) => {
                        &&& went_to(c, o, isvc, req_disc, encoding)
                        &&& o.0.route_cache == c.route_cache + seq![(isvc, req_disc)]
                    },
                    None => {
                        &&& o.1 == Err::<ActionView, ErrorView>(
                            ErrorView::UnknownMethod(route::lossy_text(p)),
                        )
                        &&& o.0.streams == c.streams
                        &&& o.0.route_cache == c.route_cache
                    },
                },
            }
        }),
{
    if let Some(r) = route {
        assert(c.route_cache.push(r) =~= c.route_cache + seq![r]);
    }
}

} // verus!
