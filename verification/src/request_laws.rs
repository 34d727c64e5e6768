//! What becomes of a request that a client sends as it should.
use crate::connection_laws;
use crate::connection_model;
use crate::connection_model::{ActionView, ConnectionView, Parsing, StreamView};
use crate::error::ErrorView;
use crate::grpc_message;
use crate::grpc_message::GrpcEncoding;
use crate::http2;
use crate::http2::{Frame, FrameKind, HeadFlags};
use crate::route::PathView;
use vstd::prelude::*;

verus! {

proof fn lemma_flags()
    ensures
        !HeadFlags(0).has(0x01),
        !HeadFlags(0).has(0x04),
        !HeadFlags(0).has(0x08),
        !HeadFlags(0).has(0x20),
        !HeadFlags(0x01).has(0x04),
        !HeadFlags(0x01).has(0x20),
        HeadFlags(0x01).has(0x01),
        !HeadFlags(0x01).has(0x08),
        HeadFlags(0x04).has(0x04),
        !HeadFlags(0x04).has(0x01),
        !HeadFlags(0x04).has(0x08),
        !HeadFlags(0x04).has(0x20),
        HeadFlags(0x05).has(0x04),
        HeadFlags(0x05).has(0x01),
        !HeadFlags(0x05).has(0x08),
        !HeadFlags(0x05).has(0x20),
{
    assert(0u8 & 0x01 == 0 && 0u8 & 0x04 == 0 && 0u8 & 0x08 == 0 && 0u8 & 0x20 == 0)
        by (bit_vector);
    assert(0x01u8 & 0x01 != 0 && 0x01u8 & 0x04 == 0 && 0x01u8 & 0x08 == 0 && 0x01u8 & 0x20 == 0)
        by (bit_vector);
    assert(0x04u8 & 0x04 != 0 && 0x04u8 & 0x01 == 0 && 0x04u8 & 0x08 == 0 && 0x04u8 & 0x20 == 0)
        by (bit_vector);
    assert(0x05u8 & 0x04 != 0 && 0x05u8 & 0x01 != 0 && 0x05u8 & 0x08 == 0 && 0x05u8 & 0x20 == 0)
        by (bit_vector);
}

/// The pieces put together again.
pub open spec fn joined(parts: Seq<Seq<u8>>) -> Seq<u8>
    decreases parts.len(),
{
    if parts.len() == 0 {
        Seq::empty()
    } else {
        parts[0] + joined(parts.skip(1))
    }
}

/// A request body in DATA frames, one for each piece. The last one ends the stream.
pub open spec fn body_frames(stream_id: u32, parts: Seq<Seq<u8>>) -> Seq<u8>
    decreases parts.len(),
{
    if parts.len() == 0 {
        Seq::empty()
    } else if parts.len() == 1 {
        http2::frame_bytes(0, 0x01, stream_id, parts[0])
    } else {
        http2::frame_bytes(0, 0, stream_id, parts[0]) + body_frames(stream_id, parts.skip(1))
    }
}

/// Whether each piece fits into a frame.
pub open spec fn parts_fit(parts: Seq<Seq<u8>>) -> bool {
    forall|i: int| 0 <= i < parts.len() ==> (#[trigger] parts[i]).len() < 0x100_0000
}

/// What the service gets of a request: the message, or nothing where there is none.
pub open spec fn handed_over(s: StreamView, body: Seq<u8>) -> Result<ActionView, ErrorView> {
    match grpc_message::grpc_message(body, s.encoding) {
        Ok(data) => Ok(
            ActionView::Call { isvc: s.isvc, req_disc: s.req_disc, stream_id: s.id, data },
        ),
        Err(e) => Err(e),
    }
}

/// The body of an open request, in however many DATA frames it comes, ends the request,
/// and the service gets the message that is in it.
pub proof fn law_body_in_parts(c: ConnectionView, stream_id: u32, parts: Seq<Seq<u8>>)
    requires
        c.parsing == Parsing::Header(Seq::empty()),
        c.continuation is None,
        0 < stream_id < 0x8000_0000,
        connection_model::position(c.streams, stream_id) is Some,
        parts.len() > 0,
        parts_fit(parts),
    ensures
        ({
            let i = connection_model::position(c.streams, stream_id)->0;
            let run = connection_model::run(c, body_frames(stream_id, parts));
            &&& run.result == handed_over(c.streams[i], c.streams[i].data + joined(parts))
            &&& run.taken == body_frames(stream_id, parts).len()
            &&& run.state.streams == c.streams.remove(i)
        }),
    decreases parts.len(),
{
    lemma_flags();
    connection_model::lemma_position_from(c.streams, stream_id, 0);
    let i = connection_model::position(c.streams, stream_id)->0;
    let part = parts[0];
    let flags: u8 = if parts.len() == 1 {
        0x01
    } else {
        0
    };
    let head = http2::head_bytes(part.len(), 0, flags, stream_id);
    http2::law_head_read_back(part.len(), 0, flags, stream_id);
    connection_laws::law_whole_frame(c, head, part);
    let grown = connection_model::with_data(c.streams, stream_id, part);
    connection_model::lemma_position_same(c.streams, grown, stream_id, 0);
    let next = connection_model::run(c, head + part).state;
    if parts.len() == 1 {
        assert(joined(parts.skip(1)) =~= Seq::empty());
        assert(part + joined(parts.skip(1)) =~= part);
        assert(grown.remove(i) =~= c.streams.remove(i));
    } else {
        let rest = parts.skip(1);
        assert forall|k: int| 0 <= k < rest.len() implies (#[trigger] rest[k]).len()
            < 0x100_0000 by {
            assert(rest[k] == parts[k + 1]);
        }
        law_body_in_parts(next, stream_id, rest);
        connection_laws::law_cut_anywhere(c, head + part, body_frames(stream_id, rest));
        assert(c.streams[i].data + part + joined(rest) =~= c.streams[i].data + joined(parts));
        assert(grown.remove(i) =~= c.streams.remove(i));
    }
}

/// The rest of a header block in CONTINUATION frames, one for each piece. The last one
/// ends the block.
pub open spec fn continuation_frames(stream_id: u32, parts: Seq<Seq<u8>>) -> Seq<u8>
    decreases parts.len(),
{
    if parts.len() == 0 {
        Seq::empty()
    } else if parts.len() == 1 {
        http2::frame_bytes(9, 0x04, stream_id, parts[0])
    } else {
        http2::frame_bytes(9, 0, stream_id, parts[0]) + continuation_frames(
            stream_id,
            parts.skip(1),
        )
    }
}

proof fn lemma_continuation_in_parts(
    c: ConnectionView,
    stream_id: u32,
    end_stream: bool,
    block: Seq<u8>,
    parts: Seq<Seq<u8>>,
)
    requires
        c.parsing == Parsing::Header(Seq::empty()),
        c.continuation == Some((stream_id, end_stream, block)),
        stream_id < 0x8000_0000,
        parts.len() > 0,
        parts_fit(parts),
    ensures
        ({
            let run = connection_model::run(c, continuation_frames(stream_id, parts));
            &&& run.result == Ok::<ActionView, ErrorView>(
                ActionView::ReadHeaders { block: block + joined(parts) },
            )
            &&& run.taken == continuation_frames(stream_id, parts).len()
            &&& run.state == ConnectionView {
                continuation: None,
                awaiting: Some((stream_id, end_stream)),
                ..c
            }
        }),
    decreases parts.len(),
{
    lemma_flags();
    let part = parts[0];
    let flags: u8 = if parts.len() == 1 {
        0x04
    } else {
        0
    };
    let head = http2::head_bytes(part.len(), 9, flags, stream_id);
    http2::law_head_read_back(part.len(), 9, flags, stream_id);
    connection_laws::law_whole_frame(c, head, part);
    let rest = parts.skip(1);
    assert(block + part + joined(rest) =~= block + joined(parts));
    if parts.len() == 1 {
        assert(joined(rest) =~= Seq::empty());
        assert(block + joined(parts) =~= block + part);
    } else {
        assert forall|k: int| 0 <= k < rest.len() implies (#[trigger] rest[k]).len()
            < 0x100_0000 by {
            assert(rest[k] == parts[k + 1]);
        }
        let next = connection_model::run(c, head + part).state;
        lemma_continuation_in_parts(next, stream_id, end_stream, block + part, rest);
        connection_laws::law_cut_anywhere(c, head + part, continuation_frames(stream_id, rest));
    }
}

/// A header block that is cut into a HEADERS frame and CONTINUATION frames is asked
/// about as a whole, as if it had come in one frame.
pub proof fn law_headers_in_parts(
    c: ConnectionView,
    stream_id: u32,
    end_stream: bool,
    first: Seq<u8>,
    parts: Seq<Seq<u8>>,
)
    requires
        connection_laws::pending(c) is None,
        c.parsing == Parsing::Header(Seq::empty()),
        c.streams.len() < c.max_streams,
        stream_id % 2 == 1,
        c.last_client_stream_id < stream_id < 0x8000_0000,
        first.len() < 0x100_0000,
        parts.len() > 0,
        parts_fit(parts),
    ensures
        ({
            let flags: u8 = if end_stream {
                0x01
            } else {
                0
            };
            let bytes = http2::frame_bytes(1, flags, stream_id, first) + continuation_frames(
                stream_id,
                parts,
            );
            let run = connection_model::run(c, bytes);
            &&& run.result == Ok::<ActionView, ErrorView>(
                ActionView::ReadHeaders { block: first + joined(parts) },
            )
            &&& run.taken == bytes.len()
            &&& run.state == ConnectionView {
                last_client_stream_id: stream_id,
                awaiting: Some((stream_id, end_stream)),
                ..c
            }
        }),
{
    lemma_flags();
    let flags: u8 = if end_stream {
        0x01
    } else {
        0
    };
    let head = http2::head_bytes(first.len(), 1, flags, stream_id);
    http2::law_head_read_back(first.len(), 1, flags, stream_id);
    connection_laws::law_whole_frame(c, head, first);
    let next = connection_model::run(c, head + first).state;
    lemma_continuation_in_parts(next, stream_id, end_stream, first, parts);
    connection_laws::law_cut_anywhere(c, head + first, continuation_frames(stream_id, parts));
}

/// The state behind a series of frames, and what came of each.
pub open spec fn on_frames(c: ConnectionView, frames: Seq<Frame>) -> (
    ConnectionView,
    Seq<Result<ActionView, ErrorView>>,
)
    decreases frames.len(),
{
    if frames.len() == 0 {
        (c, Seq::empty())
    } else {
        let (before, results) = on_frames(c, frames.drop_last());
        let f = frames.last();
        let (after, result) = connection_model::on_frame(
            before,
            f.kind,
            f.flags,
            f.stream_id,
            f.payload,
        );
        (after, results.push(result))
    }
}

/// A header block in a HEADERS frame and CONTINUATION frames, the last of which ends it.
pub open spec fn header_frames(
    stream_id: u32,
    end_stream: bool,
    first: Seq<u8>,
    parts: Seq<Seq<u8>>,
) -> Seq<Frame> {
    seq![
        Frame {
            kind: FrameKind::Headers,
            flags: HeadFlags(
                if end_stream {
                    0x01
                } else {
                    0
                },
            ),
            stream_id,
            payload: first,
        },
    ] + Seq::new(
        parts.len(),
        |i: int|
            Frame {
                kind: FrameKind::Continuation,
                flags: HeadFlags(
                    if i == parts.len() - 1 {
                        0x04
                    } else {
                        0
                    },
                ),
                stream_id,
                payload: parts[i],
            },
    )
}

proof fn lemma_joined_next(parts: Seq<Seq<u8>>, part: Seq<u8>)
    ensures
        joined(parts.push(part)) == joined(parts) + part,
    decreases parts.len(),
{
    let more = parts.push(part);
    if parts.len() == 0 {
        assert(more.skip(1) =~= Seq::empty());
        reveal_with_fuel(joined, 2);
        assert(part + Seq::<u8>::empty() =~= Seq::<u8>::empty() + part);
    } else {
        assert(more.skip(1) =~= parts.skip(1).push(part));
        lemma_joined_next(parts.skip(1), part);
        assert(parts[0] + (joined(parts.skip(1)) + part) =~= parts[0] + joined(parts.skip(1))
            + part);
    }
}

/// While the frames of a header block come in, nothing is asked for and the other requests
/// stay as they are: `n` of the CONTINUATION frames, though not the last, are there.
pub proof fn law_header_frames_so_far(
    c: ConnectionView,
    stream_id: u32,
    end_stream: bool,
    first: Seq<u8>,
    parts: Seq<Seq<u8>>,
    n: nat,
)
    requires
        connection_laws::pending(c) is None,
        c.streams.len() < c.max_streams,
        stream_id % 2 == 1,
        c.last_client_stream_id < stream_id,
        n < parts.len(),
    ensures
        ({
            let frames = header_frames(stream_id, end_stream, first, parts);
            let (state, results) = on_frames(c, frames.take(n as int + 1));
            &&& state == ConnectionView {
                last_client_stream_id: stream_id,
                continuation: Some((stream_id, end_stream, first + joined(parts.take(n as int)))),
                ..c
            }
            &&& results.len() == n + 1
            &&& forall|i: int|
                0 <= i <= n ==> #[trigger] results[i] == Ok::<ActionView, ErrorView>(
                    ActionView::Nothing,
                )
        }),
    decreases n,
{
    lemma_flags();
    let frames = header_frames(stream_id, end_stream, first, parts);
    let now = frames.take(n as int + 1);
    assert(now.drop_last() =~= frames.take(n as int));
    assert(now.last() == frames[n as int]);
    if n == 0 {
        assert(frames.take(0) =~= Seq::empty());
        assert(parts.take(0) =~= Seq::empty());
        assert(first + Seq::<u8>::empty() =~= first);
    } else {
        let m = (n - 1) as nat;
        law_header_frames_so_far(c, stream_id, end_stream, first, parts, m);
        assert(parts.take(n as int) =~= parts.take(m as int).push(parts[m as int]));
        lemma_joined_next(parts.take(m as int), parts[m as int]);
        assert(first + joined(parts.take(m as int)) + parts[m as int] =~= first + joined(
            parts.take(n as int),
        ));
    }
}

/// A header block that is cut into a HEADERS frame and CONTINUATION frames leads to the
/// same state, and with its last frame to the same request for action, as the whole block
/// in one HEADERS frame.
pub proof fn law_header_frames(
    c: ConnectionView,
    stream_id: u32,
    end_stream: bool,
    first: Seq<u8>,
    parts: Seq<Seq<u8>>,
)
    requires
        connection_laws::pending(c) is None,
        c.streams.len() < c.max_streams,
        stream_id % 2 == 1,
        c.last_client_stream_id < stream_id,
        parts.len() > 0,
    ensures
        ({
            let whole = connection_model::on_frame(
                c,
                FrameKind::Headers,
                HeadFlags(
                    if end_stream {
                        0x05
                    } else {
                        0x04
                    },
                ),
                stream_id,
                first + joined(parts),
            );
            let (state, results) = on_frames(
                c,
                header_frames(stream_id, end_stream, first, parts),
            );
            &&& state == whole.0
            &&& results.last() == whole.1
            &&& whole.1 == Ok::<ActionView, ErrorView>(
                ActionView::ReadHeaders { block: first + joined(parts) },
            )
        }),
{
    lemma_flags();
    let frames = header_frames(stream_id, end_stream, first, parts);
    let n = (parts.len() - 1) as nat;
    law_header_frames_so_far(c, stream_id, end_stream, first, parts, n);
    assert(frames.drop_last() =~= frames.take(n as int + 1));
    assert(parts =~= parts.take(n as int).push(parts[n as int]));
    lemma_joined_next(parts.take(n as int), parts[n as int]);
    assert(first + joined(parts.take(n as int)) + parts[n as int] =~= first + joined(parts));
}

/// A request whose path leads to a service reaches that service: its headers are asked
/// for, and then, with the last DATA frame of its body, the message is handed over. The
/// other requests are as they were.
pub proof fn law_request_reaches_its_service(
    c: ConnectionView,
    stream_id: u32,
    block: Seq<u8>,
    path: Seq<u8>,
    encoding: GrpcEncoding,
    route: (usize, usize),
    parts: Seq<Seq<u8>>,
)
    requires
        connection_laws::inv(c),
        connection_laws::pending(c) is None,
        c.parsing == Parsing::Header(Seq::empty()),
        c.streams.len() < c.max_streams,
        stream_id % 2 == 1,
        c.last_client_stream_id < stream_id < 0x8000_0000,
        block.len() < 0x100_0000,
        parts.len() > 0,
        parts_fit(parts),
    ensures
        ({
            let (isvc, req_disc) = route;
            let asked = connection_model::run(c, http2::frame_bytes(1, 0x04, stream_id, block));
            let opened = connection_model::on_headers_read(
                asked.state,
                PathView::Plain(path),
                encoding,
                Some(route),
            );
            let done = connection_model::run(opened.0, body_frames(stream_id, parts));
            &&& asked.result == Ok::<ActionView, ErrorView>(ActionView::ReadHeaders { block })
            &&& opened.1 == Ok::<ActionView, ErrorView>(ActionView::Nothing)
            &&& done.result == match grpc_message::grpc_message(joined(parts), encoding) {
                Ok(data) => Ok::<ActionView, ErrorView>(
                    ActionView::Call { isvc, req_disc, stream_id, data },
                ),
                Err(e) => Err(e),
            }
            &&& done.state.streams == c.streams
        }),
{
    lemma_flags();
    let head = http2::head_bytes(block.len(), 1, 0x04, stream_id);
    http2::law_head_read_back(block.len(), 1, 0x04, stream_id);
    connection_laws::law_whole_frame(c, head, block);
    let asked = connection_model::run(c, http2::frame_bytes(1, 0x04, stream_id, block));
    let opened = connection_model::on_headers_read(
        asked.state,
        PathView::Plain(path),
        encoding,
        Some(route),
    );
    connection_model::lemma_position_from(opened.0.streams, stream_id, 0);
    assert(opened.0.streams.last().id == stream_id);
    assert(opened.0.streams[c.streams.len() as int].id == stream_id);
    law_body_in_parts(opened.0, stream_id, parts);
    assert(Seq::<u8>::empty() + joined(parts) =~= joined(parts));
    assert(opened.0.streams.remove(c.streams.len() as int) =~= c.streams);
}

/// A request without a body reaches its service with its headers alone.
pub proof fn law_bare_request_reaches_its_service(
    c: ConnectionView,
    stream_id: u32,
    block: Seq<u8>,
    path: Seq<u8>,
    encoding: GrpcEncoding,
    route: (usize, usize),
)
    requires
        connection_laws::inv(c),
        connection_laws::pending(c) is None,
        c.parsing == Parsing::Header(Seq::empty()),
        c.streams.len() < c.max_streams,
        stream_id % 2 == 1,
        c.last_client_stream_id < stream_id < 0x8000_0000,
        block.len() < 0x100_0000,
    ensures
        ({
            let (isvc, req_disc) = route;
            let asked = connection_model::run(c, http2::frame_bytes(1, 0x05, stream_id, block));
            let called = connection_model::on_headers_read(
                asked.state,
                PathView::Plain(path),
                encoding,
                Some(route),
            );
            &&& asked.result == Ok::<ActionView, ErrorView>(ActionView::ReadHeaders { block })
            &&& called.1 == Ok::<ActionView, ErrorView>(
                ActionView::Call { isvc, req_disc, stream_id, data: Seq::empty() },
            )
            &&& called.0.streams == c.streams
        }),
{
    lemma_flags();
    let head = http2::head_bytes(block.len(), 1, 0x05, stream_id);
    http2::law_head_read_back(block.len(), 1, 0x05, stream_id);
    connection_laws::law_whole_frame(c, head, block);
}

/// A request whose path is a place in the route cache reaches the service and the method
/// at that place, whatever the services would say, with the message that its body is under
/// the encoding of its own header block. The other requests and the cache are as they
/// were.
pub proof fn law_cached_request_reaches_its_service(
    c: ConnectionView,
    stream_id: u32,
    block: Seq<u8>,
    place: usize,
    encoding: GrpcEncoding,
    said: Option<(usize, usize)>,
    parts: Seq<Seq<u8>>,
)
    requires
        connection_laws::inv(c),
        connection_laws::pending(c) is None,
        c.parsing == Parsing::Header(Seq::empty()),
        c.streams.len() < c.max_streams,
        stream_id % 2 == 1,
        c.last_client_stream_id < stream_id < 0x8000_0000,
        block.len() < 0x100_0000,
        place < c.route_cache.len(),
        parts.len() > 0,
        parts_fit(parts),
    ensures
        ({
            let (isvc, req_disc) = c.route_cache[place as int];
            let asked = connection_model::run(c, http2::frame_bytes(1, 0x04, stream_id, block));
            let opened = connection_model::on_headers_read(
                asked.state,
                PathView::Cached(place),
                encoding,
                said,
            );
            let done = connection_model::run(opened.0, body_frames(stream_id, parts));
            &&& asked.result == Ok::<ActionView, ErrorView>(ActionView::ReadHeaders { block })
            &&& opened.1 == Ok::<ActionView, ErrorView>(ActionView::Nothing)
            &&& done.result == match grpc_message::grpc_message(joined(parts), encoding) {
                Ok(data) => Ok::<ActionView, ErrorView>(
                    ActionView::Call { isvc, req_disc, stream_id, data },
                ),
                Err(e) => Err(e),
            }
            &&& done.state.streams == c.streams
            &&& opened.0.route_cache == c.route_cache
        }),
{
    lemma_flags();
    let head = http2::head_bytes(block.len(), 1, 0x04, stream_id);
    http2::law_head_read_back(block.len(), 1, 0x04, stream_id);
    connection_laws::law_whole_frame(c, head, block);
    let asked = connection_model::run(c, http2::frame_bytes(1, 0x04, stream_id, block));
    let opened = connection_model::on_headers_read(
        asked.state,
        PathView::Cached(place),
        encoding,
        said,
    );
    connection_model::lemma_position_from(opened.0.streams, stream_id, 0);
    assert(opened.0.streams.last().id == stream_id);
    assert(opened.0.streams[c.streams.len() as int].id == stream_id);
    law_body_in_parts(opened.0, stream_id, parts);
    assert(Seq::<u8>::empty() + joined(parts) =~= joined(parts));
    assert(opened.0.streams.remove(c.streams.len() as int) =~= c.streams);
}

/// The same for a request without a body: it reaches the service and the method at its
/// place with its headers alone.
pub proof fn law_cached_bare_request_reaches_its_service(
    c: ConnectionView,
    stream_id: u32,
    block: Seq<u8>,
    place: usize,
    encoding: GrpcEncoding,
    said: Option<(usize, usize)>,
)
    requires
        connection_laws::pending(c) is None,
        c.parsing == Parsing::Header(Seq::empty()),
        c.streams.len() < c.max_streams,
        stream_id % 2 == 1,
        c.last_client_stream_id < stream_id < 0x8000_0000,
        block.len() < 0x100_0000,
        place < c.route_cache.len(),
    ensures
        ({
            let (isvc, req_disc) = c.route_cache[place as int];
            let asked = connection_model::run(c, http2::frame_bytes(1, 0x05, stream_id, block));
            let called = connection_model::on_headers_read(
                asked.state,
                PathView::Cached(place),
                encoding,
                said,
            );
            &&& asked.result == Ok::<ActionView, ErrorView>(ActionView::ReadHeaders { block })
            &&& called.1 == Ok::<ActionView, ErrorView>(
                ActionView::Call { isvc, req_disc, stream_id, data: Seq::empty() },
            )
            &&& called.0.streams == c.streams
            &&& called.0.route_cache == c.route_cache
        }),
{
    lemma_flags();
    let head = http2::head_bytes(block.len(), 1, 0x05, stream_id);
    http2::law_head_read_back(block.len(), 1, 0x05, stream_id);
    connection_laws::law_whole_frame(c, head, block);
}

} // verus!
