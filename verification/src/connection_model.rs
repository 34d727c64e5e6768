//! What a connection does with the bytes that it receives, one byte at a time.
use crate::error::ErrorView;
use crate::grpc_message;
use crate::grpc_message::GrpcEncoding;
use crate::http2;
use crate::http2::{FrameHeader, FrameKind, HeadFlags};
use crate::route;
use crate::route::PathView;
use vstd::prelude::*;

verus! {

/// A request whose body is still coming in.
pub struct StreamView {
    pub id: u32,
    pub isvc: usize,
    pub req_disc: usize,
    pub encoding: GrpcEncoding,
    pub data: Seq<u8>,
}

/// How far the frame that is being received has come.
pub enum Parsing {
    /// These bytes of a frame header are there.
    Header(Seq<u8>),
    /// So many bytes of the payload are there. They are kept in `control`, unless they
    /// go straight to their stream.
    Payload { head: FrameHeader, direct: bool, read: nat, control: Seq<u8> },
}

/// The state of a connection.
pub struct ConnectionView {
    pub max_streams: usize,
    pub streams: Seq<StreamView>,
    pub route_cache: Seq<(usize, usize)>,
    /// A header block that goes on in CONTINUATION frames: its stream, whether the
    /// request ends with it, and what of it is there.
    pub continuation: Option<(u32, bool, Seq<u8>)>,
    pub last_client_stream_id: u32,
    /// The stream of a complete header block that is yet to be read, and whether the
    /// request ends with it.
    pub awaiting: Option<(u32, bool)>,
    pub parsing: Parsing,
    /// The payload bytes of the DATA frames that were completed in this read, and
    /// what each of these frames had.
    pub data_len: nat,
    pub stream_data_lens: Seq<(u32, usize)>,
}

/// What the connection asks for.
pub enum ActionView {
    Nothing,
    /// Close the connection.
    Close,
    /// Send these bytes to the client.
    Write { buf: Seq<u8> },
    /// Read this header block and come back with what it says.
    ReadHeaders { block: Seq<u8> },
    /// Have a service handle a request.
    Call { isvc: usize, req_disc: usize, stream_id: u32, data: Seq<u8> },
}

pub type Outcome = (ConnectionView, Result<ActionView, ErrorView>);

/// The state of a new connection.
pub open spec fn fresh(max_streams: usize) -> ConnectionView {
    ConnectionView {
        max_streams,
        streams: Seq::empty(),
        route_cache: Seq::empty(),
        continuation: None,
        last_client_stream_id: 0,
        awaiting: None,
        parsing: Parsing::Header(Seq::empty()),
        data_len: 0,
        stream_data_lens: Seq::empty(),
    }
}

/// Where the first stream with this identifier stands, from `from` on.
pub open spec fn position_from(streams: Seq<StreamView>, id: u32, from: int) -> Option<int>
    decreases streams.len() - from,
{
    if from < 0 || from >= streams.len() {
        None
    } else if streams[from].id == id {
        Some(from)
    } else {
        position_from(streams, id, from + 1)
    }
}

pub open spec fn position(streams: Seq<StreamView>, id: u32) -> Option<int> {
    position_from(streams, id, 0)
}

/// The streams with `bytes` added to the body of one of them.
pub open spec fn with_data(streams: Seq<StreamView>, id: u32, bytes: Seq<u8>) -> Seq<StreamView> {
    match position(streams, id) {
        Some(i) => streams.update(
            i,
            StreamView { data: streams[i].data + bytes, ..streams[i] },
        ),
        None => streams,
    }
}

/// The streams without one of them.
pub open spec fn without_stream(streams: Seq<StreamView>, id: u32) -> Seq<StreamView> {
    match position(streams, id) {
        Some(i) => streams.remove(i),
        None => streams,
    }
}

/// The call that a request with a complete body asks for.
pub open spec fn call_of(s: StreamView) -> Result<ActionView, ErrorView> {
    match grpc_message::grpc_message(s.data, s.encoding) {
        Ok(data) => Ok(
            ActionView::Call { isvc: s.isvc, req_disc: s.req_disc, stream_id: s.id, data },
        ),
        Err(e) => Err(e),
    }
}

/// A DATA frame is complete: its payload counts as received, and where it ends the
/// stream the request is handled.
pub open spec fn on_data_end(
    c: ConnectionView,
    stream_id: u32,
    flags: HeadFlags,
    payload_len: usize,
) -> Outcome {
    let counted = ConnectionView {
        data_len: c.data_len + payload_len as nat,
        stream_data_lens: c.stream_data_lens.push((stream_id, payload_len)),
        ..c
    };
    match position(c.streams, stream_id) {
        Some(i) => if flags.has(0x01) {
            (
                ConnectionView { streams: c.streams.remove(i), ..counted },
                call_of(c.streams[i]),
            )
        } else {
            (counted, Ok(ActionView::Nothing))
        },
        None => (counted, Ok(ActionView::Nothing)),
    }
}

pub open spec fn on_data(
    c: ConnectionView,
    flags: HeadFlags,
    stream_id: u32,
    payload: Seq<u8>,
) -> Outcome {
    match http2::without_padding(flags, payload) {
        Err(e) => (c, Err(e)),
        Ok(data) => on_data_end(
            ConnectionView { streams: with_data(c.streams, stream_id, data), ..c },
            stream_id,
            flags,
            payload.len() as usize,
        ),
    }
}

/// The code of an RST_STREAM frame that says that the request was not looked at.
pub open spec fn refused_stream() -> u32 {
    7
}

pub open spec fn on_headers_frame(
    c: ConnectionView,
    flags: HeadFlags,
    stream_id: u32,
    payload: Seq<u8>,
) -> Outcome {
    if stream_id % 2 == 0 {
        (c, Err(ErrorView::InvalidHttp2("client stream ID must be odd"@)))
    } else if stream_id <= c.last_client_stream_id {
        (c, Err(ErrorView::InvalidHttp2("client stream ID must be monotonically increasing"@)))
    } else {
        let seen = ConnectionView { last_client_stream_id: stream_id, ..c };
        if c.streams.len() >= c.max_streams {
            (
                seen,
                Ok(ActionView::Write { buf: http2::rst_stream_bytes(stream_id, refused_stream()) }),
            )
        } else {
            match http2::header_fragment(flags, payload) {
                Err(e) => (seen, Err(e)),
                Ok(block) => if flags.has(0x04) {
                    (
                        ConnectionView { awaiting: Some((stream_id, flags.has(0x01))), ..seen },
                        Ok(ActionView::ReadHeaders { block }),
                    )
                } else {
                    (
                        ConnectionView {
                            continuation: Some((stream_id, flags.has(0x01), block)),
                            ..seen
                        },
                        Ok(ActionView::Nothing),
                    )
                },
            }
        }
    }
}

pub open spec fn on_continuation(c: ConnectionView, flags: HeadFlags, payload: Seq<u8>) -> Outcome {
    match c.continuation {
        None => (c, Err(ErrorView::InvalidHttp2("unexpected CONTINUATION frame"@))),
        Some((stream_id, end_stream, block)) => if flags.has(0x04) {
            (
                ConnectionView {
                    continuation: None,
                    awaiting: Some((stream_id, end_stream)),
                    ..c
                },
                Ok(ActionView::ReadHeaders { block: block + payload }),
            )
        } else {
            (
                ConnectionView {
                    continuation: Some((stream_id, end_stream, block + payload)),
                    ..c
                },
                Ok(ActionView::Nothing),
            )
        },
    }
}

pub open spec fn on_window_update(c: ConnectionView, payload: Seq<u8>) -> Outcome {
    if payload.len() != 4 {
        (c, Err(ErrorView::InvalidHttp2("WINDOW_UPDATE payload must be 4 bytes"@)))
    } else if http2::be32((payload[0] % 0x80) as u8, payload[1], payload[2], payload[3]) == 0 {
        (c, Err(ErrorView::InvalidHttp2("WINDOW_UPDATE increment must be non-zero"@)))
    } else {
        (c, Ok(ActionView::Nothing))
    }
}

/// A frame, while a header block goes on in CONTINUATION frames, that is not the next
/// of these.
pub open spec fn out_of_turn(c: ConnectionView, kind: FrameKind, stream_id: u32) -> Option<
    ErrorView,
> {
    match c.continuation {
        Some((expected, _, _)) => if kind != FrameKind::Continuation {
            Some(ErrorView::InvalidHttp2("expected CONTINUATION frame"@))
        } else if stream_id != expected {
            Some(ErrorView::InvalidHttp2("CONTINUATION stream ID mismatch"@))
        } else {
            None
        },
        None => None,
    }
}

/// A frame whose kind does not go with its stream identifier.
pub open spec fn misplaced(kind: FrameKind, stream_id: u32) -> Option<ErrorView> {
    match kind {
        FrameKind::Data | FrameKind::Headers => if stream_id == 0 {
            Some(ErrorView::InvalidHttp2("DATA/HEADERS must not be on stream 0"@))
        } else {
            None
        },
        FrameKind::Settings | FrameKind::Ping | FrameKind::GoAway => if stream_id != 0 {
            Some(ErrorView::InvalidHttp2("SETTINGS/PING/GOAWAY must be on stream 0"@))
        } else {
            None
        },
        _ => None,
    }
}

/// A complete frame.
pub open spec fn on_frame(
    c: ConnectionView,
    kind: FrameKind,
    flags: HeadFlags,
    stream_id: u32,
    payload: Seq<u8>,
) -> Outcome {
    if let Some(e) = out_of_turn(c, kind, stream_id) {
        (c, Err(e))
    } else if let Some(e) = misplaced(kind, stream_id) {
        (c, Err(e))
    } else {
        match kind {
            FrameKind::Data => on_data(c, flags, stream_id, payload),
            FrameKind::Headers => on_headers_frame(c, flags, stream_id, payload),
            FrameKind::Continuation => on_continuation(c, flags, payload),
            FrameKind::Settings => if flags.has(0x01) {
                (c, Ok(ActionView::Nothing))
            } else {
                (c, Ok(ActionView::Write { buf: http2::settings_ack_bytes() }))
            },
            FrameKind::Ping => if flags.has(0x01) {
                (c, Ok(ActionView::Nothing))
            } else {
                (c, Ok(ActionView::Write { buf: http2::ping_ack_bytes(payload) }))
            },
            FrameKind::GoAway => if payload.len() < 8 {
                (c, Err(ErrorView::InvalidHttp2("GOAWAY payload must be at least 8 bytes"@)))
            } else {
                (c, Ok(ActionView::Close))
            },
            FrameKind::Reset => if payload.len() != 4 {
                (c, Err(ErrorView::InvalidHttp2("RST_STREAM payload must be 4 bytes"@)))
            } else {
                (
                    ConnectionView { streams: without_stream(c.streams, stream_id), ..c },
                    Ok(ActionView::Nothing),
                )
            },
            FrameKind::WindowUpdate => on_window_update(c, payload),
            _ => (c, Ok(ActionView::Nothing)),
        }
    }
}

/// Whether the payload goes straight to its stream, without being gathered first: that
/// of a DATA frame without padding does, unless a header block goes on and the frame is
/// going to be rejected for it.
pub open spec fn is_direct(c: ConnectionView, head: FrameHeader) -> bool {
    head.kind == FrameKind::Data && !head.flags.has(0x08) && c.continuation is None
}

/// The connection when it waits for the next frame.
pub open spec fn between_frames(c: ConnectionView) -> ConnectionView {
    ConnectionView { parsing: Parsing::Header(Seq::empty()), ..c }
}

/// The ninth byte of a frame header is there.
pub open spec fn on_header(c: ConnectionView, bytes: Seq<u8>) -> Outcome {
    let head = FrameHeader::of_bytes(bytes);
    if head.len == 0 {
        on_frame(between_frames(c), head.kind, head.flags, head.stream_id, Seq::empty())
    } else {
        (
            ConnectionView {
                parsing: Parsing::Payload {
                    head,
                    direct: is_direct(c, head),
                    read: 0,
                    control: Seq::empty(),
                },
                ..c
            },
            Ok(ActionView::Nothing),
        )
    }
}

/// The connection with some more bytes of a payload, though not the last.
pub open spec fn with_payload(
    c: ConnectionView,
    head: FrameHeader,
    direct: bool,
    read: nat,
    control: Seq<u8>,
    bytes: Seq<u8>,
) -> ConnectionView {
    if direct {
        ConnectionView {
            streams: with_data(c.streams, head.stream_id, bytes),
            parsing: Parsing::Payload { head, direct, read: read + bytes.len(), control },
            ..c
        }
    } else {
        ConnectionView {
            parsing: Parsing::Payload {
                head,
                direct,
                read: read + bytes.len(),
                control: control + bytes,
            },
            ..c
        }
    }
}

/// The connection with the last bytes of a payload.
pub open spec fn on_payload_end(
    c: ConnectionView,
    head: FrameHeader,
    direct: bool,
    control: Seq<u8>,
    bytes: Seq<u8>,
) -> Outcome {
    if direct {
        on_data_end(
            ConnectionView {
                streams: with_data(c.streams, head.stream_id, bytes),
                ..between_frames(c)
            },
            head.stream_id,
            head.flags,
            head.len,
        )
    } else {
        on_frame(between_frames(c), head.kind, head.flags, head.stream_id, control + bytes)
    }
}

/// One byte comes in.
pub open spec fn on_byte(c: ConnectionView, b: u8) -> Outcome {
    match c.parsing {
        Parsing::Header(h) => if h.len() < 8 {
            (ConnectionView { parsing: Parsing::Header(h.push(b)), ..c }, Ok(ActionView::Nothing))
        } else {
            on_header(c, h.push(b))
        },
        Parsing::Payload { head, direct, read, control } => if read + 1 < head.len {
            (with_payload(c, head, direct, read, control, seq![b]), Ok(ActionView::Nothing))
        } else {
            on_payload_end(c, head, direct, control, seq![b])
        },
    }
}

/// What a run of bytes leads to: the state, how many of the bytes were taken, and what
/// is asked for. A request for action, or an error, ends the run.
pub struct RunView {
    pub state: ConnectionView,
    pub taken: nat,
    pub result: Result<ActionView, ErrorView>,
}

pub open spec fn run(c: ConnectionView, bytes: Seq<u8>) -> RunView
    decreases bytes.len(),
{
    if bytes.len() == 0 {
        RunView { state: c, taken: 0, result: Ok(ActionView::Nothing) }
    } else {
        let (next, result) = on_byte(c, bytes[0]);
        if result == Ok::<ActionView, ErrorView>(ActionView::Nothing) {
            let rest = run(next, bytes.skip(1));
            RunView { taken: rest.taken + 1, ..rest }
        } else {
            RunView { state: next, taken: 1, result }
        }
    }
}

/// The same run, after `n` bytes that asked for nothing.
pub open spec fn after(n: nat, r: RunView) -> RunView {
    RunView { taken: r.taken + n, ..r }
}

/// Bytes of a frame header that do not complete it are gathered.
pub proof fn lemma_run_header(c: ConnectionView, h: Seq<u8>, bytes: Seq<u8>, n: nat)
    requires
        c.parsing == Parsing::Header(h),
        h.len() + n < 9,
        n <= bytes.len(),
    ensures
        run(c, bytes) == after(
            n,
            run(
                ConnectionView { parsing: Parsing::Header(h + bytes.take(n as int)), ..c },
                bytes.skip(n as int),
            ),
        ),
    decreases n,
{
    if n == 0 {
        assert(h + bytes.take(0) =~= h);
        assert(bytes.skip(0) =~= bytes);
    } else {
        let c1 = ConnectionView { parsing: Parsing::Header(h.push(bytes[0])), ..c };
        lemma_run_header(c1, h.push(bytes[0]), bytes.skip(1), (n - 1) as nat);
        assert(h.push(bytes[0]) + bytes.skip(1).take(n - 1) =~= h + bytes.take(n as int));
        assert(bytes.skip(1).skip(n - 1) =~= bytes.skip(n as int));
    }
}

pub proof fn lemma_position_from(streams: Seq<StreamView>, id: u32, from: int)
    requires
        0 <= from,
    ensures
        match position_from(streams, id, from) {
            Some(i) => from <= i < streams.len() && streams[i].id == id && forall|j: int|
                from <= j < i ==> (#[trigger] streams[j]).id != id,
            None => forall|j: int| from <= j < streams.len() ==> (#[trigger] streams[j]).id != id,
        },
    decreases streams.len() - from,
{
    if from < streams.len() && streams[from].id != id {
        lemma_position_from(streams, id, from + 1);
    }
}

/// Streams with the same identifiers in the same places are found in the same places.
pub proof fn lemma_position_same(a: Seq<StreamView>, b: Seq<StreamView>, id: u32, from: int)
    requires
        a.len() == b.len(),
        forall|i: int| 0 <= i < a.len() ==> (#[trigger] a[i]).id == b[i].id,
    ensures
        position_from(a, id, from) == position_from(b, id, from),
    decreases a.len() - from,
{
    if 0 <= from < a.len() && a[from].id != id {
        lemma_position_same(a, b, id, from + 1);
    }
}

/// Adding to a body in two steps is adding to it at once.
pub proof fn lemma_with_data_twice(streams: Seq<StreamView>, id: u32, x: Seq<u8>, y: Seq<u8>)
    ensures
        with_data(with_data(streams, id, x), id, y) == with_data(streams, id, x + y),
{
    lemma_position_from(streams, id, 0);
    lemma_position_same(streams, with_data(streams, id, x), id, 0);
    if let Some(i) = position(streams, id) {
        assert(streams[i].data + x + y =~= streams[i].data + (x + y));
        assert(with_data(with_data(streams, id, x), id, y) =~= with_data(streams, id, x + y));
    }
}

pub proof fn lemma_with_no_data(streams: Seq<StreamView>, id: u32)
    ensures
        with_data(streams, id, Seq::empty()) == streams,
{
    lemma_position_from(streams, id, 0);
    if let Some(i) = position(streams, id) {
        assert(streams[i].data + Seq::<u8>::empty() =~= streams[i].data);
        assert(with_data(streams, id, Seq::empty()) =~= streams);
    }
}

proof fn lemma_with_payload_twice(
    c: ConnectionView,
    head: FrameHeader,
    direct: bool,
    read: nat,
    control: Seq<u8>,
    x: Seq<u8>,
    y: Seq<u8>,
)
    ensures
        with_payload(
            with_payload(c, head, direct, read, control, x),
            head,
            direct,
            read + x.len(),
            if direct {
                control
            } else {
                control + x
            },
            y,
        ) == with_payload(c, head, direct, read, control, x + y),
{
    lemma_with_data_twice(c.streams, head.stream_id, x, y);
    assert(control + x + y =~= control + (x + y));
}

/// Bytes of a payload that do not complete it are kept.
pub proof fn lemma_run_payload(
    c: ConnectionView,
    head: FrameHeader,
    direct: bool,
    read: nat,
    control: Seq<u8>,
    bytes: Seq<u8>,
    n: nat,
)
    requires
        c.parsing == (Parsing::Payload { head, direct, read, control }),
        read + n < head.len,
        n <= bytes.len(),
    ensures
        run(c, bytes) == after(
            n,
            run(
                with_payload(c, head, direct, read, control, bytes.take(n as int)),
                bytes.skip(n as int),
            ),
        ),
    decreases n,
{
    if n == 0 {
        assert(bytes.take(0) =~= Seq::empty());
        assert(bytes.skip(0) =~= bytes);
        assert(control + Seq::<u8>::empty() =~= control);
        lemma_with_no_data(c.streams, head.stream_id);
    } else {
        let x = seq![bytes[0]];
        let c1 = with_payload(c, head, direct, read, control, x);
        let control1 = if direct {
            control
        } else {
            control + x
        };
        lemma_run_payload(c1, head, direct, read + 1, control1, bytes.skip(1), (n - 1) as nat);
        lemma_with_payload_twice(c, head, direct, read, control, x, bytes.skip(1).take(n - 1));
        assert(x + bytes.skip(1).take(n - 1) =~= bytes.take(n as int));
        assert(bytes.skip(1).skip(n - 1) =~= bytes.skip(n as int));
    }
}

/// The run of a single step.
pub open spec fn one_step(o: Outcome, rest: Seq<u8>) -> RunView {
    if o.1 == Ok::<ActionView, ErrorView>(ActionView::Nothing) {
        run(o.0, rest)
    } else {
        RunView { state: o.0, taken: 0, result: o.1 }
    }
}

/// Bytes that complete a frame header are taken, and then what it says is done.
pub proof fn lemma_run_header_end(c: ConnectionView, h: Seq<u8>, bytes: Seq<u8>, n: nat)
    requires
        c.parsing == Parsing::Header(h),
        h.len() < 9,
        h.len() + n == 9,
        n <= bytes.len(),
    ensures
        run(c, bytes) == after(
            n,
            one_step(on_header(c, h + bytes.take(n as int)), bytes.skip(n as int)),
        ),
{
    let k = (n - 1) as nat;
    lemma_run_header(c, h, bytes, k);
    let gathered = h + bytes.take(k as int);
    let c1 = ConnectionView { parsing: Parsing::Header(gathered), ..c };
    let rest = bytes.skip(k as int);
    assert(gathered.push(rest[0]) =~= h + bytes.take(n as int));
    assert(rest.skip(1) =~= bytes.skip(n as int));
    assert(on_byte(c1, rest[0]) == on_header(c1, h + bytes.take(n as int)));
    assert(on_header(c1, h + bytes.take(n as int)) == on_header(c, h + bytes.take(n as int)));
}

/// Bytes that complete a payload are taken, and then the frame is acted on.
pub proof fn lemma_run_payload_end(
    c: ConnectionView,
    head: FrameHeader,
    direct: bool,
    read: nat,
    control: Seq<u8>,
    bytes: Seq<u8>,
    n: nat,
)
    requires
        c.parsing == (Parsing::Payload { head, direct, read, control }),
        read < head.len,
        read + n == head.len,
        n <= bytes.len(),
    ensures
        run(c, bytes) == after(
            n,
            one_step(
                on_payload_end(c, head, direct, control, bytes.take(n as int)),
                bytes.skip(n as int),
            ),
        ),
{
    let k = (n - 1) as nat;
    lemma_run_payload(c, head, direct, read, control, bytes, k);
    let x = bytes.take(k as int);
    let c1 = with_payload(c, head, direct, read, control, x);
    let rest = bytes.skip(k as int);
    let last = seq![rest[0]];
    assert(x + last =~= bytes.take(n as int));
    assert(rest.skip(1) =~= bytes.skip(n as int));
    lemma_with_data_twice(c.streams, head.stream_id, x, last);
    assert(control + x + last =~= control + bytes.take(n as int));
    assert(on_byte(c1, rest[0]) == on_payload_end(c, head, direct, control, bytes.take(n as int)));
}

/// How many payload bytes are counted, or will be once the frame is complete.
pub open spec fn unsettled(c: ConnectionView) -> nat {
    c.data_len + match c.parsing {
        Parsing::Header(_) => 0nat,
        Parsing::Payload { read, .. } => read,
    }
}

/// A frame adds no more to the count than its payload, and leaves alone how far the
/// parser has come.
pub proof fn lemma_frame_counted(
    c: ConnectionView,
    kind: FrameKind,
    flags: HeadFlags,
    stream_id: u32,
    payload: Seq<u8>,
)
    requires
        payload.len() <= usize::MAX,
    ensures
        on_frame(c, kind, flags, stream_id, payload).0.data_len <= c.data_len + payload.len(),
        on_frame(c, kind, flags, stream_id, payload).0.parsing == c.parsing,
{
}

/// The connection as a read from the socket begins.
pub open spec fn at_read_begin(c: ConnectionView) -> ConnectionView {
    ConnectionView { data_len: 0, stream_data_lens: Seq::empty(), ..c }
}

/// The header block that was complete has been read. It has this path and encoding, and
/// the services said `route` about the path.
pub open spec fn on_headers_read(
    c: ConnectionView,
    path: PathView,
    encoding: GrpcEncoding,
    route: Option<(usize, usize)>,
) -> Outcome {
    let (stream_id, end_stream) = c.awaiting->0;
    let routed = ConnectionView {
        awaiting: None,
        route_cache: route::cache_after(c.route_cache, path, route),
        ..c
    };
    match route::route_of(c.route_cache, path, route) {
        Err(e) => (routed, Err(e)),
        Ok((isvc, req_disc)) => if end_stream {
            (routed, Ok(ActionView::Call { isvc, req_disc, stream_id, data: Seq::empty() }))
        } else {
            (
                ConnectionView {
                    streams: c.streams.push(
                        StreamView { id: stream_id, isvc, req_disc, encoding, data: Seq::empty() },
                    ),
                    ..routed
                },
                Ok(ActionView::Nothing),
            )
        },
    }
}

/// What a header block turns out to say, and what the services say about its path.
pub struct Answer {
    pub path: PathView,
    pub encoding: GrpcEncoding,
    pub route: Option<(usize, usize)>,
}

/// An outcome with what follows from it at once: a header block that is complete is read,
/// and the answer acted on.
pub open spec fn settled(o: Outcome, a: Answer) -> Outcome {
    match o.1 {
        Ok(ActionView::ReadHeaders { .. }) => on_headers_read(o.0, a.path, a.encoding, a.route),
        _ => o,
    }
}

} // verus!
