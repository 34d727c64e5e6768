//! What holds of a connection whatever its client sends.
use crate::connection_model;
use crate::connection_model::{ActionView, Answer, ConnectionView, Outcome, Parsing, StreamView};
use crate::error::ErrorView;
use crate::grpc_message::GrpcEncoding;
use crate::http2;
use crate::http2::{FrameHeader, FrameKind, HeadFlags};
use crate::route;
use crate::route::PathView;
use vstd::prelude::*;

verus! {

/// However the bytes are cut into reads, they lead to the same states and the same
/// requests for action, after the same bytes.
pub proof fn law_cut_anywhere(c: ConnectionView, a: Seq<u8>, b: Seq<u8>)
    ensures
        connection_model::run(c, a).result == Ok::<ActionView, ErrorView>(ActionView::Nothing) ==> {
            &&& connection_model::run(c, a).taken == a.len()
            &&& connection_model::run(c, a + b) == connection_model::after(
                a.len(),
                connection_model::run(connection_model::run(c, a).state, b),
            )
        },
        connection_model::run(c, a).result != Ok::<ActionView, ErrorView>(ActionView::Nothing)
            ==> connection_model::run(c, a + b) == connection_model::run(c, a),
    decreases a.len(),
{
    if a.len() == 0 {
        assert(a + b =~= b);
    } else {
        let (next, result) = connection_model::on_byte(c, a[0]);
        assert((a + b)[0] == a[0]);
        assert((a + b).skip(1) =~= a.skip(1) + b);
        law_cut_anywhere(next, a.skip(1), b);
    }
}

/// A header block is on its way, in frames or to the reader.
pub open spec fn pending(c: ConnectionView) -> Option<u32> {
    match c.awaiting {
        Some((id, _)) => Some(id),
        None => match c.continuation {
            Some((id, _, _)) => Some(id),
            None => None,
        },
    }
}

/// What every connection keeps:
/// - the open requests stand in the order of their stream identifiers, which are odd
///   and not above the last one seen;
/// - a header block that is on its way belongs to the last one seen, and at most one is;
/// - there are no more requests, with the one on its way, than the limit allows;
/// - the parser has less than a whole frame header, or less than a whole payload.
pub open spec fn inv(c: ConnectionView) -> bool {
    &&& forall|i: int, j: int|
        0 <= i < j < c.streams.len() ==> (#[trigger] c.streams[i]).id < (#[trigger] c.streams[j]).id
    &&& forall|i: int|
        0 <= i < c.streams.len() ==> (#[trigger] c.streams[i]).id % 2 == 1 && c.streams[i].id
            <= c.last_client_stream_id
    &&& pending(c) matches Some(id) ==> {
        &&& id == c.last_client_stream_id
        &&& id % 2 == 1
        &&& forall|i: int| 0 <= i < c.streams.len() ==> (#[trigger] c.streams[i]).id < id
        &&& c.streams.len() < c.max_streams
    }
    &&& c.awaiting is Some ==> c.continuation is None
    &&& c.streams.len() <= c.max_streams
    &&& match c.parsing {
        Parsing::Header(h) => h.len() < 9,
        Parsing::Payload { head, direct, read, control } => read < head.len < 0x100_0000 && control.len()
            == if direct {
            0
        } else {
            read
        },
    }
}

/// A new connection is in order.
pub proof fn law_inv_fresh(max_streams: usize)
    ensures
        inv(connection_model::fresh(max_streams)),
{
}

proof fn lemma_inv_with_data(c: ConnectionView, id: u32, bytes: Seq<u8>)
    requires
        inv(c),
    ensures
        inv(
            ConnectionView {
                streams: connection_model::with_data(c.streams, id, bytes),
                ..c
            },
        ),
{
    connection_model::lemma_position_from(c.streams, id, 0);
    let d = ConnectionView { streams: connection_model::with_data(c.streams, id, bytes), ..c };
    assert(d.streams.len() == c.streams.len());
    assert forall|i: int| 0 <= i < c.streams.len() implies (#[trigger] d.streams[i]).id
        == c.streams[i].id by {}
}

proof fn lemma_inv_without(c: ConnectionView, i: int)
    requires
        inv(c),
        0 <= i < c.streams.len(),
    ensures
        inv(ConnectionView { streams: c.streams.remove(i), ..c }),
{
    let s = c.streams.remove(i);
    assert forall|j: int| 0 <= j < s.len() implies #[trigger] s[j] == c.streams[if j < i {
        j
    } else {
        j + 1
    }] by {}
}

proof fn lemma_inv_data_end(c: ConnectionView, stream_id: u32, flags: HeadFlags, len: usize)
    requires
        inv(c),
    ensures
        inv(connection_model::on_data_end(c, stream_id, flags, len).0),
        pending(connection_model::on_data_end(c, stream_id, flags, len).0) == pending(c),
{
    connection_model::lemma_position_from(c.streams, stream_id, 0);
    if let Some(i) = connection_model::position(c.streams, stream_id) {
        lemma_inv_without(c, i);
    }
}

/// A frame leaves the connection in order.
pub proof fn law_inv_frame(
    c: ConnectionView,
    kind: FrameKind,
    flags: HeadFlags,
    stream_id: u32,
    payload: Seq<u8>,
)
    requires
        inv(c),
        c.awaiting is None,
        payload.len() <= usize::MAX,
    ensures
        inv(connection_model::on_frame(c, kind, flags, stream_id, payload).0),
{
    match kind {
        FrameKind::Data => {
            if let Ok(data) = http2::without_padding(flags, payload) {
                lemma_inv_with_data(c, stream_id, data);
                lemma_inv_data_end(
                    ConnectionView {
                        streams: connection_model::with_data(c.streams, stream_id, data),
                        ..c
                    },
                    stream_id,
                    flags,
                    payload.len() as usize,
                );
            }
        },
        FrameKind::Reset => {
            connection_model::lemma_position_from(c.streams, stream_id, 0);
            if let Some(i) = connection_model::position(c.streams, stream_id) {
                lemma_inv_without(c, i);
            }
        },
        _ => {},
    }
}

/// A byte leaves the connection in order.
pub proof fn law_inv_byte(c: ConnectionView, b: u8)
    requires
        inv(c),
        c.awaiting is None,
    ensures
        inv(connection_model::on_byte(c, b).0),
        connection_model::on_byte(c, b).1 == Ok::<ActionView, ErrorView>(ActionView::Nothing)
            ==> connection_model::on_byte(c, b).0.awaiting is None,
{
    match c.parsing {
        Parsing::Header(h) => {
            if h.len() == 8 {
                let head = FrameHeader::of_bytes(h.push(b));
                law_inv_frame(
                    connection_model::between_frames(c),
                    head.kind,
                    head.flags,
                    head.stream_id,
                    Seq::empty(),
                );
            }
        },
        Parsing::Payload { head, direct, read, control } => {
            lemma_inv_with_data(c, head.stream_id, seq![b]);
            if read + 1 == head.len {
                if direct {
                    let between = connection_model::between_frames(c);
                    lemma_inv_with_data(between, head.stream_id, seq![b]);
                    lemma_inv_data_end(
                        ConnectionView {
                            streams: connection_model::with_data(
                                c.streams,
                                head.stream_id,
                                seq![b],
                            ),
                            ..between
                        },
                        head.stream_id,
                        head.flags,
                        head.len,
                    );
                } else {
                    law_inv_frame(
                        connection_model::between_frames(c),
                        head.kind,
                        head.flags,
                        head.stream_id,
                        control + seq![b],
                    );
                }
            }
        },
    }
}

/// Whatever comes in, the connection stays in order.
pub proof fn law_inv_run(c: ConnectionView, bytes: Seq<u8>)
    requires
        inv(c),
        c.awaiting is None,
    ensures
        inv(connection_model::run(c, bytes).state),
        connection_model::run(c, bytes).result == Ok::<ActionView, ErrorView>(ActionView::Nothing)
            ==> connection_model::run(c, bytes).state.awaiting is None,
    decreases bytes.len(),
{
    if bytes.len() > 0 {
        let (next, result) = connection_model::on_byte(c, bytes[0]);
        law_inv_byte(c, bytes[0]);
        if result == Ok::<ActionView, ErrorView>(ActionView::Nothing) {
            law_inv_run(next, bytes.skip(1));
        }
    }
}

/// Reading a header block leaves the connection in order.
pub proof fn law_inv_headers_read(
    c: ConnectionView,
    path: PathView,
    encoding: GrpcEncoding,
    route: Option<(usize, usize)>,
)
    requires
        inv(c),
        c.awaiting is Some,
    ensures
        inv(connection_model::on_headers_read(c, path, encoding, route).0),
        connection_model::on_headers_read(c, path, encoding, route).0.awaiting is None,
{
}

/// A frame, with what follows from it at once, leaves the connection in order, whether it
/// is accepted or not. The last stream identifier seen never goes down, and only a HEADERS
/// frame moves it.
pub proof fn law_inv_frame_settled(
    c: ConnectionView,
    kind: FrameKind,
    flags: HeadFlags,
    stream_id: u32,
    payload: Seq<u8>,
    a: Answer,
)
    requires
        inv(c),
        c.awaiting is None,
        payload.len() <= usize::MAX,
    ensures
        ({
            let o = connection_model::settled(
                connection_model::on_frame(c, kind, flags, stream_id, payload),
                a,
            );
            &&& inv(o.0)
            &&& o.0.awaiting is None
            &&& o.0.last_client_stream_id >= c.last_client_stream_id
            &&& o.0.last_client_stream_id != c.last_client_stream_id ==> kind
                == FrameKind::Headers
        }),
{
    law_inv_frame(c, kind, flags, stream_id, payload);
    let o = connection_model::on_frame(c, kind, flags, stream_id, payload);
    if o.0.awaiting is Some {
        law_inv_headers_read(o.0, a.path, a.encoding, a.route);
    }
}

/// The payload bytes of all the frames in a list.
pub open spec fn total(lens: Seq<(u32, usize)>) -> nat
    decreases lens.len(),
{
    if lens.len() == 0 {
        0
    } else {
        total(lens.drop_last()) + lens.last().1 as nat
    }
}

/// What is counted for the connection is what is counted for its streams together.
pub open spec fn balanced(c: ConnectionView) -> bool {
    c.data_len == total(c.stream_data_lens)
}

/// As a read begins, the counts agree.
pub proof fn law_balanced_begin(c: ConnectionView)
    ensures
        balanced(connection_model::at_read_begin(c)),
{
}

/// Whatever comes in, the counts agree: so the room that the client gets for the whole
/// connection is the room that it gets for the streams together.
pub proof fn law_balanced_run(c: ConnectionView, bytes: Seq<u8>)
    requires
        inv(c),
        c.awaiting is None,
        balanced(c),
    ensures
        balanced(connection_model::run(c, bytes).state),
    decreases bytes.len(),
{
    if bytes.len() > 0 {
        let (next, result) = connection_model::on_byte(c, bytes[0]);
        law_inv_byte(c, bytes[0]);
        assert forall|id: u32, len: usize|
            total(#[trigger] c.stream_data_lens.push((id, len))) == total(c.stream_data_lens)
                + len by {
            assert(c.stream_data_lens.push((id, len)).drop_last() =~= c.stream_data_lens);
        }
        if result == Ok::<ActionView, ErrorView>(ActionView::Nothing) {
            law_balanced_run(next, bytes.skip(1));
        }
    }
}

/// Every request, and every cached route, is for one of the first `n` services.
pub open spec fn routed_within(c: ConnectionView, n: nat) -> bool {
    &&& forall|i: int| 0 <= i < c.route_cache.len() ==> (#[trigger] c.route_cache[i]).0 < n
    &&& forall|i: int| 0 <= i < c.streams.len() ==> (#[trigger] c.streams[i]).isvc < n
}

/// A request for action that names a service names one of the first `n`.
pub open spec fn calls_within(r: Result<ActionView, ErrorView>, n: nat) -> bool {
    match r {
        Ok(ActionView::Call { isvc, .. }) => isvc < n,
        _ => true,
    }
}

pub open spec fn outcome_within(o: Outcome, n: nat) -> bool {
    routed_within(o.0, n) && calls_within(o.1, n)
}

proof fn lemma_within_data_end(
    c: ConnectionView,
    stream_id: u32,
    flags: HeadFlags,
    len: usize,
    n: nat,
)
    requires
        routed_within(c, n),
    ensures
        outcome_within(connection_model::on_data_end(c, stream_id, flags, len), n),
{
    connection_model::lemma_position_from(c.streams, stream_id, 0);
}

proof fn lemma_within_frame(
    c: ConnectionView,
    kind: FrameKind,
    flags: HeadFlags,
    stream_id: u32,
    payload: Seq<u8>,
    n: nat,
)
    requires
        routed_within(c, n),
    ensures
        outcome_within(connection_model::on_frame(c, kind, flags, stream_id, payload), n),
{
    connection_model::lemma_position_from(c.streams, stream_id, 0);
    if let Ok(data) = http2::without_padding(flags, payload) {
        lemma_within_data_end(
            ConnectionView {
                streams: connection_model::with_data(c.streams, stream_id, data),
                ..c
            },
            stream_id,
            flags,
            payload.len() as usize,
            n,
        );
    }
}

proof fn lemma_within_byte(c: ConnectionView, b: u8, n: nat)
    requires
        routed_within(c, n),
    ensures
        outcome_within(connection_model::on_byte(c, b), n),
{
    match c.parsing {
        Parsing::Header(h) => {
            let head = FrameHeader::of_bytes(h.push(b));
            lemma_within_frame(
                connection_model::between_frames(c),
                head.kind,
                head.flags,
                head.stream_id,
                Seq::empty(),
                n,
            );
        },
        Parsing::Payload { head, direct, read, control } => {
            connection_model::lemma_position_from(c.streams, head.stream_id, 0);
            lemma_within_data_end(
                ConnectionView {
                    streams: connection_model::with_data(c.streams, head.stream_id, seq![b]),
                    ..connection_model::between_frames(c)
                },
                head.stream_id,
                head.flags,
                head.len,
                n,
            );
            lemma_within_frame(
                connection_model::between_frames(c),
                head.kind,
                head.flags,
                head.stream_id,
                control + seq![b],
                n,
            );
        },
    }
}

/// Whatever comes in, a request is only ever handed to a service that is there.
pub proof fn law_calls_within_run(c: ConnectionView, bytes: Seq<u8>, n: nat)
    requires
        routed_within(c, n),
    ensures
        routed_within(connection_model::run(c, bytes).state, n),
        calls_within(connection_model::run(c, bytes).result, n),
    decreases bytes.len(),
{
    if bytes.len() > 0 {
        let (next, result) = connection_model::on_byte(c, bytes[0]);
        lemma_within_byte(c, bytes[0], n);
        if result == Ok::<ActionView, ErrorView>(ActionView::Nothing) {
            law_calls_within_run(next, bytes.skip(1), n);
        }
    }
}

/// The same, when a header block has been read and the services, of which there are `n`,
/// gave a route to one of them.
pub proof fn law_calls_within_headers_read(
    c: ConnectionView,
    path: PathView,
    encoding: GrpcEncoding,
    route: Option<(usize, usize)>,
    n: nat,
)
    requires
        routed_within(c, n),
        route matches Some((isvc, _)) ==> isvc < n,
        route::path_within(path, c.route_cache),
    ensures
        outcome_within(connection_model::on_headers_read(c, path, encoding, route), n),
{
}

/// A stream that is over: it was seen, and is neither open nor about to be.
pub open spec fn is_over(c: ConnectionView, id: u32) -> bool {
    &&& id <= c.last_client_stream_id
    &&& connection_model::position(c.streams, id) is None
    &&& pending(c) != Some(id)
}

/// A request for action that is not a call for this stream.
pub open spec fn no_call_for(r: Result<ActionView, ErrorView>, id: u32) -> bool {
    match r {
        Ok(ActionView::Call { stream_id, .. }) => stream_id != id,
        _ => true,
    }
}

pub open spec fn stays_over(o: Outcome, id: u32) -> bool {
    is_over(o.0, id) && no_call_for(o.1, id)
}

proof fn lemma_absent(streams: Seq<StreamView>, id: u32)
    ensures
        connection_model::position(streams, id) is None <==> forall|i: int|
            0 <= i < streams.len() ==> (#[trigger] streams[i]).id != id,
{
    connection_model::lemma_position_from(streams, id, 0);
}

proof fn lemma_over_data_end(
    c: ConnectionView,
    stream_id: u32,
    flags: HeadFlags,
    len: usize,
    id: u32,
)
    requires
        is_over(c, id),
    ensures
        stays_over(connection_model::on_data_end(c, stream_id, flags, len), id),
{
    connection_model::lemma_position_from(c.streams, stream_id, 0);
    lemma_absent(c.streams, id);
    let o = connection_model::on_data_end(c, stream_id, flags, len);
    lemma_absent(o.0.streams, id);
}

proof fn lemma_over_with_data(c: ConnectionView, stream_id: u32, bytes: Seq<u8>, id: u32)
    requires
        is_over(c, id),
    ensures
        is_over(
            ConnectionView {
                streams: connection_model::with_data(c.streams, stream_id, bytes),
                ..c
            },
            id,
        ),
{
    connection_model::lemma_position_from(c.streams, stream_id, 0);
    lemma_absent(c.streams, id);
    lemma_absent(connection_model::with_data(c.streams, stream_id, bytes), id);
}

proof fn lemma_over_frame(
    c: ConnectionView,
    kind: FrameKind,
    flags: HeadFlags,
    stream_id: u32,
    payload: Seq<u8>,
    id: u32,
)
    requires
        is_over(c, id),
        c.awaiting is None,
    ensures
        stays_over(connection_model::on_frame(c, kind, flags, stream_id, payload), id),
{
    match kind {
        FrameKind::Data => {
            if let Ok(data) = http2::without_padding(flags, payload) {
                lemma_over_with_data(c, stream_id, data, id);
                lemma_over_data_end(
                    ConnectionView {
                        streams: connection_model::with_data(c.streams, stream_id, data),
                        ..c
                    },
                    stream_id,
                    flags,
                    payload.len() as usize,
                    id,
                );
            }
        },
        FrameKind::Reset => {
            connection_model::lemma_position_from(c.streams, stream_id, 0);
            lemma_absent(c.streams, id);
            lemma_absent(connection_model::without_stream(c.streams, stream_id), id);
        },
        _ => {},
    }
}

proof fn lemma_over_byte(c: ConnectionView, b: u8, id: u32)
    requires
        is_over(c, id),
        c.awaiting is None,
    ensures
        stays_over(connection_model::on_byte(c, b), id),
{
    match c.parsing {
        Parsing::Header(h) => {
            let head = FrameHeader::of_bytes(h.push(b));
            lemma_over_frame(
                connection_model::between_frames(c),
                head.kind,
                head.flags,
                head.stream_id,
                Seq::empty(),
                id,
            );
        },
        Parsing::Payload { head, direct, read, control } => {
            let between = connection_model::between_frames(c);
            lemma_over_with_data(c, head.stream_id, seq![b], id);
            lemma_over_with_data(between, head.stream_id, seq![b], id);
            lemma_over_data_end(
                ConnectionView {
                    streams: connection_model::with_data(c.streams, head.stream_id, seq![b]),
                    ..between
                },
                head.stream_id,
                head.flags,
                head.len,
                id,
            );
            lemma_over_frame(
                between,
                head.kind,
                head.flags,
                head.stream_id,
                control + seq![b],
                id,
            );
        },
    }
}

/// A stream that is over stays over: whatever comes in, it is not opened again and no
/// service is called for it.
pub proof fn law_over_run(c: ConnectionView, bytes: Seq<u8>, id: u32)
    requires
        inv(c),
        c.awaiting is None,
        is_over(c, id),
    ensures
        is_over(connection_model::run(c, bytes).state, id),
        no_call_for(connection_model::run(c, bytes).result, id),
    decreases bytes.len(),
{
    if bytes.len() > 0 {
        let (next, result) = connection_model::on_byte(c, bytes[0]);
        lemma_over_byte(c, bytes[0], id);
        law_inv_byte(c, bytes[0]);
        if result == Ok::<ActionView, ErrorView>(ActionView::Nothing) {
            law_over_run(next, bytes.skip(1), id);
        }
    }
}

/// The same, when a header block has been read.
pub proof fn law_over_headers_read(
    c: ConnectionView,
    path: PathView,
    encoding: GrpcEncoding,
    route: Option<(usize, usize)>,
    id: u32,
)
    requires
        inv(c),
        c.awaiting is Some,
        is_over(c, id),
    ensures
        stays_over(connection_model::on_headers_read(c, path, encoding, route), id),
{
    let o = connection_model::on_headers_read(c, path, encoding, route);
    lemma_absent(c.streams, id);
    lemma_absent(o.0.streams, id);
}

/// A request for action that is a call for this stream.
pub open spec fn is_call_for(r: Result<ActionView, ErrorView>, id: u32) -> bool {
    match r {
        Ok(ActionView::Call { stream_id, .. }) => stream_id == id,
        _ => false,
    }
}

proof fn lemma_call_ends_stream(c: ConnectionView, b: u8, id: u32)
    requires
        inv(c),
        c.awaiting is None,
        is_call_for(connection_model::on_byte(c, b).1, id),
    ensures
        is_over(connection_model::on_byte(c, b).0, id),
{
    let o = connection_model::on_byte(c, b);
    lemma_absent(o.0.streams, id);
    match c.parsing {
        Parsing::Header(h) => {
            let head = FrameHeader::of_bytes(h.push(b));
            lemma_call_ends_frame(
                connection_model::between_frames(c),
                head.kind,
                head.flags,
                head.stream_id,
                Seq::empty(),
                id,
            );
        },
        Parsing::Payload { head, direct, read, control } => {
            let between = connection_model::between_frames(c);
            if direct {
                lemma_inv_with_data(between, head.stream_id, seq![b]);
                lemma_call_ends_data(
                    ConnectionView {
                        streams: connection_model::with_data(c.streams, head.stream_id, seq![b]),
                        ..between
                    },
                    head.stream_id,
                    head.flags,
                    head.len,
                    id,
                );
            } else {
                lemma_call_ends_frame(
                    between,
                    head.kind,
                    head.flags,
                    head.stream_id,
                    control + seq![b],
                    id,
                );
            }
        },
    }
}

proof fn lemma_call_ends_data(
    c: ConnectionView,
    stream_id: u32,
    flags: HeadFlags,
    len: usize,
    id: u32,
)
    requires
        inv(c),
        is_call_for(connection_model::on_data_end(c, stream_id, flags, len).1, id),
    ensures
        is_over(connection_model::on_data_end(c, stream_id, flags, len).0, id),
{
    connection_model::lemma_position_from(c.streams, stream_id, 0);
    let i = connection_model::position(c.streams, stream_id)->0;
    let after = c.streams.remove(i);
    assert(c.streams[i].id == id);
    assert forall|j: int| 0 <= j < after.len() implies (#[trigger] after[j]).id != id by {
        assert(after[j] == c.streams[if j < i {
            j
        } else {
            j + 1
        }]);
    }
    lemma_absent(after, id);
}

proof fn lemma_call_ends_frame(
    c: ConnectionView,
    kind: FrameKind,
    flags: HeadFlags,
    stream_id: u32,
    payload: Seq<u8>,
    id: u32,
)
    requires
        inv(c),
        is_call_for(connection_model::on_frame(c, kind, flags, stream_id, payload).1, id),
    ensures
        is_over(connection_model::on_frame(c, kind, flags, stream_id, payload).0, id),
{
    if let Ok(data) = http2::without_padding(flags, payload) {
        lemma_inv_with_data(c, stream_id, data);
        let d = ConnectionView {
            streams: connection_model::with_data(c.streams, stream_id, data),
            ..c
        };
        lemma_call_ends_data(d, stream_id, flags, payload.len() as usize, id);
    }
}

/// A request that is handed to its service is over: with `law_over_run` and
/// `law_over_headers_read`, no request is handed over twice.
pub proof fn law_call_ends_stream(c: ConnectionView, bytes: Seq<u8>, id: u32)
    requires
        inv(c),
        c.awaiting is None,
        is_call_for(connection_model::run(c, bytes).result, id),
    ensures
        is_over(connection_model::run(c, bytes).state, id),
    decreases bytes.len(),
{
    if bytes.len() > 0 {
        let (next, result) = connection_model::on_byte(c, bytes[0]);
        law_inv_byte(c, bytes[0]);
        if result == Ok::<ActionView, ErrorView>(ActionView::Nothing) {
            law_call_ends_stream(next, bytes.skip(1), id);
        } else {
            lemma_call_ends_stream(c, bytes[0], id);
        }
    }
}

/// The same for a request that ends with its headers.
pub proof fn law_call_ends_stream_headers_read(
    c: ConnectionView,
    path: PathView,
    encoding: GrpcEncoding,
    route: Option<(usize, usize)>,
    id: u32,
)
    requires
        inv(c),
        c.awaiting is Some,
        is_call_for(connection_model::on_headers_read(c, path, encoding, route).1, id),
    ensures
        is_over(connection_model::on_headers_read(c, path, encoding, route).0, id),
{
    lemma_absent(c.streams, id);
}

/// A frame that comes in whole is acted on as a frame. The exception is a DATA frame on
/// stream 0 that has no padding and is not empty: see `law_data_on_stream_zero`.
pub proof fn law_whole_frame(c: ConnectionView, head_bytes: Seq<u8>, payload: Seq<u8>)
    requires
        c.parsing == Parsing::Header(Seq::empty()),
        head_bytes.len() == 9,
        FrameHeader::of_bytes(head_bytes).len == payload.len(),
        connection_model::is_direct(c, FrameHeader::of_bytes(head_bytes)) && payload.len() > 0
            ==> FrameHeader::of_bytes(head_bytes).stream_id != 0,
    ensures
        ({
            let head = FrameHeader::of_bytes(head_bytes);
            let o = connection_model::on_frame(
                c,
                head.kind,
                head.flags,
                head.stream_id,
                payload,
            );
            let run = connection_model::run(c, head_bytes + payload);
            run.state == o.0 && run.taken == 9 + payload.len() && run.result == o.1
        }),
{
    let head = FrameHeader::of_bytes(head_bytes);
    let bytes = head_bytes + payload;
    let empty = Seq::<u8>::empty();
    connection_model::lemma_run_header_end(c, empty, bytes, 9);
    assert(empty + bytes.take(9) =~= head_bytes);
    assert(bytes.skip(9) =~= payload);
    assert(connection_model::between_frames(c) == c);
    if payload.len() == 0 {
        assert(payload =~= empty);
    } else {
        let c1 = connection_model::on_header(c, head_bytes).0;
        let direct = connection_model::is_direct(c, head);
        connection_model::lemma_run_payload_end(c1, head, direct, 0, empty, payload, payload.len());
        assert(payload.take(payload.len() as int) =~= payload);
        assert(payload.skip(payload.len() as int) =~= empty);
        assert(empty + payload =~= payload);
        assert(connection_model::between_frames(c1) == c);
        if direct {
            assert(connection_model::on_payload_end(c1, head, direct, empty, payload)
                == connection_model::on_data(c, head.flags, head.stream_id, payload));
        }
    }
}

/// While a header block goes on in CONTINUATION frames, a frame of any other kind is
/// rejected, and nothing of it reaches a stream.
pub proof fn law_only_continuation(c: ConnectionView, head_bytes: Seq<u8>, payload: Seq<u8>)
    requires
        c.parsing == Parsing::Header(Seq::empty()),
        c.continuation is Some,
        head_bytes.len() == 9,
        FrameHeader::of_bytes(head_bytes).len == payload.len(),
        FrameHeader::of_bytes(head_bytes).kind != FrameKind::Continuation,
    ensures
        connection_model::run(c, head_bytes + payload).state == c,
        connection_model::run(c, head_bytes + payload).result == Err::<ActionView, ErrorView>(
            ErrorView::InvalidHttp2("expected CONTINUATION frame"@),
        ),
{
    law_whole_frame(c, head_bytes, payload);
}

/// A HEADERS frame on stream 0 is rejected, and so is a DATA frame that has padding or is
/// empty.
pub proof fn law_no_stream_zero(c: ConnectionView, head_bytes: Seq<u8>, payload: Seq<u8>)
    requires
        c.parsing == Parsing::Header(Seq::empty()),
        c.continuation is None,
        head_bytes.len() == 9,
        FrameHeader::of_bytes(head_bytes).len == payload.len(),
        FrameHeader::of_bytes(head_bytes).kind == FrameKind::Data || FrameHeader::of_bytes(
            head_bytes,
        ).kind == FrameKind::Headers,
        connection_model::is_direct(c, FrameHeader::of_bytes(head_bytes)) ==> payload.len() == 0,
        FrameHeader::of_bytes(head_bytes).stream_id == 0,
    ensures
        connection_model::run(c, head_bytes + payload).state == c,
        connection_model::run(c, head_bytes + payload).result == Err::<ActionView, ErrorView>(
            ErrorView::InvalidHttp2("DATA/HEADERS must not be on stream 0"@),
        ),
{
    law_whole_frame(c, head_bytes, payload);
}

/// A DATA frame on stream 0 that has no padding and is not empty counts as received, and
/// is not looked at otherwise.
pub proof fn law_data_on_stream_zero(c: ConnectionView, head_bytes: Seq<u8>, payload: Seq<u8>)
    requires
        inv(c),
        c.parsing == Parsing::Header(Seq::empty()),
        c.continuation is None,
        head_bytes.len() == 9,
        FrameHeader::of_bytes(head_bytes).len == payload.len(),
        connection_model::is_direct(c, FrameHeader::of_bytes(head_bytes)),
        FrameHeader::of_bytes(head_bytes).stream_id == 0,
        payload.len() > 0,
    ensures
        connection_model::run(c, head_bytes + payload).state == (ConnectionView {
            data_len: c.data_len + payload.len(),
            stream_data_lens: c.stream_data_lens.push((0u32, payload.len() as usize)),
            ..c
        }),
        connection_model::run(c, head_bytes + payload).result == Ok::<ActionView, ErrorView>(
            ActionView::Nothing,
        ),
{
    let head = FrameHeader::of_bytes(head_bytes);
    let bytes = head_bytes + payload;
    let empty = Seq::<u8>::empty();
    connection_model::lemma_run_header_end(c, empty, bytes, 9);
    assert(empty + bytes.take(9) =~= head_bytes);
    assert(bytes.skip(9) =~= payload);
    let c1 = connection_model::on_header(c, head_bytes).0;
    connection_model::lemma_run_payload_end(c1, head, true, 0, empty, payload, payload.len());
    assert(payload.skip(payload.len() as int) =~= empty);
    assert(connection_model::between_frames(c1) == c);
    connection_model::lemma_position_from(c.streams, 0, 0);
}

/// A request beyond the limit is answered with RST_STREAM and the code that says it was
/// not looked at; it is over, and nothing else changes.
pub proof fn law_refused_request(
    c: ConnectionView,
    flags: HeadFlags,
    stream_id: u32,
    payload: Seq<u8>,
)
    requires
        inv(c),
        pending(c) is None,
        c.streams.len() == c.max_streams,
        stream_id % 2 == 1,
        stream_id > c.last_client_stream_id,
    ensures
        ({
            let o = connection_model::on_frame(c, FrameKind::Headers, flags, stream_id, payload);
            &&& o.1 == Ok::<ActionView, ErrorView>(
                ActionView::Write { buf: http2::rst_stream_bytes(stream_id, 7) },
            )
            &&& o.0 == ConnectionView { last_client_stream_id: stream_id, ..c }
            &&& is_over(o.0, stream_id)
        }),
{
    lemma_absent(c.streams, stream_id);
}

/// A request that the client resets is over.
pub proof fn law_reset_ends_stream(
    c: ConnectionView,
    flags: HeadFlags,
    stream_id: u32,
    payload: Seq<u8>,
)
    requires
        inv(c),
        pending(c) is None,
        stream_id <= c.last_client_stream_id,
        payload.len() == 4,
    ensures
        connection_model::on_frame(c, FrameKind::Reset, flags, stream_id, payload).1 == Ok::<
            ActionView,
            ErrorView,
        >(ActionView::Nothing),
        is_over(
            connection_model::on_frame(c, FrameKind::Reset, flags, stream_id, payload).0,
            stream_id,
        ),
{
    connection_model::lemma_position_from(c.streams, stream_id, 0);
    let after = connection_model::without_stream(c.streams, stream_id);
    if let Some(i) = connection_model::position(c.streams, stream_id) {
        assert forall|j: int| 0 <= j < after.len() implies (#[trigger] after[j]).id != stream_id by {
            assert(after[j] == c.streams[if j < i {
                j
            } else {
                j + 1
            }]);
        }
    }
    lemma_absent(after, stream_id);
}

} // verus!
