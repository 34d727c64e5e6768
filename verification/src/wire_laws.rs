//! What a connection asks to be written is what a client can read.
use crate::client_laws;
use crate::connection_model;
use crate::connection_model::{ActionView, ConnectionView, Outcome, Parsing};
use crate::error::ErrorView;
use crate::grpc_message::GrpcEncoding;
use crate::http2;
use crate::http2::{FrameHeader, FrameKind, HeadFlags};
use crate::response_end::JobView;
use crate::route::PathView;
use vstd::prelude::*;

verus! {

/// Every stream identifier that the connection holds has 31 bits, as those in frames do,
/// and what is there of a payload is less than the frame header said.
pub open spec fn ids_small(c: ConnectionView) -> bool {
    &&& c.last_client_stream_id < 0x8000_0000
    &&& forall|i: int| 0 <= i < c.streams.len() ==> (#[trigger] c.streams[i]).id < 0x8000_0000
    &&& c.continuation matches Some((id, _, _)) ==> id < 0x8000_0000
    &&& c.awaiting matches Some((id, _)) ==> id < 0x8000_0000
    &&& forall|i: int|
        0 <= i < c.stream_data_lens.len() ==> (#[trigger] c.stream_data_lens[i]).0 < 0x8000_0000
    &&& c.parsing matches Parsing::Payload { head, direct, read, control } ==> {
        &&& head.stream_id < 0x8000_0000
        &&& control.len() <= read < head.len < 0x100_0000
    }
}

/// What is to be written are whole frames without headers, and what is called for has
/// a stream identifier that can stand in a frame.
pub open spec fn result_fits(r: Result<ActionView, ErrorView>) -> bool {
    match r {
        Ok(ActionView::Write { buf }) => client_laws::is_control(buf),
        Ok(ActionView::Call { stream_id, .. }) => stream_id < 0x8000_0000,
        _ => true,
    }
}

pub open spec fn outcome_fits(o: Outcome) -> bool {
    ids_small(o.0) && result_fits(o.1)
}

/// The identifiers of a new connection are small: there are none.
pub proof fn law_ids_fresh(max_streams: usize)
    ensures
        ids_small(connection_model::fresh(max_streams)),
{
}

/// They stay so as a read begins.
pub proof fn law_ids_read_begin(c: ConnectionView)
    requires
        ids_small(c),
    ensures
        ids_small(connection_model::at_read_begin(c)),
{
}

proof fn lemma_head_small(bytes: Seq<u8>)
    ensures
        FrameHeader::of_bytes(bytes).stream_id < 0x8000_0000,
        FrameHeader::of_bytes(bytes).len < 0x100_0000,
{
    let top = (bytes[5] % 0x80) as u8;
    assert(top < 0x80);
    assert(top * 0x100_0000 + bytes[6] * 0x1_0000 + bytes[7] * 0x100 + bytes[8] < 0x8000_0000);
}

proof fn lemma_with_data_small(c: ConnectionView, id: u32, bytes: Seq<u8>)
    requires
        ids_small(c),
    ensures
        ids_small(
            ConnectionView {
                streams: connection_model::with_data(c.streams, id, bytes),
                ..c
            },
        ),
{
    connection_model::lemma_position_from(c.streams, id, 0);
    let s = connection_model::with_data(c.streams, id, bytes);
    assert forall|i: int| 0 <= i < s.len() implies (#[trigger] s[i]).id < 0x8000_0000 by {
        assert(s[i].id == c.streams[i].id);
    }
}

proof fn lemma_data_end_fits(c: ConnectionView, stream_id: u32, flags: HeadFlags, len: usize)
    requires
        ids_small(c),
        stream_id < 0x8000_0000,
    ensures
        outcome_fits(connection_model::on_data_end(c, stream_id, flags, len)),
{
    connection_model::lemma_position_from(c.streams, stream_id, 0);
    if let Some(i) = connection_model::position(c.streams, stream_id) {
        let s = c.streams.remove(i);
        assert forall|j: int| 0 <= j < s.len() implies (#[trigger] s[j]).id < 0x8000_0000 by {
            assert(s[j] == c.streams[if j < i {
                j
            } else {
                j + 1
            }]);
        }
    }
}

proof fn lemma_frame_fits(
    c: ConnectionView,
    kind: FrameKind,
    flags: HeadFlags,
    stream_id: u32,
    payload: Seq<u8>,
)
    requires
        ids_small(c),
        stream_id < 0x8000_0000,
        payload.len() < 0x100_0000,
    ensures
        outcome_fits(connection_model::on_frame(c, kind, flags, stream_id, payload)),
{
    client_laws::law_control_frames(stream_id, 7, payload);
    if let Ok(data) = http2::without_padding(flags, payload) {
        lemma_with_data_small(c, stream_id, data);
        let d = ConnectionView {
            streams: connection_model::with_data(c.streams, stream_id, data),
            ..c
        };
        lemma_data_end_fits(d, stream_id, flags, payload.len() as usize);
    }
    connection_model::lemma_position_from(c.streams, stream_id, 0);
    if let Some(i) = connection_model::position(c.streams, stream_id) {
        let s = c.streams.remove(i);
        assert forall|j: int| 0 <= j < s.len() implies (#[trigger] s[j]).id < 0x8000_0000 by {
            assert(s[j] == c.streams[if j < i {
                j
            } else {
                j + 1
            }]);
        }
    }
}

proof fn lemma_byte_fits(c: ConnectionView, b: u8)
    requires
        ids_small(c),
    ensures
        outcome_fits(connection_model::on_byte(c, b)),
{
    let between = connection_model::between_frames(c);
    match c.parsing {
        Parsing::Header(h) => {
            let head = FrameHeader::of_bytes(h.push(b));
            lemma_head_small(h.push(b));
            lemma_frame_fits(between, head.kind, head.flags, head.stream_id, Seq::empty());
        },
        Parsing::Payload { head, direct, read, control } => {
            lemma_with_data_small(c, head.stream_id, seq![b]);
            lemma_with_data_small(between, head.stream_id, seq![b]);
            let d = ConnectionView {
                streams: connection_model::with_data(c.streams, head.stream_id, seq![b]),
                ..between
            };
            lemma_data_end_fits(d, head.stream_id, head.flags, head.len);
            lemma_frame_fits(
                between,
                head.kind,
                head.flags,
                head.stream_id,
                control + seq![b],
            );
        },
    }
}

/// Whatever comes in, what the connection then asks to be written are whole frames
/// without headers, and the requests that it hands over can be answered.
pub proof fn law_run_fits(c: ConnectionView, bytes: Seq<u8>)
    requires
        ids_small(c),
    ensures
        ids_small(connection_model::run(c, bytes).state),
        result_fits(connection_model::run(c, bytes).result),
    decreases bytes.len(),
{
    if bytes.len() > 0 {
        lemma_byte_fits(c, bytes[0]);
        let (next, result) = connection_model::on_byte(c, bytes[0]);
        if result == Ok::<ActionView, ErrorView>(ActionView::Nothing) {
            law_run_fits(next, bytes.skip(1));
        }
    }
}

/// The same, when a header block has been read.
pub proof fn law_headers_read_fits(
    c: ConnectionView,
    path: PathView,
    encoding: GrpcEncoding,
    route: Option<(usize, usize)>,
)
    requires
        ids_small(c),
        c.awaiting is Some,
    ensures
        outcome_fits(connection_model::on_headers_read(c, path, encoding, route)),
{
    let o = connection_model::on_headers_read(c, path, encoding, route);
    assert forall|i: int| 0 <= i < o.0.streams.len() implies (#[trigger] o.0.streams[i]).id
        < 0x8000_0000 by {
        if i < c.streams.len() {
            assert(o.0.streams[i] == c.streams[i]);
        }
    }
}

/// What the connection gives back to the client as room to send can be written.
pub proof fn law_window_update_fits(c: ConnectionView)
    requires
        ids_small(c),
        c.data_len <= usize::MAX,
    ensures
        client_laws::fits(
            JobView::WindowUpdate {
                len: c.data_len as usize,
                stream_data_lens: c.stream_data_lens,
            },
        ),
{
}

} // verus!
