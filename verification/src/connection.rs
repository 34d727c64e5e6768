//! The state machine of a connection: it takes the bytes that the socket delivers and
//! says what is to be done.
use crate::config::Config;
use crate::connection_model;
use crate::connection_model::{ActionView, ConnectionView, Outcome, Parsing, RunView, StreamView};
use crate::error::{Error, ErrorView};
use crate::grpc_message;
use crate::grpc_message::GrpcEncoding;
use crate::http2;
use crate::http2::{Frame, FrameHeader, FrameKind, HeadFlags};
use crate::response_end::{JobView, RespJob};
use crate::route;
use crate::route::{FoundHeaders, PajamaxService};
use vstd::prelude::*;

verus! {

struct Stream {
    id: u32,
    isvc: usize,
    req_disc: usize,
    encoding: GrpcEncoding,
    data: Vec<u8>,
}

impl View for Stream {
    type V = StreamView;

    closed spec fn view(&self) -> StreamView {
        StreamView {
            id: self.id,
            isvc: self.isvc,
            req_disc: self.req_disc,
            encoding: self.encoding,
            data: self.data@,
        }
    }
}

#[derive(Clone, Copy, PartialEq, Eq, Structural)]
enum ParseState {
    Header,
    Payload,
}

/// What the connection asks for.
pub enum Action {
    Nothing,
    /// Close the connection.
    Close,
    /// Send these bytes to the client.
    Write { buf: Vec<u8> },
    /// Read this header block and come back with what it says.
    ReadHeaders { block: Vec<u8> },
    /// Have a service handle a request.
    Call { isvc: usize, req_disc: usize, stream_id: u32, data: bytes::Bytes },
}

impl View for Action {
    type V = ActionView;

    open spec fn view(&self) -> ActionView {
        match self {
            Action::Nothing => ActionView::Nothing,
            Action::Close => ActionView::Close,
            Action::Write { buf } => ActionView::Write { buf: buf@ },
            Action::ReadHeaders { block } => ActionView::ReadHeaders { block: block@ },
            Action::Call { isvc, req_disc, stream_id, data } => ActionView::Call {
                isvc: *isvc,
                req_disc: *req_disc,
                stream_id: *stream_id,
                data: grpc_message::bytes_contents(*data),
            },
        }
    }
}

/// A result as a value.
pub open spec fn result_view(r: Result<Action, Error>) -> Result<ActionView, ErrorView> {
    match r {
        Ok(a) => Ok(a@),
        Err(e) => Err(e@),
    }
}

/// Whether the connection is now in the state, and the result is the one, that `m` says.
pub open spec fn same_outcome(c: Connection, r: Result<Action, Error>, m: Outcome) -> bool {
    c@ == m.0 && result_view(r) == m.1
}

/// Whether taking `n` of the bytes led from one state to the other, with this result.
spec fn step_of(
    before: Connection,
    now: Connection,
    bytes: Seq<u8>,
    n: nat,
    r: Result<Action, Error>,
) -> bool {
    connection_model::run(before@, bytes) == connection_model::after(
        n,
        connection_model::one_step((now@, result_view(r)), bytes.skip(n as int)),
    )
}

/// Whether the connection is now in the state, and the result is the one, that the run
/// `m` of the bytes from `pos` on says.
pub open spec fn same_run(
    c: Connection,
    r: Result<(usize, Action), Error>,
    pos: usize,
    m: RunView,
) -> bool {
    c@ == m.state && match r {
        Ok((next, a)) => next == pos + m.taken && m.result == Ok::<ActionView, ErrorView>(a@),
        Err(e) => m.result == Err::<ActionView, ErrorView>(e@),
    }
}

pub struct Connection {
    config: Config,
    streams: Vec<Stream>,
    route_cache: Vec<(usize, usize)>,
    continuation_buf: Option<(u32, bool, Vec<u8>)>,
    last_client_stream_id: u32,
    awaiting: Option<(u32, bool)>,
    header_buf: Vec<u8>,
    control_buf: Vec<u8>,
    cur: FrameHeader,
    cur_direct: bool,
    cur_payload_read: usize,
    state: ParseState,
    data_len: usize,
    stream_data_lens: Vec<(u32, usize)>,
}

spec fn stream_views(streams: Seq<Stream>) -> Seq<StreamView> {
    streams.map_values(|s: Stream| s@)
}

impl View for Connection {
    type V = ConnectionView;

    closed spec fn view(&self) -> ConnectionView {
        ConnectionView {
            max_streams: self.config.max_concurrent_streams,
            streams: stream_views(self.streams@),
            route_cache: self.route_cache@,
            continuation: match self.continuation_buf {
                Some((id, end_stream, buf)) => Some((id, end_stream, buf@)),
                None => None,
            },
            last_client_stream_id: self.last_client_stream_id,
            awaiting: self.awaiting,
            parsing: match self.state {
                ParseState::Header => Parsing::Header(self.header_buf@),
                ParseState::Payload => Parsing::Payload {
                    head: self.cur,
                    direct: self.cur_direct,
                    read: self.cur_payload_read as nat,
                    control: if self.cur_direct {
                        Seq::empty()
                    } else {
                        self.control_buf@
                    },
                },
            },
            data_len: self.data_len as nat,
            stream_data_lens: self.stream_data_lens@,
        }
    }
}

impl Connection {
    /// The parser's buffers agree with how far it has come.
    pub closed spec fn wf(&self) -> bool {
        match self.state {
            ParseState::Header => self.header_buf@.len() < 9,
            ParseState::Payload => {
                &&& self.header_buf@.len() == 0
                &&& self.cur_payload_read < self.cur.len < 0x100_0000
                &&& !self.cur_direct ==> self.control_buf@.len() == self.cur_payload_read
            },
        }
    }

    pub fn new(config: Config) -> (r: Self)
        ensures
            r.wf(),
            r@ == connection_model::fresh(config.max_concurrent_streams),
    {
        let r = Connection {
            config,
            streams: Vec::new(),
            route_cache: Vec::new(),
            continuation_buf: None,
            last_client_stream_id: 0,
            awaiting: None,
            header_buf: Vec::new(),
            control_buf: Vec::new(),
            cur: FrameHeader {
                len: 0,
                kind: FrameKind::Unknown,
                flags: HeadFlags(0),
                stream_id: 0,
            },
            cur_direct: false,
            cur_payload_read: 0,
            state: ParseState::Header,
            data_len: 0,
            stream_data_lens: Vec::new(),
        };
        proof {
            assert(r@.streams =~= Seq::empty());
            assert(r.header_buf@ =~= Seq::empty());
            assert(r.route_cache@ =~= Seq::empty());
            assert(r.stream_data_lens@ =~= Seq::empty());
        }
        r
    }

    /// Where the stream with this identifier stands.
    fn find_stream(&self, id: u32) -> (r: Option<usize>)
        ensures
            match r {
                Some(i) => i < self.streams@.len() && connection_model::position(
                    self@.streams,
                    id,
                ) == Some(i as int),
                None => connection_model::position(self@.streams, id) is None,
            },
    {
        let mut i: usize = 0;
        while i < self.streams.len()
            invariant
                i <= self.streams@.len(),
                connection_model::position(self@.streams, id) == connection_model::position_from(
                    self@.streams,
                    id,
                    i as int,
                ),
            decreases self.streams@.len() - i,
        {
            if self.streams[i].id == id {
                return Some(i);
            }
            i += 1;
        }
        None
    }

    /// Add to the body of a stream, where there is such a stream.
    fn append_data(&mut self, id: u32, bytes: &[u8])
        requires
            old(self).wf(),
        ensures
            final(self).wf(),
            final(self)@ == (ConnectionView {
                streams: connection_model::with_data(old(self)@.streams, id, bytes@),
                ..old(self)@
            }),
            final(self).parser_unchanged(*old(self)),
    {
        if let Some(i) = self.find_stream(id) {
            let ghost before = self.streams@;
            self.streams[i].data.extend_from_slice(bytes);
            proof {
                assert(self.streams@[i as int].data@ =~= before[i as int].data@ + bytes@);
                assert(self.streams@ =~= before.update(i as int, self.streams@[i as int]));
                assert(stream_views(self.streams@) =~= connection_model::with_data(
                    stream_views(before),
                    id,
                    bytes@,
                ));
            }
        }
    }

    /// A DATA frame is complete.
    fn end_data(&mut self, stream_id: u32, flags: HeadFlags, payload_len: usize) -> (r: Result<
        Action,
        Error,
    >)
        requires
            old(self).wf(),
            old(self)@.data_len + payload_len <= usize::MAX,
        ensures
            final(self).wf(),
            same_outcome(
                *final(self),
                r,
                connection_model::on_data_end(old(self)@, stream_id, flags, payload_len),
            ),
    {
        self.data_len += payload_len;
        self.stream_data_lens.push((stream_id, payload_len));

        let i = match self.find_stream(stream_id) {
            Some(i) => i,
            None => {
                return Ok(Action::Nothing);
            },
        };
        if !flags.is_end_stream() {
            return Ok(Action::Nothing);
        }
        let ghost before = self.streams@;
        let Stream { id, isvc, req_disc, encoding, data } = self.streams.remove(i);
        proof {
            assert(stream_views(self.streams@) =~= stream_views(before).remove(i as int));
        }
        match grpc_message::decode_grpc_message(data, encoding) {
            Ok(data) => Ok(Action::Call { isvc, req_disc, stream_id: id, data }),
            Err(e) => Err(e),
        }
    }

    /// Process a complete frame.
    pub fn process_frame(
        &mut self,
        kind: FrameKind,
        flags: HeadFlags,
        stream_id: u32,
        payload: &[u8],
    ) -> (r: Result<Action, Error>)
        requires
            old(self).wf(),
            old(self)@.data_len + payload@.len() <= usize::MAX,
        ensures
            final(self).wf(),
            same_outcome(
                *final(self),
                r,
                connection_model::on_frame(old(self)@, kind, flags, stream_id, payload@),
            ),
    {
        // When expecting CONTINUATION, reject any other frame type
        if let Some((cont_stream_id, _, _)) = &self.continuation_buf {
            if kind != FrameKind::Continuation {
                return Err(Error::InvalidHttp2("expected CONTINUATION frame"));
            }
            if stream_id != *cont_stream_id {
                return Err(Error::InvalidHttp2("CONTINUATION stream ID mismatch"));
            }
        }
        if stream_id == 0 && (kind == FrameKind::Data || kind == FrameKind::Headers) {
            return Err(Error::InvalidHttp2("DATA/HEADERS must not be on stream 0"));
        }
        if stream_id != 0 && (kind == FrameKind::Settings || kind == FrameKind::Ping || kind
            == FrameKind::GoAway) {
            return Err(Error::InvalidHttp2("SETTINGS/PING/GOAWAY must be on stream 0"));
        }
        match kind {
            FrameKind::Data => {
                let req_buf = Frame::strip_data_padding(flags, payload)?;
                self.append_data(stream_id, req_buf);
                self.end_data(stream_id, flags, payload.len())
            },
            FrameKind::Headers => self.headers_frame(flags, stream_id, payload),
            FrameKind::Continuation => self.continuation_frame(flags, payload),
            FrameKind::Settings => {
                if flags.is_ack() {
                    return Ok(Action::Nothing);
                }
                let mut buf: Vec<u8> = Vec::new();
                http2::build_settings_ack(&mut buf);
                assert(buf@ =~= http2::settings_ack_bytes());
                Ok(Action::Write { buf })
            },
            FrameKind::Ping => {
                if flags.is_ping_ack() {
                    return Ok(Action::Nothing);
                }
                let mut buf: Vec<u8> = Vec::new();
                http2::build_ping_ack(payload, &mut buf);
                assert(buf@ =~= http2::ping_ack_bytes(payload@));
                Ok(Action::Write { buf })
            },
            FrameKind::GoAway => {
                if payload.len() < 8 {
                    return Err(Error::InvalidHttp2("GOAWAY payload must be at least 8 bytes"));
                }
                Ok(Action::Close)
            },
            FrameKind::Reset => {
                if payload.len() != 4 {
                    return Err(Error::InvalidHttp2("RST_STREAM payload must be 4 bytes"));
                }
                if let Some(i) = self.find_stream(stream_id) {
                    let ghost before = self.streams@;
                    self.streams.remove(i);
                    proof {
                        assert(stream_views(self.streams@) =~= stream_views(before).remove(
                            i as int,
                        ));
                    }
                }
                Ok(Action::Nothing)
            },
            FrameKind::WindowUpdate => {
                if payload.len() != 4 {
                    return Err(Error::InvalidHttp2("WINDOW_UPDATE payload must be 4 bytes"));
                }
                let increment = http2::read_be32(
                    payload[0] % 0x80,
                    payload[1],
                    payload[2],
                    payload[3],
                );
                if increment == 0 {
                    return Err(Error::InvalidHttp2("WINDOW_UPDATE increment must be non-zero"));
                }
                Ok(Action::Nothing)
            },
            _ => Ok(Action::Nothing),
        }
    }

    fn headers_frame(&mut self, flags: HeadFlags, stream_id: u32, payload: &[u8]) -> (r: Result<
        Action,
        Error,
    >)
        requires
            old(self).wf(),
        ensures
            final(self).wf(),
            same_outcome(
                *final(self),
                r,
                connection_model::on_headers_frame(old(self)@, flags, stream_id, payload@),
            ),
    {
        if stream_id % 2 == 0 {
            return Err(Error::InvalidHttp2("client stream ID must be odd"));
        }
        if stream_id <= self.last_client_stream_id {
            return Err(
                Error::InvalidHttp2("client stream ID must be monotonically increasing"),
            );
        }
        self.last_client_stream_id = stream_id;

        if self.streams.len() >= self.config.max_concurrent_streams {
            let mut buf: Vec<u8> = Vec::new();
            http2::build_rst_stream(stream_id, 7, &mut buf);
            assert(buf@ =~= http2::rst_stream_bytes(
                stream_id,
                connection_model::refused_stream(),
            ));
            return Ok(Action::Write { buf });
        }
        let headers_buf = Frame::strip_headers(flags, payload)?;
        let mut block: Vec<u8> = Vec::new();
        block.extend_from_slice(headers_buf);
        assert(block@ =~= headers_buf@);

        if !flags.is_end_headers() {
            self.continuation_buf = Some((stream_id, flags.is_end_stream(), block));
            return Ok(Action::Nothing);
        }
        self.awaiting = Some((stream_id, flags.is_end_stream()));
        Ok(Action::ReadHeaders { block })
    }

    fn continuation_frame(&mut self, flags: HeadFlags, payload: &[u8]) -> (r: Result<
        Action,
        Error,
    >)
        requires
            old(self).wf(),
        ensures
            final(self).wf(),
            same_outcome(
                *final(self),
                r,
                connection_model::on_continuation(old(self)@, flags, payload@),
            ),
    {
        match self.continuation_buf.take() {
            None => Err(Error::InvalidHttp2("unexpected CONTINUATION frame")),
            Some((stream_id, end_stream, mut buf)) => {
                buf.extend_from_slice(payload);
                assert(buf@ =~= (old(self)@.continuation->0).2 + payload@);
                if !flags.is_end_headers() {
                    self.continuation_buf = Some((stream_id, end_stream, buf));
                    return Ok(Action::Nothing);
                }
                self.awaiting = Some((stream_id, end_stream));
                Ok(Action::ReadHeaders { block: buf })
            },
        }
    }

    /// Take bytes of a frame header, and act on the frame where it has no payload.
    /// The result says how many bytes were taken.
    fn take_header(&mut self, read_buf: &[u8], pos: usize) -> (r: (usize, Result<Action, Error>))
        requires
            old(self).wf(),
            old(self)@.parsing is Header,
            pos < read_buf@.len(),
        ensures
            final(self).wf(),
            pos < r.0 <= read_buf@.len(),
            connection_model::unsettled(final(self)@) <= connection_model::unsettled(old(self)@),
            step_of(*old(self), *final(self), read_buf@.skip(pos as int), (r.0 - pos) as nat, r.1),
    {
        let ghost before = self@;
        let ghost h = self.header_buf@;
        let ghost bytes = read_buf@.skip(pos as int);
        let need: usize = 9 - self.header_buf.len();
        let avail: usize = read_buf.len() - pos;
        let take: usize = if need < avail {
            need
        } else {
            avail
        };
        self.header_buf.extend_from_slice(vstd::slice::slice_subrange(read_buf, pos, pos + take));
        proof {
            assert(read_buf@.subrange(pos as int, pos + take) =~= bytes.take(take as int));
            assert(self.header_buf@ =~= h + bytes.take(take as int));
        }
        if self.header_buf.len() < 9 {
            proof {
                connection_model::lemma_run_header(before, h, bytes, take as nat);
                assert(self@ == (ConnectionView { parsing: self@.parsing, ..before }));
            }
            return (pos + take, Ok(Action::Nothing));
        }
        proof {
            connection_model::lemma_run_header_end(before, h, bytes, take as nat);
        }
        let ghost full = self.header_buf@;
        let head = match FrameHeader::parse(self.header_buf.as_slice()) {
            Some(head) => head,
            None => {
                assert(false);
                return (pos + take, Ok(Action::Nothing));
            },
        };
        self.cur = head;
        self.cur_payload_read = 0;
        self.header_buf.clear();
        assert(self.header_buf@ =~= Seq::empty());
        if head.len == 0 {
            assert(self@ == connection_model::between_frames(before));
            let empty: Vec<u8> = Vec::new();
            assert(empty@ =~= Seq::empty());
            proof {
                connection_model::lemma_frame_counted(
                    self@,
                    head.kind,
                    head.flags,
                    head.stream_id,
                    Seq::empty(),
                );
            }
            let r = self.process_frame(head.kind, head.flags, head.stream_id, empty.as_slice());
            (pos + take, r)
        } else {
            self.control_buf.clear();
            assert(self.control_buf@ =~= Seq::empty());
            self.cur_direct = head.kind == FrameKind::Data && !head.flags.is_padded()
                && self.continuation_buf.is_none();
            self.state = ParseState::Payload;
            assert(self@ == connection_model::on_header(before, full).0);
            (pos + take, Ok(Action::Nothing))
        }
    }

    /// Take bytes of a payload, and act on the frame where it is complete with them.
    /// The result says how many bytes were taken.
    fn take_payload(&mut self, read_buf: &[u8], pos: usize) -> (r: (usize, Result<Action, Error>))
        requires
            old(self).wf(),
            old(self)@.parsing is Payload,
            pos < read_buf@.len(),
            connection_model::unsettled(old(self)@) + (read_buf@.len() - pos) <= usize::MAX,
        ensures
            final(self).wf(),
            pos < r.0 <= read_buf@.len(),
            connection_model::unsettled(final(self)@) <= connection_model::unsettled(old(self)@) + (
            r.0 - pos),
            step_of(*old(self), *final(self), read_buf@.skip(pos as int), (r.0 - pos) as nat, r.1),
    {
        let ghost before = self@;
        let ghost bytes = read_buf@.skip(pos as int);
        let head = self.cur;
        let ghost read = self.cur_payload_read as nat;
        let ghost control = self@.parsing->control;
        let remaining: usize = head.len - self.cur_payload_read;
        let avail: usize = read_buf.len() - pos;
        let take: usize = if remaining < avail {
            remaining
        } else {
            avail
        };
        let chunk = vstd::slice::slice_subrange(read_buf, pos, pos + take);
        assert(chunk@ =~= bytes.take(take as int));
        let direct = self.cur_direct;
        if take < remaining {
            if direct {
                self.append_data(head.stream_id, chunk);
            } else {
                self.control_buf.extend_from_slice(chunk);
                assert(self.control_buf@ =~= control + chunk@);
            }
            self.cur_payload_read += take;
            proof {
                connection_model::lemma_run_payload(
                    before,
                    head,
                    direct,
                    read,
                    control,
                    bytes,
                    take as nat,
                );
                assert(self@ == connection_model::with_payload(
                    before,
                    head,
                    direct,
                    read,
                    control,
                    chunk@,
                ));
            }
            return (pos + take, Ok(Action::Nothing));
        }
        proof {
            connection_model::lemma_run_payload_end(
                before,
                head,
                direct,
                read,
                control,
                bytes,
                take as nat,
            );
        }
        // Frame complete
        if direct {
            self.append_data(head.stream_id, chunk);
            self.state = ParseState::Header;
            assert(self.header_buf@ =~= Seq::empty());
            let r = self.end_data(head.stream_id, head.flags, head.len);
            (pos + take, r)
        } else {
            self.control_buf.extend_from_slice(chunk);
            assert(self.control_buf@ =~= control + chunk@);
            let mut payload: Vec<u8> = Vec::new();
            std::mem::swap(&mut payload, &mut self.control_buf);
            self.state = ParseState::Header;
            assert(self.header_buf@ =~= Seq::empty());
            assert(self@ == connection_model::between_frames(before));
            proof {
                connection_model::lemma_frame_counted(
                    self@,
                    head.kind,
                    head.flags,
                    head.stream_id,
                    payload@,
                );
            }
            let r = self.process_frame(head.kind, head.flags, head.stream_id, payload.as_slice());
            (pos + take, r)
        }
    }

    /// Take bytes of `read_buf` from `pos` on, until they are used up or something is
    /// to be done. The result says where to go on, and what is to be done.
    pub fn receive(&mut self, read_buf: &[u8], pos: usize) -> (r: Result<(usize, Action), Error>)
        requires
            old(self).wf(),
            old(self)@.awaiting is None,
            pos <= read_buf@.len(),
            connection_model::unsettled(old(self)@) + (read_buf@.len() - pos) <= usize::MAX,
        ensures
            final(self).wf(),
            same_run(
                *final(self),
                r,
                pos,
                connection_model::run(old(self)@, read_buf@.skip(pos as int)),
            ),
            r matches Ok((next, _)) ==> {
                &&& pos <= next <= read_buf@.len()
                &&& pos < read_buf@.len() ==> pos < next
                &&& connection_model::unsettled(final(self)@) + (read_buf@.len() - next)
                    <= connection_model::unsettled(old(self)@) + (read_buf@.len() - pos)
            },
    {
        let mut cur: usize = pos;
        let ghost start = self@;
        let ghost all = read_buf@.skip(pos as int);
        assert(read_buf@.skip(cur as int) =~= all);
        while cur < read_buf.len()
            invariant
                self.wf(),
                pos <= cur <= read_buf@.len(),
                start == old(self)@,
                all == read_buf@.skip(pos as int),
                connection_model::unsettled(self@) + (read_buf@.len() - cur)
                    <= connection_model::unsettled(start) + (read_buf@.len() - pos) <= usize::MAX,
                connection_model::run(start, all) == connection_model::after(
                    (cur - pos) as nat,
                    connection_model::run(self@, read_buf@.skip(cur as int)),
                ),
            decreases read_buf@.len() - cur,
        {
            let ghost at = cur;
            let (next, result) = match self.state {
                ParseState::Header => self.take_header(read_buf, cur),
                ParseState::Payload => self.take_payload(read_buf, cur),
            };
            assert(read_buf@.skip(at as int).skip(next - at) =~= read_buf@.skip(next as int));
            cur = next;
            match result {
                Ok(Action::Nothing) => {},
                Ok(action) => {
                    return Ok((cur, action));
                },
                Err(e) => {
                    return Err(e);
                },
            }
        }
        assert(read_buf@.skip(cur as int) =~= Seq::empty());
        Ok((cur, Action::Nothing))
    }

    /// The header block that was asked for has been read, and the services have said
    /// `route` about its path: the request is handed to its service, or waits for its
    /// body.
    pub fn headers_routed(&mut self, found: FoundHeaders, route: Option<(usize, usize)>) -> (r:
        Result<Action, Error>)
        requires
            old(self).wf(),
            old(self)@.awaiting is Some,
            route::path_within(found.path@, old(self)@.route_cache),
        ensures
            final(self).wf(),
            same_outcome(
                *final(self),
                r,
                connection_model::on_headers_read(
                    old(self)@,
                    found.path@,
                    found.encoding,
                    route,
                ),
            ),
    {
        let (stream_id, end_stream) = match self.awaiting.take() {
            Some(a) => a,
            None => {
                assert(false);
                return Ok(Action::Nothing);
            },
        };
        let (isvc, req_disc, encoding) = match route::settle_route(
            found,
            route,
            &mut self.route_cache,
        ) {
            Ok(route) => route,
            Err(e) => {
                return Err(e);
            },
        };
        if end_stream {
            return Ok(
                Action::Call { isvc, req_disc, stream_id, data: grpc_message::bytes_empty() },
            );
        }
        let ghost before = self.streams@;
        let stream = Stream { id: stream_id, isvc, req_disc, encoding, data: Vec::new() };
        self.streams.push(stream);
        proof {
            assert(stream@.data =~= Seq::empty());
            assert(stream_views(self.streams@) =~= stream_views(before).push(stream@));
        }
        Ok(Action::Nothing)
    }

    /// The header block that was asked for has been read: the services are asked about
    /// its path where it was spelt out.
    pub fn headers_read<S: PajamaxService>(&mut self, found: FoundHeaders, services: &[S]) -> (r:
        Result<Action, Error>)
        requires
            old(self).wf(),
            old(self)@.awaiting is Some,
            route::path_within(found.path@, old(self)@.route_cache),
        ensures
            final(self).wf(),
            connection_model::unsettled(final(self)@) == connection_model::unsettled(old(self)@),
            exists|route: Option<(usize, usize)>| #[trigger]
                route::route_found(services@, found.path@, route) && same_outcome(
                    *final(self),
                    r,
                    connection_model::on_headers_read(
                        old(self)@,
                        found.path@,
                        found.encoding,
                        route,
                    ),
                ),
    {
        let route = route::look_up(&found.path, services);
        self.headers_routed(found, route)
    }

    /// Whether a header block is complete and yet to be read.
    pub fn awaits_headers(&self) -> (r: bool)
        ensures
            r == (self@.awaiting is Some),
    {
        self.awaiting.is_some()
    }

    /// How many routes are cached.
    pub fn cached_routes(&self) -> (r: usize)
        ensures
            r == self@.route_cache.len(),
    {
        self.route_cache.len()
    }

    /// A read from the socket begins: no payload byte of it is counted yet.
    pub fn begin_read(&mut self)
        requires
            old(self).wf(),
        ensures
            final(self).wf(),
            final(self)@ == connection_model::at_read_begin(old(self)@),
            connection_model::unsettled(final(self)@) < 0x100_0000,
    {
        self.data_len = 0;
        self.stream_data_lens.clear();
        assert(self.stream_data_lens@ =~= Seq::empty());
    }

    /// A read from the socket ends: what came in on DATA frames is given back to the
    /// client as room to send.
    pub fn end_read(&mut self) -> (r: Option<RespJob>)
        requires
            old(self).wf(),
        ensures
            final(self).wf(),
            match r {
                Some(job) => old(self)@.data_len > 0 && job@ == (JobView::WindowUpdate {
                    len: old(self)@.data_len as usize,
                    stream_data_lens: old(self)@.stream_data_lens,
                }) && final(self)@ == (ConnectionView {
                    stream_data_lens: Seq::empty(),
                    ..old(self)@
                }),
                None => old(self)@.data_len == 0 && final(self)@ == old(self)@,
            },
    {
        if self.data_len == 0 {
            return None;
        }
        let mut lens: Vec<(u32, usize)> = Vec::new();
        std::mem::swap(&mut lens, &mut self.stream_data_lens);
        assert(self.stream_data_lens@ =~= Seq::empty());
        Some(RespJob::WindowUpdate { len: self.data_len, stream_data_lens: lens })
    }

    /// Nothing about the frame that is being received has changed.
    closed spec fn parser_unchanged(&self, before: Self) -> bool {
        &&& self.header_buf == before.header_buf
        &&& self.control_buf == before.control_buf
        &&& self.cur == before.cur
        &&& self.cur_direct == before.cur_direct
        &&& self.cur_payload_read == before.cur_payload_read
        &&& self.state == before.state
    }
}

} // verus!
