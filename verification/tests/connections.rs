use pajamax::config::Config;
use pajamax::connection::{Action, Connection};
use pajamax::error::Error;
use pajamax::grpc_message::GrpcEncoding;
use pajamax::http2::{FrameKind, HeadFlags};
use pajamax::response_end::RespJob;
use pajamax::route::{FoundHeaders, PajamaxService, PathKind};

struct Greeter;

impl PajamaxService for Greeter {
    fn route(&self, path: &[u8]) -> Option<usize> {
        match path {
            b"/hello.Greeter/Hi" => Some(4),
            b"/hello.Greeter/Bye" => Some(6),
            _ => None,
        }
    }

    fn is_dispatch_mode(&self) -> bool {
        false
    }
}

fn config() -> Config {
    Config { max_concurrent_connections: 10, max_concurrent_streams: 2 }
}

fn frame(kind: u8, flags: u8, stream_id: u32, payload: &[u8]) -> Vec<u8> {
    let len = payload.len() as u32;
    let mut bytes = len.to_be_bytes()[1..].to_vec();
    bytes.push(kind);
    bytes.push(flags);
    bytes.extend_from_slice(&stream_id.to_be_bytes());
    bytes.extend_from_slice(payload);
    bytes
}

/// A header block of these tests is the path itself, or `#` and the place in the cache.
fn read_block(block: &[u8]) -> FoundHeaders {
    let path = if block.first() == Some(&b'#') {
        PathKind::Cached((block[1] - b'0') as usize)
    } else {
        PathKind::Plain(block.to_vec())
    };
    FoundHeaders { path, encoding: GrpcEncoding::Identity }
}

#[derive(Debug, PartialEq)]
enum Event {
    Closed,
    Wrote(Vec<u8>),
    Asked(Vec<u8>),
    Called(usize, usize, u32, Vec<u8>),
    Update(usize, Vec<(u32, usize)>),
}

fn note(action: Action, events: &mut Vec<Event>) -> Option<Vec<u8>> {
    match action {
        Action::Nothing => {}
        Action::Close => events.push(Event::Closed),
        Action::Write { buf } => events.push(Event::Wrote(buf)),
        Action::ReadHeaders { block } => {
            events.push(Event::Asked(block.clone()));
            return Some(block);
        }
        Action::Call { isvc, req_disc, stream_id, data } => {
            events.push(Event::Called(isvc, req_disc, stream_id, data.to_vec()));
        }
    }
    None
}

/// What the connection asks for when the bytes come in reads of this size.
fn drive(bytes: &[u8], size: usize) -> (Vec<Event>, Result<(), Error>) {
    let services = vec![Greeter];
    let mut connection = Connection::new(config());
    let mut events = Vec::new();
    for read in bytes.chunks(size) {
        connection.begin_read();
        let mut pos: usize = 0;
        while pos < read.len() {
            match connection.receive(read, pos) {
                Err(e) => return (events, Err(e)),
                Ok((next, action)) => {
                    pos = next;
                    if let Some(block) = note(action, &mut events) {
                        assert!(connection.awaits_headers());
                        match connection.headers_read(read_block(&block), &services) {
                            Err(e) => return (events, Err(e)),
                            Ok(action) => {
                                note(action, &mut events);
                            }
                        }
                        assert!(!connection.awaits_headers());
                    }
                }
            }
        }
        if let Some(RespJob::WindowUpdate { len, stream_data_lens }) = connection.end_read() {
            events.push(Event::Update(len, stream_data_lens));
        }
    }
    (events, Ok(()))
}

fn refusal(bytes: &[u8]) -> &'static str {
    match drive(bytes, 1000).1 {
        Err(Error::InvalidHttp2(s)) => s,
        _ => panic!("not refused"),
    }
}

fn message(text: &[u8]) -> Vec<u8> {
    let mut body = vec![0];
    body.extend_from_slice(&(text.len() as u32).to_be_bytes());
    body.extend_from_slice(text);
    body
}

const HI: &[u8] = b"/hello.Greeter/Hi";
const BYE: &[u8] = b"/hello.Greeter/Bye";

#[test]
fn a_request_reaches_its_service() {
    let mut bytes = frame(1, 0x04, 1, HI);
    bytes.extend(frame(0, 0x01, 1, &message(b"Bob")));
    let (events, r) = drive(&bytes, 1000);
    r.unwrap();
    assert_eq!(
        events,
        vec![
            Event::Asked(HI.to_vec()),
            Event::Called(0, 4, 1, b"Bob".to_vec()),
            Event::Update(8, vec![(1, 8)]),
        ]
    );
}

#[test]
fn a_body_in_parts() {
    let body = message(b"Robert");
    let mut bytes = frame(1, 0x04, 1, HI);
    bytes.extend(frame(0, 0, 1, &body[..4]));
    bytes.extend(frame(0, 0, 1, b""));
    bytes.extend(frame(0, 0x08, 1, &[&[2], &body[4..7], &[0, 0]].concat()));
    bytes.extend(frame(0, 0x01, 1, &body[7..]));
    let (events, r) = drive(&bytes, 1000);
    r.unwrap();
    assert_eq!(events[1], Event::Called(0, 4, 1, b"Robert".to_vec()));
    assert_eq!(events[2], Event::Update(4 + 6 + 4, vec![(1, 4), (1, 0), (1, 6), (1, 4)]));
}

#[test]
fn a_request_without_a_body() {
    let (events, r) = drive(&frame(1, 0x05, 1, BYE), 1000);
    r.unwrap();
    assert_eq!(
        events,
        vec![Event::Asked(BYE.to_vec()), Event::Called(0, 6, 1, vec![])]
    );
}

#[test]
fn a_header_block_in_parts() {
    let mut bytes = frame(1, 0x01, 1, b"/hello.");
    bytes.extend(frame(9, 0, 1, b"Greeter"));
    bytes.extend(frame(9, 0x04, 1, b"/Hi"));
    let (events, r) = drive(&bytes, 1000);
    r.unwrap();
    assert_eq!(
        events,
        vec![Event::Asked(HI.to_vec()), Event::Called(0, 4, 1, vec![])]
    );
}

#[test]
fn cached_paths() {
    let mut bytes = frame(1, 0x05, 1, BYE);
    bytes.extend(frame(1, 0x05, 3, HI));
    bytes.extend(frame(1, 0x05, 5, b"#0"));
    let (events, r) = drive(&bytes, 1000);
    r.unwrap();
    assert_eq!(events[5], Event::Called(0, 6, 5, vec![]));
}

#[test]
fn reads_may_be_cut_anywhere() {
    let mut bytes = frame(4, 0, 0, &[0, 3, 0, 0, 0, 100]);
    bytes.extend(frame(1, 0x04, 1, HI));
    bytes.extend(frame(1, 0x2c, 3, &[&[1, 0, 0, 0, 0, 16], BYE, &[0]].concat()));
    bytes.extend(frame(6, 0, 0, b"pingpong"));
    bytes.extend(frame(0, 0, 1, &message(b"Bob")[..3]));
    bytes.extend(frame(0, 0x01, 3, &message(b"Eve")));
    bytes.extend(frame(0, 0x01, 1, &message(b"Bob")[3..]));
    let actions = |size: usize| {
        let (events, r) = drive(&bytes, size);
        r.unwrap();
        let kept: Vec<Event> =
            events.into_iter().filter(|e| !matches!(e, Event::Update(_, _))).collect();
        kept
    };
    let whole = actions(1000);
    assert_eq!(
        whole,
        vec![
            Event::Wrote(vec![0, 0, 0, 4, 1, 0, 0, 0, 0]),
            Event::Asked(HI.to_vec()),
            Event::Asked(BYE.to_vec()),
            Event::Wrote(frame(6, 1, 0, b"pingpong")),
            Event::Called(0, 6, 3, b"Eve".to_vec()),
            Event::Called(0, 4, 1, b"Bob".to_vec()),
        ]
    );
    for size in 1..40usize {
        assert_eq!(actions(size), whole);
    }
}

#[test]
fn every_payload_byte_is_given_back() {
    let mut bytes = frame(1, 0x04, 1, HI);
    bytes.extend(frame(0, 0, 1, &message(b"a long enough message")));
    bytes.extend(frame(0, 0x09, 1, &[3, 0, 0, 0]));
    bytes.extend(frame(0, 0, 99, b"nobody's"));
    for size in 1..80usize {
        let (events, r) = drive(&bytes, size);
        r.unwrap();
        let mut total: usize = 0;
        for e in events {
            if let Event::Update(len, lens) = e {
                total += len;
                assert_eq!(len, lens.iter().map(|l| l.1).sum::<usize>());
            }
        }
        assert_eq!(total, 26 + 4 + 8);
    }
}

#[test]
fn requests_beyond_the_limit_are_refused() {
    let mut bytes = frame(1, 0x04, 1, HI);
    bytes.extend(frame(1, 0x04, 3, HI));
    bytes.extend(frame(1, 0x04, 5, HI));
    let (events, r) = drive(&bytes, 1000);
    r.unwrap();
    assert_eq!(events[2], Event::Wrote(frame(3, 0, 5, &[0, 0, 0, 7])));
    // with one request over there is room again
    bytes.extend(frame(3, 0, 3, &[0, 0, 0, 8]));
    bytes.extend(frame(1, 0x04, 7, BYE));
    let (events, r) = drive(&bytes, 1000);
    r.unwrap();
    assert_eq!(events[3], Event::Asked(BYE.to_vec()));
}

#[test]
fn a_reset_request_is_not_handled() {
    let mut bytes = frame(1, 0x04, 1, HI);
    bytes.extend(frame(3, 0, 1, &[0, 0, 0, 8]));
    bytes.extend(frame(0, 0x01, 1, &message(b"Bob")));
    let (events, r) = drive(&bytes, 1000);
    r.unwrap();
    assert_eq!(events, vec![Event::Asked(HI.to_vec()), Event::Update(8, vec![(1, 8)])]);
}

#[test]
fn a_request_is_handled_once() {
    let mut bytes = frame(1, 0x04, 1, HI);
    bytes.extend(frame(0, 0x01, 1, &message(b"Bob")));
    bytes.extend(frame(0, 0x01, 1, &message(b"Bob")));
    let (events, r) = drive(&bytes, 1000);
    r.unwrap();
    let calls = events.iter().filter(|e| matches!(e, Event::Called(_, _, _, _))).count();
    assert_eq!(calls, 1);
    assert_eq!(
        refusal(&[bytes, frame(1, 0x04, 1, HI)].concat()),
        "client stream ID must be monotonically increasing"
    );
}

#[test]
fn goaway_closes() {
    let (events, r) = drive(&frame(7, 0, 0, &[0; 8]), 1000);
    r.unwrap();
    assert_eq!(events, vec![Event::Closed]);
    assert_eq!(refusal(&frame(7, 0, 0, &[0; 7])), "GOAWAY payload must be at least 8 bytes");
}

#[test]
fn acknowledgements_are_not_answered() {
    let mut bytes = frame(4, 1, 0, b"");
    bytes.extend(frame(6, 1, 0, b"12345678"));
    bytes.extend(frame(8, 0, 0, &[0, 0, 0, 1]));
    bytes.extend(frame(2, 0, 1, &[0; 5]));
    bytes.extend(frame(77, 0, 1, b"?"));
    let (events, r) = drive(&bytes, 1000);
    r.unwrap();
    assert!(events.is_empty());
}

#[test]
fn frames_in_the_wrong_place() {
    assert_eq!(refusal(&frame(1, 0x04, 0, HI)), "DATA/HEADERS must not be on stream 0");
    assert_eq!(refusal(&frame(0, 0x08, 0, &[0])), "DATA/HEADERS must not be on stream 0");
    assert_eq!(refusal(&frame(0, 0, 0, b"")), "DATA/HEADERS must not be on stream 0");
    assert_eq!(refusal(&frame(4, 0, 1, b"")), "SETTINGS/PING/GOAWAY must be on stream 0");
    assert_eq!(refusal(&frame(6, 0, 1, b"")), "SETTINGS/PING/GOAWAY must be on stream 0");
    assert_eq!(refusal(&frame(7, 0, 1, &[0; 8])), "SETTINGS/PING/GOAWAY must be on stream 0");
    assert_eq!(refusal(&frame(1, 0x04, 2, HI)), "client stream ID must be odd");
    assert_eq!(
        refusal(&[frame(1, 0x04, 3, HI), frame(1, 0x04, 1, HI)].concat()),
        "client stream ID must be monotonically increasing"
    );
}

#[test]
fn continuation_frames_out_of_turn() {
    assert_eq!(refusal(&frame(9, 0x04, 1, HI)), "unexpected CONTINUATION frame");
    assert_eq!(
        refusal(&[frame(1, 0, 1, HI), frame(4, 0, 0, b"")].concat()),
        "expected CONTINUATION frame"
    );
    assert_eq!(
        refusal(&[frame(1, 0, 1, HI), frame(9, 0x04, 3, b"")].concat()),
        "CONTINUATION stream ID mismatch"
    );
}

#[test]
fn data_on_stream_zero_is_counted_and_ignored() {
    let mut bytes = frame(0, 0x01, 0, b"data");
    bytes.extend(frame(1, 0x05, 1, HI));
    let (events, r) = drive(&bytes, 1000);
    r.unwrap();
    assert_eq!(
        events,
        vec![
            Event::Asked(HI.to_vec()),
            Event::Called(0, 4, 1, vec![]),
            Event::Update(4, vec![(0, 4)]),
        ]
    );
}

#[test]
fn data_while_a_header_block_goes_on() {
    for flags in [0u8, 0x01, 0x08] {
        for payload in [&b""[..], &[0u8][..], &[0u8, b'x'][..]] {
            let mut bytes = frame(1, 0x04, 1, HI);
            bytes.extend(frame(1, 0, 3, HI));
            bytes.extend(frame(0, flags, 1, payload));
            assert_eq!(refusal(&bytes), "expected CONTINUATION frame");
            for size in 1..20usize {
                let (events, r) = drive(&bytes, size);
                assert!(matches!(r, Err(Error::InvalidHttp2("expected CONTINUATION frame"))));
                assert_eq!(events, vec![Event::Asked(HI.to_vec())]);
            }
        }
    }
}

#[test]
fn frames_of_the_wrong_size() {
    assert_eq!(refusal(&frame(3, 0, 1, &[0; 3])), "RST_STREAM payload must be 4 bytes");
    assert_eq!(refusal(&frame(8, 0, 1, &[0; 5])), "WINDOW_UPDATE payload must be 4 bytes");
    assert_eq!(
        refusal(&frame(8, 0, 1, &[0x80, 0, 0, 0])),
        "WINDOW_UPDATE increment must be non-zero"
    );
    assert_eq!(refusal(&frame(0, 0x08, 1, &[1])), "invalid padding");
    assert_eq!(refusal(&frame(1, 0x24, 1, &[0; 4])), "HEADERS too short for priority");
}

#[test]
fn bodies_that_are_no_messages() {
    let mut bytes = frame(1, 0x04, 1, HI);
    bytes.extend(frame(0, 0x01, 1, b"1234"));
    assert_eq!(refusal(&bytes), "DATA too short for grpc");
    let mut bytes = frame(1, 0x04, 1, HI);
    bytes.extend(frame(0, 0x01, 1, b"12345"));
    assert_eq!(refusal(&bytes), "compressed flag set but no grpc-encoding");
}

#[test]
fn unknown_methods_are_refused() {
    match drive(&frame(1, 0x04, 1, b"/hello.Greeter/Nope"), 1000).1 {
        Err(Error::UnknownMethod(m)) => assert_eq!(m, "/hello.Greeter/Nope"),
        _ => panic!("the method is known"),
    }
}

#[test]
fn single_frames() {
    let mut connection = Connection::new(config());
    let r = connection.process_frame(FrameKind::Headers, HeadFlags(0x04), 1, HI);
    assert!(matches!(r, Ok(Action::ReadHeaders { .. })));
    assert!(connection.awaits_headers());
    assert_eq!(connection.cached_routes(), 0);
    let r = connection.headers_read(read_block(HI), &[Greeter]);
    assert!(matches!(r, Ok(Action::Nothing)));
    assert_eq!(connection.cached_routes(), 1);
    let r = connection.process_frame(FrameKind::Data, HeadFlags(0x01), 1, &message(b"Bob"));
    match r {
        Ok(Action::Call { isvc, req_disc, stream_id, data }) => {
            assert_eq!((isvc, req_disc, stream_id), (0, 4, 1));
            assert_eq!(&data[..], b"Bob");
        }
        _ => panic!("no call"),
    }
    let Some(RespJob::WindowUpdate { len, stream_data_lens }) = connection.end_read() else {
        panic!("no window update");
    };
    assert_eq!((len, stream_data_lens), (8, vec![(1, 8)]));
    connection.begin_read();
    assert!(connection.end_read().is_none());
}

#[test]
fn a_given_route_is_taken() {
    let mut connection = Connection::new(config());
    let r = connection.process_frame(FrameKind::Headers, HeadFlags(0x05), 1, HI);
    assert!(r.is_ok());
    match connection.headers_routed(read_block(HI), Some((7, 8))) {
        Ok(Action::Call { isvc, req_disc, stream_id, data }) => {
            assert_eq!((isvc, req_disc, stream_id), (7, 8, 1));
            assert!(data.is_empty());
        }
        _ => panic!("no call"),
    }
    let r = connection.process_frame(FrameKind::Headers, HeadFlags(0x05), 3, HI);
    assert!(r.is_ok());
    let r = connection.headers_routed(read_block(HI), None);
    assert!(matches!(r, Err(Error::UnknownMethod(_))));
}
