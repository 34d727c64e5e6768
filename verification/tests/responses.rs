use pajamax::dispatch::{
    dispatch, dispatch_request, dispatched, is_pending, pending, refusal, DispatchRequest,
};
use pajamax::error::Error;
use pajamax::hpack_encoder::Encoder;
use pajamax::http2::{build_response, build_status, build_window_update};
use pajamax::response_end::{
    encode_response, resp_channel, response_job, send_outcome, send_response, send_response_box, submit, write_job,
    RespJob,
};
use pajamax::status::{Code, Response, Status};

fn not_found() -> Status {
    Status { code: Code::NotFound, message: String::from("no such key") }
}

#[test]
fn jobs_of_responses() {
    match response_job(3, Ok(vec![1, 2])) {
        RespJob::Reply { stream_id, reply } => assert_eq!((stream_id, reply), (3, vec![1, 2])),
        _ => panic!("not a reply"),
    }
    match response_job(5, Err(not_found())) {
        RespJob::Status { stream_id, status } => {
            assert_eq!(stream_id, 5);
            assert_eq!(status.code, Code::NotFound);
            assert_eq!(status.message, "no such key");
        }
        _ => panic!("not a status"),
    }
}

#[test]
fn responses_go_through_the_channel_in_order() {
    let (tx, mut rx) = resp_channel();
    send_response(&tx, 1, Ok(vec![7])).unwrap();
    send_response_box(&tx, 3, Response::<Vec<u8>>::Err(not_found())).unwrap();
    assert!(matches!(rx.try_recv(), Ok(RespJob::Reply { stream_id: 1, .. })));
    assert!(matches!(rx.try_recv(), Ok(RespJob::Status { stream_id: 3, .. })));
    assert!(rx.try_recv().is_err());
}

#[test]
fn a_closed_channel_is_reported() {
    let (tx, rx) = resp_channel();
    drop(rx);
    assert!(matches!(send_response(&tx, 1, Ok(vec![])), Err(Error::ChannelClosed)));
    assert!(matches!(
        send_response_box(&tx, 1, Response::<Vec<u8>>::Err(not_found())),
        Err(Error::ChannelClosed)
    ));
}

#[test]
fn jobs_on_the_wire() {
    let mut encoder = Encoder::new();
    let mut expected_encoder = Encoder::new();
    let mut output = Vec::new();
    let mut expected = Vec::new();

    write_job(RespJob::Reply { stream_id: 1, reply: vec![9] }, &mut encoder, &mut output);
    build_response(1, &[9], &mut expected_encoder, &mut expected);
    assert_eq!(output, expected);

    write_job(RespJob::Status { stream_id: 3, status: not_found() }, &mut encoder, &mut output);
    build_status(3, &not_found(), &mut expected_encoder, &mut expected);
    assert_eq!(output, expected);

    let job = RespJob::WindowUpdate { len: 30, stream_data_lens: vec![(1, 10), (3, 20)] };
    write_job(job, &mut encoder, &mut output);
    build_window_update(30, 0, &mut expected);
    build_window_update(10, 1, &mut expected);
    build_window_update(20, 3, &mut expected);
    assert_eq!(output, expected);

    write_job(RespJob::Write { buf: vec![1, 2, 3] }, &mut encoder, &mut output);
    expected.extend_from_slice(&[1, 2, 3]);
    assert_eq!(output, expected);
}

#[test]
fn an_empty_window_update_writes_nothing() {
    let mut encoder = Encoder::new();
    let mut output = Vec::new();
    let job = RespJob::WindowUpdate { len: 0, stream_data_lens: vec![(1, 0)] };
    write_job(job, &mut encoder, &mut output);
    assert!(output.is_empty());
}

#[test]
fn dispatched_requests_are_answered_on_their_connection() {
    let (tx, mut rx) = resp_channel();
    let (req_tx, mut req_rx) =
        local_sync::mpsc::unbounded::channel::<DispatchRequest<&'static str>>();
    dispatch(&req_tx, "get", 9, &tx).unwrap();
    let Ok(got) = req_rx.try_recv() else {
        panic!("no request");
    };
    assert_eq!(got.request, "get");
    got.stream.response(Response::<Vec<u8>>::Ok(vec![4, 2]));
    match rx.try_recv() {
        Ok(RespJob::Reply { stream_id, reply }) => {
            assert_eq!((stream_id, reply), (9, vec![4, 2]));
        }
        _ => panic!("no reply"),
    }
}

#[test]
fn a_request_carries_the_way_back() {
    let (tx, mut rx) = resp_channel();
    let request = dispatch_request(12u64, 5, &tx);
    assert_eq!(request.request, 12);
    request.stream.respond(Response::<Vec<u8>>::Err(not_found())).unwrap();
    assert!(matches!(rx.try_recv(), Ok(RespJob::Status { stream_id: 5, .. })));
    drop(rx);
    assert!(matches!(request.stream.respond(Response::<Vec<u8>>::Ok(vec![])), Err(Error::ChannelClosed)));
}

#[test]
fn a_request_without_a_worker_is_unavailable() {
    let (tx, mut rx) = resp_channel();
    let (req_tx, req_rx) = local_sync::mpsc::unbounded::channel::<DispatchRequest<u8>>();
    drop(req_rx);
    dispatch(&req_tx, 1, 9, &tx).unwrap();
    match rx.try_recv() {
        Ok(RespJob::Status { stream_id, status }) => {
            assert_eq!(stream_id, 9);
            assert_eq!(status.code, Code::Unavailable);
            assert_eq!(status.message, "dispatch channel is closed");
        }
        _ => panic!("no status"),
    }
    drop(rx);
    assert!(matches!(dispatch(&req_tx, 1, 9, &tx), Err(Error::ChannelClosed)));
}

#[test]
fn a_request_that_was_handed_over_is_not_answered_yet() {
    let (tx, mut rx) = resp_channel();
    dispatched(Ok(()), 1, &tx).unwrap();
    assert!(rx.try_recv().is_err());
}

#[test]
fn pending_responses() {
    let later: Response<Vec<u8>> = pending();
    assert!(is_pending(&later));
    match &later {
        Err(status) => {
            assert_eq!(status.code, Code::DispatchPending);
            assert_eq!(status.message, "");
        }
        Ok(_) => panic!("not pending"),
    }
    let done: Response<Vec<u8>> = Ok(vec![]);
    assert!(!is_pending(&done));
    let failed: Response<Vec<u8>> = Err(not_found());
    assert!(!is_pending(&failed));
}

#[test]
fn any_job_can_be_submitted() {
    let (tx, mut rx) = resp_channel();
    submit(&tx, RespJob::Write { buf: vec![5] }).unwrap();
    match rx.try_recv() {
        Ok(RespJob::Write { buf }) => assert_eq!(buf, vec![5]),
        _ => panic!("no job"),
    }
    drop(rx);
    assert!(matches!(
        submit(&tx, RespJob::Write { buf: vec![5] }),
        Err(Error::ChannelClosed)
    ));
}

#[test]
fn one_job_after_the_other() {
    let mut encoder = Encoder::new();
    let mut output = Vec::new();
    write_job(RespJob::Status { stream_id: 1, status: not_found() }, &mut encoder, &mut output);
    output.clear();

    // the content type is known by now, the status 0 is not
    write_job(RespJob::Reply { stream_id: 3, reply: vec![] }, &mut encoder, &mut output);
    assert_eq!(&output[9..11], &[0x88, 0x80 | 62]);
    let trailers = &output[output.len() - 15..];
    assert_eq!(trailers, b"\x40\x0bgrpc-status\x010");
    output.clear();

    // both are known, and the name of the status serves other codes
    write_job(RespJob::Status { stream_id: 5, status: not_found() }, &mut encoder, &mut output);
    let expected = b"\x88\xbf\x0f\x2f\x015\x00\x0cgrpc-message\x0bno such key";
    assert_eq!(&output[..9], &[0, 0, expected.len() as u8, 1, 5, 0, 0, 0, 5]);
    assert_eq!(&output[9..], expected);
    output.clear();

    write_job(RespJob::Reply { stream_id: 7, reply: vec![] }, &mut encoder, &mut output);
    assert_eq!(&output[9..11], &[0x88, 0x80 | 63]);
    assert_eq!(output.last(), Some(&(0x80 | 62)));
}

#[test]
fn what_a_send_comes_to() {
    assert!(send_outcome(Ok(())).is_ok());
    let (tx, rx) = local_sync::mpsc::unbounded::channel::<u8>();
    drop(rx);
    assert!(matches!(send_outcome(tx.send(1)), Err(Error::ChannelClosed)));
}

struct Number(u8);

impl From<Number> for Vec<u8> {
    fn from(n: Number) -> Self {
        vec![n.0, n.0]
    }
}

#[test]
fn replies_encode_themselves() {
    assert!(matches!(encode_response(Ok(Number(3))), Ok(bytes) if bytes == vec![3, 3]));
    let failed: Response<Number> = Err(not_found());
    assert!(matches!(encode_response(failed), Err(status) if status.code == Code::NotFound));

    let (tx, mut rx) = resp_channel();
    dispatch_request((), 5, &tx).stream.response(Ok(Number(7)));
    match rx.try_recv() {
        Ok(RespJob::Reply { stream_id, reply }) => assert_eq!((stream_id, reply), (5, vec![7, 7])),
        _ => panic!("no reply"),
    }
}

#[test]
fn what_the_client_is_told() {
    assert!(refusal(Ok(())).is_none());
    let (tx, rx) = local_sync::mpsc::unbounded::channel::<u8>();
    drop(rx);
    let status = refusal(tx.send(1)).unwrap();
    assert_eq!(status.code, Code::Unavailable);
    assert_eq!(status.message, "dispatch channel is closed");
}
