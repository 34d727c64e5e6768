//! What the results of the functions are, said of the results themselves.
use crate::balancer;
use crate::connection;
use crate::connection::{Action, Connection};
use crate::connection_model;
use crate::connection_model::{ActionView, Outcome, Parsing, RunView};
use crate::dispatch;
use crate::dispatch::{DispatchRequest, RequestTx};
use crate::error::{Error, ErrorView};
use crate::grpc_message;
use crate::grpc_message::GrpcEncoding;
use crate::http2;
use crate::response_end;
use crate::response_end::{JobView, RespJob, RespTx};
use crate::route;
use crate::route::{PajamaxService, PathKind, PathView};
use crate::status::{Code, Response, Status, StatusView};
use vstd::prelude::*;

verus! {

/// What is left of a payload is exactly what is said to be left, and an error is the one
/// that is said.
pub proof fn law_stripped_bytes(r: Result<&[u8], Error>, m: Result<Seq<u8>, ErrorView>)
    requires
        http2::same_bytes(r, m),
    ensures
        r is Ok <==> m is Ok,
        r matches Ok(v) ==> v@ == m->Ok_0,
        r matches Err(e) ==> e@ == m->Err_0,
{
}

/// A decoded message has exactly the bytes that are said, and an error is the one that is
/// said.
pub proof fn law_decoded_bytes(r: Result<bytes::Bytes, Error>, m: Result<Seq<u8>, ErrorView>)
    requires
        grpc_message::same_message(r, m),
    ensures
        r is Ok <==> m is Ok,
        r matches Ok(b) ==> grpc_message::bytes_contents(b) == m->Ok_0,
        r matches Err(e) ==> e@ == m->Err_0,
{
}

/// What a connection asks for holds what it is said to hold: all the bytes, the service,
/// the method and the stream.
pub proof fn law_action_held(a: Action)
    ensures
        a matches Action::Nothing ==> a@ is Nothing,
        a matches Action::Close ==> a@ is Close,
        a matches Action::Write { buf } ==> a@ == (ActionView::Write { buf: buf@ }),
        a matches Action::ReadHeaders { block } ==> a@ == (ActionView::ReadHeaders {
            block: block@,
        }),
        a matches Action::Call { isvc, req_disc, stream_id, data } ==> a@ == (ActionView::Call {
            isvc,
            req_disc,
            stream_id,
            data: grpc_message::bytes_contents(data),
        }),
{
}

/// A frame leads to the state and to the result that it is said to lead to.
pub proof fn law_frame_outcome(c: Connection, r: Result<Action, Error>, m: Outcome)
    requires
        connection::same_outcome(c, r, m),
    ensures
        c@ == m.0,
        r is Ok <==> m.1 is Ok,
        r matches Ok(a) ==> a@ == m.1->Ok_0,
        r matches Err(e) ==> e@ == m.1->Err_0,
{
}

/// A read leads to the state and to the result that it is said to lead to, and goes on
/// behind the bytes that were taken.
pub proof fn law_read_outcome(
    c: Connection,
    r: Result<(usize, Action), Error>,
    pos: usize,
    m: RunView,
)
    requires
        connection::same_run(c, r, pos, m),
    ensures
        c@ == m.state,
        r is Ok <==> m.result is Ok,
        r matches Ok((next, a)) ==> next == pos + m.taken && a@ == m.result->Ok_0,
        r matches Err(e) ==> e@ == m.result->Err_0,
{
}

/// A new connection has seen nothing and has nothing open; its limit is the one that it
/// was given.
pub proof fn law_new_connection(max_streams: usize)
    ensures
        ({
            let c = connection_model::fresh(max_streams);
            &&& c.max_streams == max_streams
            &&& c.streams.len() == 0
            &&& c.route_cache.len() == 0
            &&& c.continuation is None
            &&& c.last_client_stream_id == 0
            &&& c.awaiting is None
            &&& c.parsing == Parsing::Header(Seq::empty())
            &&& c.data_len == 0
            &&& c.stream_data_lens.len() == 0
        }),
{
}

/// As a read begins nothing of it is counted, and nothing else changes.
pub proof fn law_read_begin(c: connection_model::ConnectionView)
    ensures
        ({
            let d = connection_model::at_read_begin(c);
            &&& d.data_len == 0
            &&& d.stream_data_lens.len() == 0
            &&& d.max_streams == c.max_streams
            &&& d.streams == c.streams
            &&& d.route_cache == c.route_cache
            &&& d.continuation == c.continuation
            &&& d.last_client_stream_id == c.last_client_stream_id
            &&& d.awaiting == c.awaiting
            &&& d.parsing == c.parsing
        }),
{
}

/// A path is held as it is, and so is a place in the cache.
pub proof fn law_path_held(path: PathKind)
    ensures
        path matches PathKind::Cached(n) ==> path@ == PathView::Cached(n),
        path matches PathKind::Plain(p) ==> path@ == PathView::Plain(p@),
{
}

/// The service that is found knows the path, and none before it does; where none is found,
/// none knows it. Only the path of the request is asked about, and only where it was spelt
/// out.
pub proof fn law_first_service_that_knows<S: PajamaxService>(
    services: Seq<S>,
    path: Seq<u8>,
    route: Option<(usize, usize)>,
)
    requires
        route::route_found(services, PathView::Plain(path), route),
    ensures
        exists|asked: &[u8]| #[trigger]
            asked@ == path && match route {
                Some((isvc, req_disc)) => {
                    &&& isvc < services.len()
                    &&& call_ensures(S::route, (&services[isvc as int], asked), Some(req_disc))
                    &&& forall|j: int|
                        0 <= j < isvc ==> call_ensures(
                            S::route,
                            (&(#[trigger] services[j]), asked),
                            None,
                        )
                },
                None => forall|j: int|
                    0 <= j < services.len() ==> call_ensures(
                        S::route,
                        (&(#[trigger] services[j]), asked),
                        None,
                    ),
            },
{
    let asked = choose|asked: &[u8]| #[trigger]
        asked@ == path && route::found_by(services, asked, route);
    assert(asked@ == path);
}

/// A request goes to the place that is cached for its path, or to where the services say,
/// with the encoding of its own headers. It is refused only where its path was spelt out
/// and no service knows it, in the words of that path. What was cached stays in its place.
pub proof fn law_settled_route(
    before: Seq<(usize, usize)>,
    after: Seq<(usize, usize)>,
    path: PathView,
    encoding: GrpcEncoding,
    route: Option<(usize, usize)>,
    r: Result<(usize, usize, GrpcEncoding), Error>,
)
    requires
        route::routed(before, after, path, encoding, route, r),
    ensures
        r matches Ok((isvc, req_disc, enc)) ==> enc == encoding && match path {
            PathView::Cached(n) => (isvc, req_disc) == before[n as int],
            PathView::Plain(_) => route == Some((isvc, req_disc)),
        },
        r matches Err(e) ==> route is None && match path {
            PathView::Cached(_) => false,
            PathView::Plain(p) => e@ == ErrorView::UnknownMethod(route::lossy_text(p)),
        },
        before.is_prefix_of(after),
        after.len() <= before.len() + 1,
        after.len() > before.len() ==> path is Plain && route == Some(after.last()),
        path is Plain && route is Some ==> after.len() == before.len() + 1,
{
    route::law_cache_grows(before, path, route);
}

/// A job holds what it is said to hold: the whole reply, status, list or buffer, and its
/// stream.
pub proof fn law_job_held(job: RespJob)
    ensures
        job matches RespJob::Reply { stream_id, reply } ==> job@ == (JobView::Reply {
            stream_id,
            reply: reply@,
        }),
        job matches RespJob::Status { stream_id, status } ==> job@ == (JobView::Status {
            stream_id,
            status: StatusView { code: status.code, message: status.message@ },
        }),
        job matches RespJob::WindowUpdate { len, stream_data_lens } ==> job@
            == (JobView::WindowUpdate { len, stream_data_lens: stream_data_lens@ }),
        job matches RespJob::Write { buf } ==> job@ == (JobView::Write { buf: buf@ }),
{
}

/// A response goes out on its own stream, as the whole reply or as the status that it is.
pub proof fn law_response_job(stream_id: u32, reply: Vec<u8>, status: Status)
    ensures
        response_end::job_of(stream_id, Ok(reply)) == (JobView::Reply {
            stream_id,
            reply: reply@,
        }),
        response_end::job_of(stream_id, Err(status)) == (JobView::Status {
            stream_id,
            status: StatusView { code: status.code, message: status.message@ },
        }),
{
}

/// What is to be written as it is, is; a window update of nothing writes nothing. Neither
/// touches the header table.
pub proof fn law_written_as_it_is(
    table: Seq<crate::hpack_encoder::HeaderField>,
    buf: Seq<u8>,
    lens: Seq<(u32, usize)>,
)
    ensures
        response_end::job_bytes(table, JobView::Write { buf }) == buf,
        response_end::table_after_job(table, JobView::Write { buf }) == table,
        response_end::job_bytes(
            table,
            JobView::WindowUpdate { len: 0, stream_data_lens: lens },
        ).len() == 0,
        response_end::table_after_job(
            table,
            JobView::WindowUpdate { len: 0, stream_data_lens: lens },
        ) == table,
{
}

/// A job that was sent was handed to the channel of that sender whole. All is well exactly
/// where the channel took it; otherwise the channel is closed.
pub proof fn law_sent(tx: RespTx, job: JobView, r: Result<(), Error>)
    requires
        response_end::submitted(tx, job, r),
    ensures
        exists|given: RespJob, sent: Result<(), local_sync::mpsc::SendError>|
            given@ == job && #[trigger] call_ensures(
                local_sync::mpsc::unbounded::Tx::<RespJob>::send,
                (&tx, given),
                sent,
            ) && (r is Ok <==> sent is Ok),
        r matches Err(e) ==> e == Error::ChannelClosed,
{
}

/// A reply is encoded by its own `into`, and the whole of what that gives is kept; a
/// status stays what it is.
pub proof fn law_encoded<R: Into<Vec<u8>>>(response: Response<R>, encoded: Response<Vec<u8>>)
    requires
        response_end::encodes(response, encoded),
    ensures
        response is Ok <==> encoded is Ok,
        response matches Ok(reply) ==> call_ensures(
            <R as Into<Vec<u8>>>::into,
            (reply,),
            encoded->Ok_0,
        ),
        response matches Err(status) ==> encoded->Err_0 == status,
{
}

/// A request that is dispatched is handed to the channel of its worker as it is, with its
/// own stream and a way back into the channel of its connection.
pub proof fn law_handed_over<Req>(
    req_tx: RequestTx<Req>,
    request: Req,
    stream_id: u32,
    resp_tx: RespTx,
    sent: Result<(), local_sync::mpsc::SendError>,
)
    requires
        dispatch::handed_over(req_tx, request, stream_id, resp_tx, sent),
    ensures
        exists|given: DispatchRequest<Req>|
            given.request == request && given.stream.stream_id() == stream_id
                && response_end::channel_of(given.stream.resp_tx()) == response_end::channel_of(
                resp_tx,
            ) && #[trigger] call_ensures(
                local_sync::mpsc::unbounded::Tx::<DispatchRequest<Req>>::send,
                (&req_tx, given),
                sent,
            ),
{
}

/// Where the worker took the request, all is well and the client is told nothing. Where it
/// did not, the client is told on the stream of the request that the service is
/// unavailable.
pub proof fn law_told(
    sent: Result<(), local_sync::mpsc::SendError>,
    stream_id: u32,
    resp_tx: RespTx,
    r: Result<(), Error>,
)
    requires
        dispatch::follows(sent, stream_id, resp_tx, r),
    ensures
        sent is Ok <==> dispatch::refusal_of(sent) is None,
        sent is Ok ==> r is Ok,
        sent is Err ==> response_end::submitted(
            resp_tx,
            JobView::Status {
                stream_id,
                status: StatusView {
                    code: Code::Unavailable,
                    message: "dispatch channel is closed"@,
                },
            },
            r,
        ),
{
}

/// A response is pending exactly where its code says so, whatever its message is.
pub proof fn law_pending(reply: Vec<u8>, status: Status)
    ensures
        !dispatch::says_pending(Response::<Vec<u8>>::Ok(reply)),
        dispatch::says_pending(Response::<Vec<u8>>::Err(status)) <==> status.code
            == Code::DispatchPending,
{
}

/// A connection that is dispatched is handed to the channel of the worker whose turn it is.
pub proof fn law_dispatched_to<T>(worker: flume::Sender<T>, item: T)
    requires
        balancer::sent_to(worker, item),
    ensures
        exists|sent: Result<(), flume::SendError<T>>| #[trigger]
            call_ensures(flume::Sender::<T>::send, (&worker, item), sent),
{
}

/// An error is of the kind that it is said to be, with all of its text; and the words in
/// front of an error depend on its kind alone.
pub proof fn law_error_held(e: Error, a: Seq<char>, b: Seq<char>)
    ensures
        e matches Error::InvalidHttp2(s) ==> e@ == ErrorView::InvalidHttp2(s@),
        e matches Error::InvalidHpack(s) ==> e@ == ErrorView::InvalidHpack(s@),
        e matches Error::InvalidHuffman ==> e@ is InvalidHuffman,
        e matches Error::InvalidProtobuf(_) ==> e@ is InvalidProtobuf,
        e matches Error::IoFail(_) ==> e@ is IoFail,
        e matches Error::ChannelClosed ==> e@ is ChannelClosed,
        e matches Error::UnknownMethod(m) ==> e@ == ErrorView::UnknownMethod(m@),
        e matches Error::NoPathSet ==> e@ is NoPathSet,
        ErrorView::InvalidHttp2(a).label() == ErrorView::InvalidHttp2(b).label(),
        ErrorView::InvalidHpack(a).label() == ErrorView::InvalidHpack(b).label(),
        ErrorView::UnknownMethod(a).label() == ErrorView::UnknownMethod(b).label(),
{
}

} // verus!
