//! Responses on their way from the handlers to the socket.
use crate::error::Error;
use crate::hpack_encoder::{Encoder, HeaderField};
use crate::http2;
use crate::status::{Response, Status, StatusView};
use vstd::prelude::*;

verus! {

/// A response job sent from handlers to the writer.
pub enum RespJob {
    /// A successful response; `reply` is the encoded message.
    Reply { stream_id: u32, reply: Vec<u8> },
    Status { stream_id: u32, status: Status },
    WindowUpdate { len: usize, stream_data_lens: Vec<(u32, usize)> },
    Write { buf: Vec<u8> },
}

/// A job as a value.
pub enum JobView {
    Reply { stream_id: u32, reply: Seq<u8> },
    Status { stream_id: u32, status: StatusView },
    WindowUpdate { len: usize, stream_data_lens: Seq<(u32, usize)> },
    Write { buf: Seq<u8> },
}

impl View for RespJob {
    type V = JobView;

    open spec fn view(&self) -> JobView {
        match self {
            RespJob::Reply { stream_id, reply } => JobView::Reply {
                stream_id: *stream_id,
                reply: reply@,
            },
            RespJob::Status { stream_id, status } => JobView::Status {
                stream_id: *stream_id,
                status: status@,
            },
            RespJob::WindowUpdate { len, stream_data_lens } => JobView::WindowUpdate {
                len: *len,
                stream_data_lens: stream_data_lens@,
            },
            RespJob::Write { buf } => JobView::Write { buf: buf@ },
        }
    }
}

/// The window updates for the streams that data came in on, in order.
pub open spec fn stream_updates(lens: Seq<(u32, usize)>) -> Seq<u8>
    decreases lens.len(),
{
    if lens.len() == 0 {
        Seq::empty()
    } else {
        stream_updates(lens.drop_last()) + http2::window_update_bytes(lens.last().1, lens.last().0)
    }
}

/// What a job puts on the wire, given the header table of the peer.
pub open spec fn job_bytes(table: Seq<HeaderField>, job: JobView) -> Seq<u8> {
    match job {
        JobView::Reply { stream_id, reply } => http2::reply_bytes(table, stream_id, reply),
        JobView::Status { stream_id, status } => http2::status_bytes(table, stream_id, status),
        JobView::WindowUpdate { len, stream_data_lens } => if len > 0 {
            http2::window_update_bytes(len, 0) + stream_updates(stream_data_lens)
        } else {
            Seq::empty()
        },
        JobView::Write { buf } => buf,
    }
}

/// The header table of the peer behind a job.
pub open spec fn table_after_job(table: Seq<HeaderField>, job: JobView) -> Seq<HeaderField> {
    match job {
        JobView::Reply { .. } => http2::table_after_reply(table),
        JobView::Status { .. } => http2::table_after_headers(table),
        _ => table,
    }
}

/// Append what a job puts on the wire to `output`.
pub fn write_job(job: RespJob, hpack_encoder: &mut Encoder, output: &mut Vec<u8>)
    requires
        old(hpack_encoder).wf(),
    ensures
        final(hpack_encoder).wf(),
        final(hpack_encoder)@ == table_after_job(old(hpack_encoder)@, job@),
        final(output)@ == old(output)@ + job_bytes(old(hpack_encoder)@, job@),
{
    match job {
        RespJob::Reply { stream_id, reply } => {
            http2::build_response(stream_id, reply.as_slice(), hpack_encoder, output);
        },
        RespJob::Status { stream_id, status } => {
            http2::build_status(stream_id, &status, hpack_encoder, output);
        },
        RespJob::WindowUpdate { len, stream_data_lens } => {
            if len > 0 {
                http2::build_window_update(len, 0, output);
                let ghost head = output@;
                let mut i: usize = 0;
                while i < stream_data_lens.len()
                    invariant
                        i <= stream_data_lens@.len(),
                        output@ == head + stream_updates(stream_data_lens@.take(i as int)),
                    decreases stream_data_lens@.len() - i,
                {
                    let (stream_id, stream_len) = stream_data_lens[i];
                    let ghost before = output@;
                    http2::build_window_update(stream_len, stream_id, output);
                    i += 1;
                    proof {
                        let done = stream_data_lens@.take(i as int);
                        assert(done.drop_last() =~= stream_data_lens@.take(i - 1));
                        assert(output@ =~= head + stream_updates(done));
                    }
                }
                proof {
                    assert(stream_data_lens@.take(i as int) =~= stream_data_lens@);
                }
                assert(output@ =~= old(output)@ + job_bytes(old(hpack_encoder)@, job@));
            } else {
                assert(output@ =~= old(output)@ + job_bytes(old(hpack_encoder)@, job@));
            }
        },
        RespJob::Write { buf } => {
            output.extend_from_slice(buf.as_slice());
        },
    }
}

/// The sending end of an unbounded channel of the `local-sync` crate.
#[verifier::external_type_specification]
#[verifier::external_body]
#[verifier::reject_recursive_types(T)]
pub struct ExTx<T>(local_sync::mpsc::unbounded::Tx<T>);

/// The receiving end of such a channel.
#[verifier::external_type_specification]
#[verifier::external_body]
#[verifier::reject_recursive_types(T)]
pub struct ExRx<T>(local_sync::mpsc::unbounded::Rx<T>);

/// The refusal of a send, where the receiver is gone.
#[verifier::external_type_specification]
#[verifier::external_body]
pub struct ExSendError(local_sync::mpsc::SendError);

/// The response sender that handlers use to submit responses.
/// Uses unbounded channel so send is synchronous (non-async).
pub type RespTx = local_sync::mpsc::unbounded::Tx<RespJob>;

pub type RespRx = local_sync::mpsc::unbounded::Rx<RespJob>;

/// The channel that a sender sends into, as `Tx::same_channel` tells channels apart.
pub uninterp spec fn channel_of(tx: local_sync::mpsc::unbounded::Tx<RespJob>) -> int;

/// `local_sync::mpsc::unbounded::channel`: a new channel. Its two ends are connected;
/// what goes through it is for the calls on them to say.
pub assume_specification<T>[ local_sync::mpsc::unbounded::channel::<T> ]() -> (r: (
    local_sync::mpsc::unbounded::Tx<T>,
    local_sync::mpsc::unbounded::Rx<T>,
));

/// `local_sync::mpsc::unbounded::Tx::send`: the value goes to the end of the queue, or,
/// where the receiver is gone, nowhere. The result says which; the sender cannot know, and
/// nothing is claimed of it.
pub assume_specification<T>[ local_sync::mpsc::unbounded::Tx::<T>::send ](
    tx: &local_sync::mpsc::unbounded::Tx<T>,
    value: T,
) -> (r: Result<(), local_sync::mpsc::SendError>);

/// `local_sync::mpsc::unbounded::Tx::clone`: another sender into the same channel.
#[verifier::external_body]
pub(crate) fn clone_sender(tx: &RespTx) -> (r: RespTx)
    ensures
        channel_of(r) == channel_of(*tx),
{
    tx.clone()
}

/// Create a response channel pair: the two ends that `channel` gave.
pub fn resp_channel() -> (r: (RespTx, RespRx))
    ensures
        call_ensures(local_sync::mpsc::unbounded::channel::<RespJob>, (), r),
{
    local_sync::mpsc::unbounded::channel()
}

/// The job that a response asks for.
pub open spec fn job_of(stream_id: u32, response: Response<Vec<u8>>) -> JobView {
    match response {
        Ok(reply) => JobView::Reply { stream_id, reply: reply@ },
        Err(status) => JobView::Status { stream_id, status: status@ },
    }
}

/// The job that a response asks for.
pub fn response_job(stream_id: u32, response: Response<Vec<u8>>) -> (r: RespJob)
    ensures
        r@ == job_of(stream_id, response),
{
    match response {
        Ok(reply) => RespJob::Reply { stream_id, reply },
        Err(status) => RespJob::Status { stream_id, status },
    }
}

/// What the outcome of a send means to the connection.
pub open spec fn outcome_of(sent: Result<(), local_sync::mpsc::SendError>) -> Result<(), Error> {
    match sent {
        Ok(()) => Ok(()),
        Err(_) => Err(Error::ChannelClosed),
    }
}

/// What the outcome of a send means to the connection: a refusal, that it is closed.
pub fn send_outcome(sent: Result<(), local_sync::mpsc::SendError>) -> (r: Result<(), Error>)
    ensures
        r == outcome_of(sent),
{
    match sent {
        Ok(()) => Ok(()),
        Err(_) => Err(Error::ChannelClosed),
    }
}

/// Whether `job` was handed to `Tx::send` on this sender, and `r` is what came of it.
pub open spec fn submitted(tx: RespTx, job: JobView, r: Result<(), Error>) -> bool {
    exists|given: RespJob, sent: Result<(), local_sync::mpsc::SendError>|
        {
            &&& given@ == job
            &&& #[trigger] call_ensures(
                local_sync::mpsc::unbounded::Tx::<RespJob>::send,
                (&tx, given),
                sent,
            )
            &&& r == outcome_of(sent)
        }
}

/// Send a job through the channel.
pub fn submit(resp_tx: &RespTx, job: RespJob) -> (r: Result<(), Error>)
    ensures
        submitted(*resp_tx, job@, r),
{
    let ghost given = job;
    let sent = resp_tx.send(job);
    assert(call_ensures(
        local_sync::mpsc::unbounded::Tx::<RespJob>::send,
        (resp_tx, given),
        sent,
    ));
    send_outcome(sent)
}

/// Helper to build and send a response through the channel; the reply is the encoded
/// message.
pub fn send_response(resp_tx: &RespTx, stream_id: u32, response: Response<Vec<u8>>) -> (r: Result<
    (),
    Error,
>)
    ensures
        submitted(*resp_tx, job_of(stream_id, response), r),
{
    submit(resp_tx, response_job(stream_id, response))
}

/// Whether `encoded` is the response with its reply encoded, by the reply's own `into`.
pub open spec fn encodes<R: Into<Vec<u8>>>(
    response: Response<R>,
    encoded: Response<Vec<u8>>,
) -> bool {
    match response {
        Ok(reply) => encoded matches Ok(bytes) && call_ensures(
            <R as Into<Vec<u8>>>::into,
            (reply,),
            bytes,
        ),
        Err(status) => encoded == Err::<Vec<u8>, Status>(status),
    }
}

/// Encode the reply of a response.
pub fn encode_response<R: Into<Vec<u8>>>(response: Response<R>) -> (r: Response<Vec<u8>>)
    ensures
        encodes(response, r),
{
    match response {
        Ok(reply) => Ok(reply.into()),
        Err(status) => Err(status),
    }
}

/// Helper to build and send a response whose reply encodes itself (for dispatch mode).
pub fn send_response_box<R: Into<Vec<u8>>>(
    resp_tx: &RespTx,
    stream_id: u32,
    response: Response<R>,
) -> (r: Result<(), Error>)
    ensures
        exists|encoded: Response<Vec<u8>>| #[trigger]
            encodes(response, encoded) && submitted(*resp_tx, job_of(stream_id, encoded), r),
{
    let encoded = encode_response(response);
    send_response(resp_tx, stream_id, encoded)
}

} // verus!
