//! Dispatch mode: requests go through a channel to a worker, which answers them.
use crate::error::Error;
use crate::response_end;
use crate::response_end::{JobView, RespTx};
use crate::status::{Code, Response, Status, StatusView};
use vstd::prelude::*;

verus! {

/// Send end of request channel for dispatch mode.
/// Uses unbounded channel so dispatch is non-blocking.
pub type RequestTx<Req> = local_sync::mpsc::unbounded::Tx<DispatchRequest<Req>>;

/// Receive end of request channel for dispatch mode.
pub type RequestRx<Req> = local_sync::mpsc::unbounded::Rx<DispatchRequest<Req>>;

/// Dispatched request in dispatch mode.
pub struct DispatchRequest<Req> {
    pub stream: DispatchStream,
    pub request: Req,
}

/// Stream context for dispatch mode.
pub struct DispatchStream {
    stream_id: u32,
    resp_tx: RespTx,
}

impl DispatchStream {
    pub closed spec fn stream_id(&self) -> u32 {
        self.stream_id
    }

    pub closed spec fn resp_tx(&self) -> RespTx {
        self.resp_tx
    }

    pub(crate) fn new(stream_id: u32, resp_tx: RespTx) -> (r: Self)
        ensures
            r.stream_id() == stream_id,
            r.resp_tx() == resp_tx,
    {
        Self { stream_id, resp_tx }
    }

    /// Send a response to the request.
    pub fn respond<R: Into<Vec<u8>>>(&self, response: Response<R>) -> (r: Result<(), Error>)
        ensures
            exists|encoded: Response<Vec<u8>>| #[trigger]
                response_end::encodes(response, encoded) && response_end::submitted(
                    self.resp_tx(),
                    response_end::job_of(self.stream_id(), encoded),
                    r,
                ),
    {
        response_end::send_response_box(&self.resp_tx, self.stream_id, response)
    }

    /// Send the response to the request, and be done with it. Where the connection is
    /// gone there is nobody to tell.
    pub fn response<R: Into<Vec<u8>>>(self, response: Response<R>)
        ensures
            exists|encoded: Response<Vec<u8>>, r: Result<(), Error>|
                #![trigger response_end::encodes(response, encoded), response_end::submitted(
                    self.resp_tx(),
                    response_end::job_of(self.stream_id(), encoded),
                    r,
                )]
                response_end::encodes(response, encoded) && response_end::submitted(
                    self.resp_tx(),
                    response_end::job_of(self.stream_id(), encoded),
                    r,
                ),
    {
        let _r = self.respond(response);
    }
}

/// The status of a request whose worker is gone.
pub open spec fn closed_status() -> StatusView {
    StatusView { code: Code::Unavailable, message: "dispatch channel is closed"@ }
}

/// What the client is told after an attempt to hand a request to its worker: nothing
/// where that went well.
pub open spec fn refusal_of(sent: Result<(), local_sync::mpsc::SendError>) -> Option<StatusView> {
    match sent {
        Ok(()) => None,
        Err(_) => Some(closed_status()),
    }
}

/// What the client is told after an attempt to hand a request to its worker.
pub fn refusal(sent: Result<(), local_sync::mpsc::SendError>) -> (r: Option<Status>)
    ensures
        (r is None) == (sent is Ok),
        match r {
            None => refusal_of(sent) is None,
            Some(status) => refusal_of(sent) == Some(status@),
        },
{
    match sent {
        Ok(_) => None,
        Err(_) => Some(
            Status {
                code: Code::Unavailable,
                message: "dispatch channel is closed".to_owned(),
            },
        ),
    }
}

/// What follows from an attempt to hand a request to its worker: where that failed, the
/// client is told.
pub fn dispatched(
    sent: Result<(), local_sync::mpsc::SendError>,
    stream_id: u32,
    resp_tx: &RespTx,
) -> (r: Result<(), Error>)
    ensures
        follows(sent, stream_id, *resp_tx, r),
{
    match refusal(sent) {
        None => Ok(()),
        Some(status) => {
            let response: Response<Vec<u8>> = Err(status);
            response_end::send_response_box(resp_tx, stream_id, response)
        },
    }
}

/// The request as its worker gets it: with what the answer needs to find its way back.
pub fn dispatch_request<Req>(request: Req, stream_id: u32, resp_tx: &RespTx) -> (r: DispatchRequest<
    Req,
>)
    ensures
        r.request == request,
        r.stream.stream_id() == stream_id,
        response_end::channel_of(r.stream.resp_tx()) == response_end::channel_of(*resp_tx),
{
    let stream = DispatchStream::new(stream_id, response_end::clone_sender(resp_tx));
    DispatchRequest { stream, request }
}

/// Whether `sent` is what `Tx::send` gave when the request was put into the channel, with
/// what its answer needs to find its way back to `resp_tx`.
pub open spec fn handed_over<Req>(
    req_tx: RequestTx<Req>,
    request: Req,
    stream_id: u32,
    resp_tx: RespTx,
    sent: Result<(), local_sync::mpsc::SendError>,
) -> bool {
    exists|disp_req: DispatchRequest<Req>|
        {
            &&& disp_req.request == request
            &&& disp_req.stream.stream_id() == stream_id
            &&& response_end::channel_of(disp_req.stream.resp_tx()) == response_end::channel_of(
                resp_tx,
            )
            &&& #[trigger] call_ensures(
                local_sync::mpsc::unbounded::Tx::<DispatchRequest<Req>>::send,
                (&req_tx, disp_req),
                sent,
            )
        }
}

/// Whether this came of a request that was handed to its worker with the result `sent`:
/// where that failed, the client is told.
pub open spec fn follows(
    sent: Result<(), local_sync::mpsc::SendError>,
    stream_id: u32,
    resp_tx: RespTx,
    r: Result<(), Error>,
) -> bool {
    match refusal_of(sent) {
        None => r is Ok,
        Some(status) => response_end::submitted(
            resp_tx,
            JobView::Status { stream_id, status },
            r,
        ),
    }
}

/// Dispatch a request to the given channel. When the worker takes it out again is for the
/// other end of the channel to see.
pub fn dispatch<Req>(
    req_tx: &RequestTx<Req>,
    request: Req,
    stream_id: u32,
    resp_tx: &RespTx,
) -> (r: Result<(), Error>)
    ensures
        exists|sent: Result<(), local_sync::mpsc::SendError>| #[trigger]
            handed_over(*req_tx, request, stream_id, *resp_tx, sent) && follows(
                sent,
                stream_id,
                *resp_tx,
                r,
            ),
{
    let disp_req = dispatch_request(request, stream_id, resp_tx);
    let ghost given = disp_req;
    let sent = req_tx.send(disp_req);
    assert(call_ensures(
        local_sync::mpsc::unbounded::Tx::<DispatchRequest<Req>>::send,
        (req_tx, given),
        sent,
    ));
    assert(handed_over(*req_tx, request, stream_id, *resp_tx, sent));
    dispatched(sent, stream_id, resp_tx)
}

/// A response that says that the answer comes later.
pub open spec fn says_pending<T>(resp: Response<T>) -> bool {
    resp matches Err(status) && status.code == Code::DispatchPending
}

pub fn pending<T>() -> (r: Response<T>)
    ensures
        r matches Err(status) && status@ == (StatusView {
            code: Code::DispatchPending,
            message: Seq::empty(),
        }),
        says_pending(r),
{
    Err(Status { code: Code::DispatchPending, message: String::new() })
}

pub fn is_pending<T>(resp: &Response<T>) -> (r: bool)
    ensures
        r == says_pending(*resp),
{
    if let Err(status) = resp {
        status.code == Code::DispatchPending
    } else {
        false
    }
}

} // verus!
