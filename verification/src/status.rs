//! gRPC status.
use vstd::prelude::*;

verus! {

/// gRPC status.
///
/// There is no constructor method. You need to set the 2 members
/// to construct yourself.
pub struct Status {
    pub code: Code,
    pub message: String,
}

/// gRPC status code.
///
/// See [gRPC status codes](https://github.com/grpc/grpc/blob/master/doc/statuscodes.md#status-codes-and-their-use-in-grpc).
#[derive(Clone, Copy, Debug, PartialEq, Eq, Hash, Structural)]
pub enum Code {
    /// `OK` in the gRPC documents.
    Okay,
    Cancelled,
    Unknown,
    InvalidArgument,
    DeadlineExceeded,
    NotFound,
    AlreadyExists,
    PermissionDenied,
    ResourceExhausted,
    FailedPrecondition,
    Aborted,
    OutOfRange,
    Unimplemented,
    Internal,
    Unavailable,
    DataLoss,
    Unauthenticated,
    DispatchPending,
}

impl Code {
    /// The number that stands for the code on the wire.
    pub open spec fn number(self) -> usize {
        match self {
            Code::Okay => 0,
            Code::Cancelled => 1,
            Code::Unknown => 2,
            Code::InvalidArgument => 3,
            Code::DeadlineExceeded => 4,
            Code::NotFound => 5,
            Code::AlreadyExists => 6,
            Code::PermissionDenied => 7,
            Code::ResourceExhausted => 8,
            Code::FailedPrecondition => 9,
            Code::Aborted => 10,
            Code::OutOfRange => 11,
            Code::Unimplemented => 12,
            Code::Internal => 13,
            Code::Unavailable => 14,
            Code::DataLoss => 15,
            Code::Unauthenticated => 16,
            Code::DispatchPending => 101,
        }
    }

    /// The number that stands for the code on the wire.
    pub fn as_usize(self) -> (r: usize)
        ensures
            r == self.number(),
    {
        match self {
            Code::Okay => 0,
            Code::Cancelled => 1,
            Code::Unknown => 2,
            Code::InvalidArgument => 3,
            Code::DeadlineExceeded => 4,
            Code::NotFound => 5,
            Code::AlreadyExists => 6,
            Code::PermissionDenied => 7,
            Code::ResourceExhausted => 8,
            Code::FailedPrecondition => 9,
            Code::Aborted => 10,
            Code::OutOfRange => 11,
            Code::Unimplemented => 12,
            Code::Internal => 13,
            Code::Unavailable => 14,
            Code::DataLoss => 15,
            Code::Unauthenticated => 16,
            Code::DispatchPending => 101,
        }
    }
}

/// A status as a value: the code and the characters of the message.
pub struct StatusView {
    pub code: Code,
    pub message: Seq<char>,
}

impl View for Status {
    type V = StatusView;

    open spec fn view(&self) -> StatusView {
        StatusView { code: self.code, message: self.message@ }
    }
}

/// Wrapper of `Result<Reply, Status>`.
pub type Response<Reply> = Result<Reply, Status>;

/// Different codes have different numbers.
pub proof fn law_code_numbers_differ(a: Code, b: Code)
    requires
        a.number() == b.number(),
    ensures
        a == b,
{
}

} // verus!
