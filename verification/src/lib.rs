//! A gRPC server framework.

pub mod balancer;
pub mod client_laws;
pub mod config;
pub mod connection;
pub mod connection_laws;
pub mod connection_model;
pub mod decimal;
pub mod dispatch;
pub mod dispatch_mode;
pub mod dispatch_mode_laws;
pub mod error;
pub mod frame_laws;
pub mod grpc_message;
pub mod hpack_encoder;
pub mod hpack_reading;
pub mod http2;
pub mod http2_laws;
pub mod outcome_laws;
pub mod request_laws;
pub mod response_end;
pub mod response_laws;
pub mod route;
pub mod session_laws;
pub mod status;
pub mod wire_laws;

pub use config::Config;
pub use response_end::{send_response, RespTx};
pub use route::PajamaxService;
pub use status::Response;
