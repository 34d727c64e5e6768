# pajamax

A gRPC server framework. The library in `src/` holds the logic of a server, verified with
Verus; `app/` is the asynchronous server around it.

- `connection` takes the bytes of a connection and says what is to be done.
  `connection_model` states what that is, one byte at a time; `connection_laws`,
  `request_laws`, `session_laws` and `wire_laws` state what follows from it.
- `http2`, `hpack_encoder`, `status` and `response_end` turn responses into bytes.
  `hpack_reading`, `response_laws` and `client_laws` state that a client reads back what
  was meant.
- `grpc_message` takes a request body apart, `route` finds the service that it is for.
- `dispatch` hands requests to workers, `balancer` hands connections to threads.
- `dispatch_mode` generates the code of a service. That code names the server crate in
  `app/` as `pajamax`: the trait with the asynchronous `handle` stands there.

Header blocks are read outside the library, by a `HeaderReader` that the application
provides.
