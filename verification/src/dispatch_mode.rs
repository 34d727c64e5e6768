//! The code that is generated for a service in dispatch mode.
use crate::decimal;
use vstd::prelude::*;

verus! {

/// A method of a service.
pub struct Method {
    /// The name of the method in Rust style.
    pub name: String,
    /// The name of the method as it appears in the .proto file.
    pub proto_name: String,
    /// The input Rust type.
    pub input_type: String,
    /// The output Rust type.
    pub output_type: String,
}

/// A service.
pub struct Service {
    /// The service name in Rust style.
    pub name: String,
    /// The package name as it appears in the .proto file.
    pub package: String,
    /// The service methods.
    pub methods: Vec<Method>,
}

/// The first `n` of the lines `line(0)`, `line(1)` and so on, in order.
pub open spec fn lines(n: nat, line: spec_fn(int) -> Seq<char>) -> Seq<char>
    decreases n,
{
    if n == 0 {
        Seq::empty()
    } else {
        lines((n - 1) as nat, line) + line(n - 1)
    }
}

/// One line for each method, in their order.
pub open spec fn method_lines(s: Service, line: spec_fn(int) -> Seq<char>) -> Seq<char> {
    lines(s.methods@.len(), line)
}

/// The end of an item.
pub open spec fn close_text() -> Seq<char> {
    "}\n"@
}

/// The trait `{Service}Dispatch`.
pub open spec fn trait_dispatch_text(s: Service) -> Seq<char> {
    "pub trait "@
        + s.name@
        + "Dispatch {
            fn dispatch_to(&self, req: &"@
        + s.name@
        + "Request) -> &"@
        + s.name@
        + "RequestTx;
        }\n"@
}

fn trait_dispatch(service: &Service) -> (r: String)
    ensures
        r@ == trait_dispatch_text(*service),
{
    let mut text = "pub trait ".to_owned();
    text.append(service.name.as_str());
    text.append("Dispatch {
            fn dispatch_to(&self, req: &");
    text.append(service.name.as_str());
    text.append("Request) -> &");
    text.append(service.name.as_str());
    text.append("RequestTx;
        }\n");
    text
}

/// The trait `{Service}Dispatch`, which an application implements for a server context.
pub open spec fn dispatch_trait_text(s: Service) -> Seq<char> {
    trait_dispatch_text(s)
}

/// Writes it to the end of `buf`.
pub fn gen_trait_dispatch(service: &Service, buf: &mut String)
    ensures
        final(buf)@ == old(buf)@ + dispatch_trait_text(*service),
{
    buf.append(trait_dispatch(service).as_str());
    proof {
        assert(buf@ =~= old(buf)@ + dispatch_trait_text(*service));
    }
}

/// The head of the trait `{Service}Shard`.
pub open spec fn trait_shard_head_text(s: Service) -> Seq<char> {
    "#[async_trait::async_trait(?Send)]
pub trait "@
        + s.name@
        + "Shard {\n"@
}

fn trait_shard_head(service: &Service) -> (r: String)
    ensures
        r@ == trait_shard_head_text(*service),
{
    let mut text = "#[async_trait::async_trait(?Send)]
pub trait ".to_owned();
    text.append(service.name.as_str());
    text.append("Shard {\n");
    text
}

/// The method of the trait `{Service}Shard` for the method `i`.
pub open spec fn trait_shard_method_text(s: Service, i: int) -> Seq<char> {
    "async fn "@
        + s.methods@[i].name@
        + "(&mut self, request: "@
        + s.methods@[i].input_type@
        + ") -> pajamax::Response<"@
        + s.methods@[i].output_type@
        + ">;\n"@
}

fn trait_shard_method(service: &Service, i: usize) -> (r: String)
    requires
        i < service.methods@.len(),
    ensures
        r@ == trait_shard_method_text(*service, i as int),
{
    let mut text = "async fn ".to_owned();
    text.append(service.methods[i].name.as_str());
    text.append("(&mut self, request: ");
    text.append(service.methods[i].input_type.as_str());
    text.append(") -> pajamax::Response<");
    text.append(service.methods[i].output_type.as_str());
    text.append(">;\n");
    text
}

/// The trait `{Service}Shard`, which an application implements for a backend shard.
pub open spec fn shard_trait_text(s: Service) -> Seq<char> {
    trait_shard_head_text(s)
        + method_lines(s, |i: int| trait_shard_method_text(s, i))
        + close_text()
}

/// Writes it to the end of `buf`.
pub fn gen_trait_shard(service: &Service, buf: &mut String)
    ensures
        final(buf)@ == old(buf)@ + shard_trait_text(*service),
{
    buf.append(trait_shard_head(service).as_str());
    let ghost head = buf@;
    let ghost line = |i: int| trait_shard_method_text(*service, i);
    let mut i: usize = 0;
    while i < service.methods.len()
        invariant
            i <= service.methods@.len(),
            line == (|i: int| trait_shard_method_text(*service, i)),
            buf@ == head + lines(i as nat, line),
        decreases service.methods@.len() - i,
    {
        let ghost before = lines(i as nat, line);
        buf.append(trait_shard_method(service, i).as_str());
        proof {
            assert(head + before + line(i as int) =~= head + (before + line(i as int)));
        }
        i += 1;
    }
    buf.append("}\n");
    proof {
        assert(buf@ =~= old(buf)@ + shard_trait_text(*service));
    }
}

/// The derives of the enum `{Service}Request`.
pub open spec fn derive_line_text() -> Seq<char> {
    "#[derive(Debug, PartialEq)]\n"@
}

/// The head of the enum `{Service}Request`.
pub open spec fn request_head_text(s: Service) -> Seq<char> {
    "pub enum "@
        + s.name@
        + "Request {\n"@
}

fn request_head(service: &Service) -> (r: String)
    ensures
        r@ == request_head_text(*service),
{
    let mut text = "pub enum ".to_owned();
    text.append(service.name.as_str());
    text.append("Request {\n");
    text
}

/// The variant of the enum `{Service}Request` for the method `i`.
pub open spec fn request_variant_text(s: Service, i: int) -> Seq<char> {
    s.methods@[i].proto_name@
        + "("@
        + s.methods@[i].input_type@
        + "),\n"@
}

fn request_variant(service: &Service, i: usize) -> (r: String)
    requires
        i < service.methods@.len(),
    ensures
        r@ == request_variant_text(*service, i as int),
{
    let mut text = service.methods[i].proto_name.as_str().to_owned();
    text.append("(");
    text.append(service.methods[i].input_type.as_str());
    text.append("),\n");
    text
}

/// The channel types.
pub open spec fn channel_types_text(s: Service) -> Seq<char> {
    "pub type "@
        + s.name@
        + "RequestTx = pajamax::dispatch::RequestTx<"@
        + s.name@
        + "Request>;
         pub type "@
        + s.name@
        + "RequestRx = pajamax::dispatch::RequestRx<"@
        + s.name@
        + "Request>;\n"@
}

fn channel_types(service: &Service) -> (r: String)
    ensures
        r@ == channel_types_text(*service),
{
    let mut text = "pub type ".to_owned();
    text.append(service.name.as_str());
    text.append("RequestTx = pajamax::dispatch::RequestTx<");
    text.append(service.name.as_str());
    text.append("Request>;
         pub type ");
    text.append(service.name.as_str());
    text.append("RequestRx = pajamax::dispatch::RequestRx<");
    text.append(service.name.as_str());
    text.append("Request>;\n");
    text
}

/// The enum `{Service}Request` of all the requests, and its channel types.
pub open spec fn request_type_text(s: Service) -> Seq<char> {
    derive_line_text()
        + request_head_text(s)
        + method_lines(s, |i: int| request_variant_text(s, i))
        + close_text()
        + channel_types_text(s)
}

/// Writes it to the end of `buf`.
pub fn gen_request_type(service: &Service, buf: &mut String)
    ensures
        final(buf)@ == old(buf)@ + request_type_text(*service),
{
    buf.append("#[derive(Debug, PartialEq)]\n");
    buf.append(request_head(service).as_str());
    let ghost head = buf@;
    let ghost line = |i: int| request_variant_text(*service, i);
    let mut i: usize = 0;
    while i < service.methods.len()
        invariant
            i <= service.methods@.len(),
            line == (|i: int| request_variant_text(*service, i)),
            buf@ == head + lines(i as nat, line),
        decreases service.methods@.len() - i,
    {
        let ghost before = lines(i as nat, line);
        buf.append(request_variant(service, i).as_str());
        proof {
            assert(head + before + line(i as int) =~= head + (before + line(i as int)));
        }
        i += 1;
    }
    buf.append("}\n");
    buf.append(channel_types(service).as_str());
    proof {
        assert(buf@ =~= old(buf)@ + request_type_text(*service));
    }
}

/// The number of the method `i`, by which `route` hands it to `handle`.
pub open spec fn number_text(i: int) -> Seq<char> {
    decimal::decimal(i as nat)
}

/// The head of `PajamaxService::route`.
pub open spec fn route_head_text() -> Seq<char> {
    "fn route(&self, path: &[u8]) -> Option<usize> {
            match path {\n"@
}

/// The path of the method `i`.
pub open spec fn path_text(s: Service, i: int) -> Seq<char> {
    "/"@ + s.package@ + "."@ + s.name@ + "/"@ + s.methods@[i].proto_name@
}

fn path(service: &Service, i: usize) -> (r: String)
    requires
        i < service.methods@.len(),
    ensures
        r@ == path_text(*service, i as int),
{
    let mut text = "/".to_owned();
    text.append(service.package.as_str());
    text.append(".");
    text.append(service.name.as_str());
    text.append("/");
    text.append(service.methods[i].proto_name.as_str());
    text
}

/// The arm of `route` for the method `i`: its path leads to its number.
pub open spec fn route_arm_text(s: Service, i: int) -> Seq<char> {
    "b\""@ + path_text(s, i) + "\" => Some("@ + number_text(i) + "),\n"@
}

fn route_arm(service: &Service, i: usize) -> (r: String)
    requires
        i < service.methods@.len(),
    ensures
        r@ == route_arm_text(*service, i as int),
{
    let path = path(service, i);
    let number = decimal::decimal_string(i);
    let mut text = "b\"".to_owned();
    text.append(path.as_str());
    text.append("\" => Some(");
    text.append(number.as_str());
    text.append("),\n");
    text
}

/// The end of `route`.
pub open spec fn route_tail_text() -> Seq<char> {
    "_ => None, } }\n"@
}

/// `PajamaxService::route`.
pub open spec fn service_route_text(s: Service) -> Seq<char> {
    route_head_text()
        + method_lines(s, |i: int| route_arm_text(s, i))
        + route_tail_text()
}

/// Writes it to the end of `buf`.
pub fn gen_service_route(service: &Service, buf: &mut String)
    ensures
        final(buf)@ == old(buf)@ + service_route_text(*service),
{
    buf.append("fn route(&self, path: &[u8]) -> Option<usize> {
            match path {\n");
    let ghost head = buf@;
    let ghost line = |i: int| route_arm_text(*service, i);
    let mut i: usize = 0;
    while i < service.methods.len()
        invariant
            i <= service.methods@.len(),
            line == (|i: int| route_arm_text(*service, i)),
            buf@ == head + lines(i as nat, line),
        decreases service.methods@.len() - i,
    {
        let ghost before = lines(i as nat, line);
        buf.append(route_arm(service, i).as_str());
        proof {
            assert(head + before + line(i as int) =~= head + (before + line(i as int)));
        }
        i += 1;
    }
    buf.append("_ => None, } }\n");
    proof {
        assert(buf@ =~= old(buf)@ + service_route_text(*service));
    }
}

/// The head of `PajamaxService::handle`.
pub open spec fn handle_head_text() -> Seq<char> {
    "async fn handle(
            &self,
            req_disc: usize,
            req_buf: &[u8],
            stream_id: u32,
            resp_tx: &pajamax::RespTx,
        ) -> Result<(), pajamax::error::Error> {
            use prost::Message;
            let request = match req_disc {\n"@
}

/// The arm of `handle` for the method `i`: its number leads to its request.
pub open spec fn handle_arm_text(s: Service, i: int) -> Seq<char> {
    number_text(i)
        + " => "@
        + s.name@
        + "Request::"@
        + s.methods@[i].proto_name@
        + "("@
        + s.methods@[i].input_type@
        + "::decode(req_buf)?),\n"@
}

fn handle_arm(service: &Service, i: usize) -> (r: String)
    requires
        i < service.methods@.len(),
    ensures
        r@ == handle_arm_text(*service, i as int),
{
    let number = decimal::decimal_string(i);
    let mut text = number.as_str().to_owned();
    text.append(" => ");
    text.append(service.name.as_str());
    text.append("Request::");
    text.append(service.methods[i].proto_name.as_str());
    text.append("(");
    text.append(service.methods[i].input_type.as_str());
    text.append("::decode(req_buf)?),\n");
    text
}

/// The end of `handle`.
pub open spec fn handle_tail_text() -> Seq<char> {
    "       d => unreachable!(\"invalid req_disc: {d}\"),
            };

            let req_tx = self.0.dispatch_to(&request);
            pajamax::dispatch::dispatch(req_tx, request, stream_id, resp_tx)
        }\n"@
}

/// `PajamaxService::handle`.
pub open spec fn service_handle_text(s: Service) -> Seq<char> {
    handle_head_text()
        + method_lines(s, |i: int| handle_arm_text(s, i))
        + handle_tail_text()
}

/// Writes it to the end of `buf`.
pub fn gen_service_handle(service: &Service, buf: &mut String)
    ensures
        final(buf)@ == old(buf)@ + service_handle_text(*service),
{
    buf.append("async fn handle(
            &self,
            req_disc: usize,
            req_buf: &[u8],
            stream_id: u32,
            resp_tx: &pajamax::RespTx,
        ) -> Result<(), pajamax::error::Error> {
            use prost::Message;
            let request = match req_disc {\n");
    let ghost head = buf@;
    let ghost line = |i: int| handle_arm_text(*service, i);
    let mut i: usize = 0;
    while i < service.methods.len()
        invariant
            i <= service.methods@.len(),
            line == (|i: int| handle_arm_text(*service, i)),
            buf@ == head + lines(i as nat, line),
        decreases service.methods@.len() - i,
    {
        let ghost before = lines(i as nat, line);
        buf.append(handle_arm(service, i).as_str());
        proof {
            assert(head + before + line(i as int) =~= head + (before + line(i as int)));
        }
        i += 1;
    }
    buf.append("       d => unreachable!(\"invalid req_disc: {d}\"),
            };

            let req_tx = self.0.dispatch_to(&request);
            pajamax::dispatch::dispatch(req_tx, request, stream_id, resp_tx)
        }\n");
    proof {
        assert(buf@ =~= old(buf)@ + service_handle_text(*service));
    }
}

/// The struct `{Service}Server`.
pub open spec fn server_struct_text(s: Service) -> Seq<char> {
    "pub struct "@
        + s.name@
        + "Server<T: "@
        + s.name@
        + "Dispatch>(T);

        #[allow(dead_code)]
        impl<T: "@
        + s.name@
        + "Dispatch> "@
        + s.name@
        + "Server<T> {
            pub fn new(inner: T) -> Self { Self(inner) }

            pub fn inner(&self) -> &T { &self.0 }
            pub fn inner_mut(&mut self) -> &mut T { &mut self.0 }
        }\n"@
}

fn server_struct(service: &Service) -> (r: String)
    ensures
        r@ == server_struct_text(*service),
{
    let mut text = "pub struct ".to_owned();
    text.append(service.name.as_str());
    text.append("Server<T: ");
    text.append(service.name.as_str());
    text.append("Dispatch>(T);

        #[allow(dead_code)]
        impl<T: ");
    text.append(service.name.as_str());
    text.append("Dispatch> ");
    text.append(service.name.as_str());
    text.append("Server<T> {
            pub fn new(inner: T) -> Self { Self(inner) }

            pub fn inner(&self) -> &T { &self.0 }
            pub fn inner_mut(&mut self) -> &mut T { &mut self.0 }
        }\n");
    text
}

/// The head of `impl PajamaxService for {Service}Server`.
pub open spec fn server_impl_head_text(s: Service) -> Seq<char> {
    "#[async_trait::async_trait(?Send)]
        impl<T> pajamax::PajamaxService for "@
        + s.name@
        + "Server<T>
        where T: "@
        + s.name@
        + "Dispatch
        {
            fn is_dispatch_mode(&self) -> bool { true }
        \n"@
}

fn server_impl_head(service: &Service) -> (r: String)
    ensures
        r@ == server_impl_head_text(*service),
{
    let mut text = "#[async_trait::async_trait(?Send)]
        impl<T> pajamax::PajamaxService for ".to_owned();
    text.append(service.name.as_str());
    text.append("Server<T>
        where T: ");
    text.append(service.name.as_str());
    text.append("Dispatch
        {
            fn is_dispatch_mode(&self) -> bool { true }
        \n");
    text
}

/// The struct `{Service}Server` with its impl of `PajamaxService`.
pub open spec fn server_text(s: Service) -> Seq<char> {
    server_struct_text(s)
        + server_impl_head_text(s)
        + service_route_text(s)
        + service_handle_text(s)
        + close_text()
}

/// Writes it to the end of `buf`.
pub fn gen_server(service: &Service, buf: &mut String)
    ensures
        final(buf)@ == old(buf)@ + server_text(*service),
{
    buf.append(server_struct(service).as_str());
    buf.append(server_impl_head(service).as_str());
    gen_service_route(service, buf);
    gen_service_handle(service, buf);
    buf.append("}\n");
    proof {
        assert(buf@ =~= old(buf)@ + server_text(*service));
    }
}

/// The struct `{Service}ShardServer` and the head of its `handle_request`.
pub open spec fn shard_server_head_text(s: Service) -> Seq<char> {
    "pub struct "@
        + s.name@
        + "ShardServer<T: "@
        + s.name@
        + "Shard>(T);

        impl<T: "@
        + s.name@
        + "Shard> "@
        + s.name@
        + "ShardServer<T> {
            pub fn new(inner: T) -> Self { Self(inner) }

            #[allow(dead_code)]
            pub fn inner(&self) -> &T { &self.0 }

            #[allow(dead_code)]
            pub fn inner_mut(&mut self) -> &mut T { &mut self.0 }

            // Handle the request and response.
            #[allow(dead_code)]
            pub async fn handle(&mut self, disp_req: pajamax::dispatch::DispatchRequest<"@
        + s.name@
        + "Request>) {
                let response = self.handle_request(disp_req.request).await;
                disp_req.stream.response(response);
            }

            // Handle the request only. The caller should response later.
            #[allow(dead_code)]
            pub async fn handle_request(&mut self, request: "@
        + s.name@
        + "Request) -> pajamax::Response<Box<dyn pajamax::ReplyEncode>>
            {
                match request {\n"@
}

fn shard_server_head(service: &Service) -> (r: String)
    ensures
        r@ == shard_server_head_text(*service),
{
    let mut text = "pub struct ".to_owned();
    text.append(service.name.as_str());
    text.append("ShardServer<T: ");
    text.append(service.name.as_str());
    text.append("Shard>(T);

        impl<T: ");
    text.append(service.name.as_str());
    text.append("Shard> ");
    text.append(service.name.as_str());
    text.append("ShardServer<T> {
            pub fn new(inner: T) -> Self { Self(inner) }

            #[allow(dead_code)]
            pub fn inner(&self) -> &T { &self.0 }

            #[allow(dead_code)]
            pub fn inner_mut(&mut self) -> &mut T { &mut self.0 }

            // Handle the request and response.
            #[allow(dead_code)]
            pub async fn handle(&mut self, disp_req: pajamax::dispatch::DispatchRequest<");
    text.append(service.name.as_str());
    text.append("Request>) {
                let response = self.handle_request(disp_req.request).await;
                disp_req.stream.response(response);
            }

            // Handle the request only. The caller should response later.
            #[allow(dead_code)]
            pub async fn handle_request(&mut self, request: ");
    text.append(service.name.as_str());
    text.append("Request) -> pajamax::Response<Box<dyn pajamax::ReplyEncode>>
            {
                match request {\n");
    text
}

/// The arm of `handle_request` for the method `i`.
pub open spec fn shard_server_arm_text(s: Service, i: int) -> Seq<char> {
    s.name@
        + "Request::"@
        + s.methods@[i].proto_name@
        + "(request) => {
                self.0."@
        + s.methods@[i].name@
        + "(request).await.map(|reply|
                    Box::new(reply) as Box<dyn pajamax::ReplyEncode>)
            }\n"@
}

fn shard_server_arm(service: &Service, i: usize) -> (r: String)
    requires
        i < service.methods@.len(),
    ensures
        r@ == shard_server_arm_text(*service, i as int),
{
    let mut text = service.name.as_str().to_owned();
    text.append("Request::");
    text.append(service.methods[i].proto_name.as_str());
    text.append("(request) => {
                self.0.");
    text.append(service.methods[i].name.as_str());
    text.append("(request).await.map(|reply|
                    Box::new(reply) as Box<dyn pajamax::ReplyEncode>)
            }\n");
    text
}

/// The end of `handle_request`.
pub open spec fn shard_server_tail_text() -> Seq<char> {
    "} } }\n"@
}

/// The struct `{Service}ShardServer`, which hands each request to its method.
pub open spec fn shard_server_text(s: Service) -> Seq<char> {
    shard_server_head_text(s)
        + method_lines(s, |i: int| shard_server_arm_text(s, i))
        + shard_server_tail_text()
}

/// Writes it to the end of `buf`.
pub fn gen_shard_server(service: &Service, buf: &mut String)
    ensures
        final(buf)@ == old(buf)@ + shard_server_text(*service),
{
    buf.append(shard_server_head(service).as_str());
    let ghost head = buf@;
    let ghost line = |i: int| shard_server_arm_text(*service, i);
    let mut i: usize = 0;
    while i < service.methods.len()
        invariant
            i <= service.methods@.len(),
            line == (|i: int| shard_server_arm_text(*service, i)),
            buf@ == head + lines(i as nat, line),
        decreases service.methods@.len() - i,
    {
        let ghost before = lines(i as nat, line);
        buf.append(shard_server_arm(service, i).as_str());
        proof {
            assert(head + before + line(i as int) =~= head + (before + line(i as int)));
        }
        i += 1;
    }
    buf.append("} } }\n");
    proof {
        assert(buf@ =~= old(buf)@ + shard_server_text(*service));
    }
}

/// All that is generated for a service.
pub open spec fn generated_text(s: Service) -> Seq<char> {
    dispatch_trait_text(s)
        + shard_trait_text(s)
        + request_type_text(s)
        + server_text(s)
        + shard_server_text(s)
}

/// Writes the code for `service` to the end of `buf`.
pub fn generate(service: Service, buf: &mut String)
    ensures
        final(buf)@ == old(buf)@ + generated_text(service),
{
    gen_trait_dispatch(&service, buf);
    gen_trait_shard(&service, buf);
    gen_request_type(&service, buf);
    gen_server(&service, buf);
    gen_shard_server(&service, buf);
    proof {
        assert(buf@ =~= old(buf)@ + generated_text(service));
    }
}

/// The number that an arm of `route` gives is the one that an arm of `handle` asks for
/// exactly where the two arms are of one method.
pub proof fn law_route_leads_to_its_method(s: Service, i: int, j: int)
    requires
        0 <= i < s.methods@.len(),
        0 <= j < s.methods@.len(),
    ensures
        (number_text(i) == number_text(j)) == (i == j),
{
    decimal::law_decimal_read_back(i as nat);
    decimal::law_decimal_read_back(j as nat);
}

/// Two methods have one path only where they have one name.
pub proof fn law_paths_differ(s: Service, i: int, j: int)
    requires
        0 <= i < s.methods@.len(),
        0 <= j < s.methods@.len(),
    ensures
        (path_text(s, i) == path_text(s, j)) == (s.methods@[i].proto_name@
            == s.methods@[j].proto_name@),
{
    let lead = "/"@ + s.package@ + "."@ + s.name@ + "/"@;
    assert(path_text(s, i).subrange(lead.len() as int, path_text(s, i).len() as int)
        =~= s.methods@[i].proto_name@);
    assert(path_text(s, j).subrange(lead.len() as int, path_text(s, j).len() as int)
        =~= s.methods@[j].proto_name@);
}

/// The number of a method is its place among the methods, in decimal.
pub proof fn law_number_is_place(i: int)
    requires
        i >= 0,
    ensures
        decimal::number_of(number_text(i)) == i,
        forall|k: int| 0 <= k < number_text(i).len() ==> '0' <= #[trigger] number_text(i)[k] <= '9',
        number_text(i).len() > 1 ==> number_text(i)[0] != '0',
{
    decimal::law_decimal_read_back(i as nat);
    decimal::law_decimal_digits(i as nat);
}

} // verus!
