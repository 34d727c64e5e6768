use pajamax::dispatch_mode::{
    gen_request_type, gen_server, gen_service_handle, gen_service_route, gen_shard_server,
    gen_trait_dispatch, gen_trait_shard, generate, Method, Service,
};

fn method(name: &str, proto_name: &str, input_type: &str, output_type: &str) -> Method {
    Method {
        name: name.to_owned(),
        proto_name: proto_name.to_owned(),
        input_type: input_type.to_owned(),
        output_type: output_type.to_owned(),
    }
}

fn service(methods: Vec<Method>) -> Service {
    Service { name: "Dict".to_owned(), package: "dict_store".to_owned(), methods }
}

fn dict() -> Service {
    service(vec![
        method("get", "Get", "GetRequest", "GetReply"),
        method("set_all", "SetAll", "super::Entry", "()"),
    ])
}

fn written(write: fn(&Service, &mut String), service: &Service) -> String {
    let mut buf = String::from("// before\n");
    write(service, &mut buf);
    assert!(buf.starts_with("// before\n"));
    buf["// before\n".len()..].to_owned()
}

const DISPATCH_TRAIT: &str = r##"pub trait DictDispatch {
            fn dispatch_to(&self, req: &DictRequest) -> &DictRequestTx;
        }
"##;

const SHARD_TRAIT: &str = r##"#[async_trait::async_trait(?Send)]
pub trait DictShard {
async fn get(&mut self, request: GetRequest) -> pajamax::Response<GetReply>;
async fn set_all(&mut self, request: super::Entry) -> pajamax::Response<()>;
}
"##;

const REQUEST_TYPE: &str = r##"#[derive(Debug, PartialEq)]
pub enum DictRequest {
Get(GetRequest),
SetAll(super::Entry),
}
pub type DictRequestTx = pajamax::dispatch::RequestTx<DictRequest>;
         pub type DictRequestRx = pajamax::dispatch::RequestRx<DictRequest>;
"##;

const SERVER_HEAD: &str = r##"pub struct DictServer<T: DictDispatch>(T);

        #[allow(dead_code)]
        impl<T: DictDispatch> DictServer<T> {
            pub fn new(inner: T) -> Self { Self(inner) }

            pub fn inner(&self) -> &T { &self.0 }
            pub fn inner_mut(&mut self) -> &mut T { &mut self.0 }
        }
#[async_trait::async_trait(?Send)]
        impl<T> pajamax::PajamaxService for DictServer<T>
        where T: DictDispatch
        {
            fn is_dispatch_mode(&self) -> bool { true }
        
"##;

const ROUTE: &str = r##"fn route(&self, path: &[u8]) -> Option<usize> {
            match path {
b"/dict_store.Dict/Get" => Some(0),
b"/dict_store.Dict/SetAll" => Some(1),
_ => None, } }
"##;

const HANDLE: &str = r##"async fn handle(
            &self,
            req_disc: usize,
            req_buf: &[u8],
            stream_id: u32,
            resp_tx: &pajamax::RespTx,
        ) -> Result<(), pajamax::error::Error> {
            use prost::Message;
            let request = match req_disc {
0 => DictRequest::Get(GetRequest::decode(req_buf)?),
1 => DictRequest::SetAll(super::Entry::decode(req_buf)?),
       d => unreachable!("invalid req_disc: {d}"),
            };

            let req_tx = self.0.dispatch_to(&request);
            pajamax::dispatch::dispatch(req_tx, request, stream_id, resp_tx)
        }
"##;

const SERVER_TAIL: &str = r##"}
"##;

const SHARD_SERVER: &str = r##"pub struct DictShardServer<T: DictShard>(T);

        impl<T: DictShard> DictShardServer<T> {
            pub fn new(inner: T) -> Self { Self(inner) }

            #[allow(dead_code)]
            pub fn inner(&self) -> &T { &self.0 }

            #[allow(dead_code)]
            pub fn inner_mut(&mut self) -> &mut T { &mut self.0 }

            // Handle the request and response.
            #[allow(dead_code)]
            pub async fn handle(&mut self, disp_req: pajamax::dispatch::DispatchRequest<DictRequest>) {
                let response = self.handle_request(disp_req.request).await;
                disp_req.stream.response(response);
            }

            // Handle the request only. The caller should response later.
            #[allow(dead_code)]
            pub async fn handle_request(&mut self, request: DictRequest) -> pajamax::Response<Box<dyn pajamax::ReplyEncode>>
            {
                match request {
DictRequest::Get(request) => {
                self.0.get(request).await.map(|reply|
                    Box::new(reply) as Box<dyn pajamax::ReplyEncode>)
            }
DictRequest::SetAll(request) => {
                self.0.set_all(request).await.map(|reply|
                    Box::new(reply) as Box<dyn pajamax::ReplyEncode>)
            }
} } }
"##;

#[test]
fn the_dispatch_trait() {
    assert_eq!(written(gen_trait_dispatch, &dict()), DISPATCH_TRAIT);
}

#[test]
fn the_shard_trait() {
    assert_eq!(written(gen_trait_shard, &dict()), SHARD_TRAIT);
}

#[test]
fn the_request_type() {
    assert_eq!(written(gen_request_type, &dict()), REQUEST_TYPE);
}

#[test]
fn the_route_of_the_service() {
    assert_eq!(written(gen_service_route, &dict()), ROUTE);
}

#[test]
fn the_handle_of_the_service() {
    assert_eq!(written(gen_service_handle, &dict()), HANDLE);
}

#[test]
fn the_server() {
    let server = [SERVER_HEAD, ROUTE, HANDLE, SERVER_TAIL].concat();
    assert_eq!(written(gen_server, &dict()), server);
}

#[test]
fn the_shard_server() {
    assert_eq!(written(gen_shard_server, &dict()), SHARD_SERVER);
}

#[test]
fn the_whole_code_of_a_service() {
    let mut buf = String::from("// before\n");
    generate(dict(), &mut buf);
    let all = [
        "// before\n",
        DISPATCH_TRAIT,
        SHARD_TRAIT,
        REQUEST_TYPE,
        SERVER_HEAD,
        ROUTE,
        HANDLE,
        SERVER_TAIL,
        SHARD_SERVER,
    ]
    .concat();
    assert_eq!(buf, all);
}

#[test]
fn a_service_without_methods() {
    let text = written(gen_service_route, &service(vec![]));
    assert_eq!(text, "fn route(&self, path: &[u8]) -> Option<usize> {\n            match path {\n_ => None, } }\n");
    assert_eq!(written(gen_trait_shard, &service(vec![])), "#[async_trait::async_trait(?Send)]\npub trait DictShard {\n}\n");
}

#[test]
fn methods_are_numbered_from_zero() {
    let many = (0..12).map(|_| method("m", "M", "In", "Out")).collect();
    let text = written(gen_service_route, &service(many));
    for i in 0..12usize {
        let arm = format!("b\"/dict_store.Dict/M\" => Some({}),\n", i);
        assert_eq!(text.matches(arm.as_str()).count(), 1);
    }
}
