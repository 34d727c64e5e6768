//! What the generated code says, whatever the service is called and however many methods
//! it has.
use crate::decimal;
use crate::dispatch_mode;
use crate::dispatch_mode::Service;
use vstd::prelude::*;

verus! {

/// A text with gaps, and what stands in the gaps.
pub open spec fn filled(pieces: Seq<Seq<char>>, slots: Seq<Seq<char>>) -> Seq<char>
    decreases pieces.len(),
{
    if pieces.len() == 0 {
        Seq::empty()
    } else if pieces.len() == 1 {
        pieces[0]
    } else {
        filled(pieces.drop_last(), slots.drop_last()) + slots.last() + pieces.last()
    }
}

proof fn lemma_filled_next(
    pieces: Seq<Seq<char>>,
    slots: Seq<Seq<char>>,
    slot: Seq<char>,
    piece: Seq<char>,
)
    requires
        pieces.len() >= 1,
    ensures
        filled(pieces.push(piece), slots.push(slot)) == filled(pieces, slots) + slot + piece,
{
    assert(pieces.push(piece).drop_last() =~= pieces);
    assert(slots.push(slot).drop_last() =~= slots);
}

/// Whether two texts are the same but for what stands in the gaps.
pub open spec fn same_but_for(
    a: Seq<char>,
    in_a: Seq<Seq<char>>,
    b: Seq<char>,
    in_b: Seq<Seq<char>>,
) -> bool {
    exists|pieces: Seq<Seq<char>>|
        pieces.len() == in_a.len() + 1 && a == #[trigger] filled(pieces, in_a) && b == filled(
            pieces,
            in_b,
        )
}

/// The texts one after the other.
pub open spec fn in_a_row(texts: Seq<Seq<char>>) -> Seq<char>
    decreases texts.len(),
{
    if texts.len() == 0 {
        Seq::empty()
    } else {
        texts[0] + in_a_row(texts.skip(1))
    }
}

proof fn lemma_row_next(texts: Seq<Seq<char>>, text: Seq<char>)
    ensures
        in_a_row(texts.push(text)) == in_a_row(texts) + text,
    decreases texts.len(),
{
    let more = texts.push(text);
    if texts.len() == 0 {
        assert(more.skip(1) =~= Seq::empty());
        reveal_with_fuel(in_a_row, 2);
        assert(text + Seq::<char>::empty() =~= Seq::<char>::empty() + text);
    } else {
        assert(more.skip(1) =~= texts.skip(1).push(text));
        lemma_row_next(texts.skip(1), text);
        assert(texts[0] + (in_a_row(texts.skip(1)) + text) =~= texts[0] + in_a_row(texts.skip(1))
            + text);
    }
}

/// One line for each of the first `n`, in order, each of them once.
pub proof fn law_lines(n: nat, line: spec_fn(int) -> Seq<char>)
    ensures
        dispatch_mode::lines(n, line) == in_a_row(Seq::new(n, line)),
    decreases n,
{
    if n == 0 {
        assert(Seq::new(n, line) =~= Seq::empty());
    } else {
        let m = (n - 1) as nat;
        law_lines(m, line);
        lemma_row_next(Seq::new(m, line), line(n - 1));
        assert(Seq::new(n, line) =~= Seq::new(m, line).push(line(n - 1)));
    }
}

spec fn trait_shard_method_pieces() -> Seq<Seq<char>> {
    seq![
        "async fn "@,
        "(&mut self, request: "@,
        ") -> pajamax::Response<"@,
        ">;\n"@,
    ]
}

proof fn lemma_trait_shard_method(s: Service, i: int)
    ensures
        dispatch_mode::trait_shard_method_text(s, i) == filled(
            trait_shard_method_pieces(),
            seq![s.methods@[i].name@, s.methods@[i].input_type@, s.methods@[i].output_type@],
        ),
{
    let p = seq!["async fn "@];
    let e = Seq::<Seq<char>>::empty();
    lemma_filled_next(p, e, s.methods@[i].name@, "(&mut self, request: "@);
    let p0 = p.push("(&mut self, request: "@);
    let e0 = e.push(s.methods@[i].name@);
    lemma_filled_next(p0, e0, s.methods@[i].input_type@, ") -> pajamax::Response<"@);
    let p1 = p0.push(") -> pajamax::Response<"@);
    let e1 = e0.push(s.methods@[i].input_type@);
    lemma_filled_next(p1, e1, s.methods@[i].output_type@, ">;\n"@);
    let p2 = p1.push(">;\n"@);
    let e2 = e1.push(s.methods@[i].output_type@);
    assert(p2 =~= trait_shard_method_pieces());
    assert(e2 =~= seq![s.methods@[i].name@, s.methods@[i].input_type@, s.methods@[i].output_type@]);
}

/// The declaration of a shard method has the name of the method, its input and its
/// output, in a text that is the same for all methods.
pub proof fn law_trait_shard_method(s: Service, i: int, t: Service, j: int)
    ensures
        same_but_for(
            dispatch_mode::trait_shard_method_text(s, i),
            seq![s.methods@[i].name@, s.methods@[i].input_type@, s.methods@[i].output_type@],
            dispatch_mode::trait_shard_method_text(t, j),
            seq![t.methods@[j].name@, t.methods@[j].input_type@, t.methods@[j].output_type@],
        ),
{
    lemma_trait_shard_method(s, i);
    lemma_trait_shard_method(t, j);
    assert(trait_shard_method_pieces().len() == 4);
}

spec fn request_variant_pieces() -> Seq<Seq<char>> {
    seq![
        Seq::<char>::empty(),
        "("@,
        "),\n"@,
    ]
}

proof fn lemma_request_variant(s: Service, i: int)
    ensures
        dispatch_mode::request_variant_text(s, i) == filled(
            request_variant_pieces(),
            seq![s.methods@[i].proto_name@, s.methods@[i].input_type@],
        ),
{
    let p = seq![Seq::<char>::empty()];
    let e = Seq::<Seq<char>>::empty();
    lemma_filled_next(p, e, s.methods@[i].proto_name@, "("@);
    let p0 = p.push("("@);
    let e0 = e.push(s.methods@[i].proto_name@);
    lemma_filled_next(p0, e0, s.methods@[i].input_type@, "),\n"@);
    let p1 = p0.push("),\n"@);
    let e1 = e0.push(s.methods@[i].input_type@);
    assert(Seq::<char>::empty() + s.methods@[i].proto_name@ =~= s.methods@[i].proto_name@);
    assert(p1 =~= request_variant_pieces());
    assert(e1 =~= seq![s.methods@[i].proto_name@, s.methods@[i].input_type@]);
}

/// The variant of a method has its proto name and its input, in a text that is the same
/// for all methods.
pub proof fn law_request_variant(s: Service, i: int, t: Service, j: int)
    ensures
        same_but_for(
            dispatch_mode::request_variant_text(s, i),
            seq![s.methods@[i].proto_name@, s.methods@[i].input_type@],
            dispatch_mode::request_variant_text(t, j),
            seq![t.methods@[j].proto_name@, t.methods@[j].input_type@],
        ),
{
    lemma_request_variant(s, i);
    lemma_request_variant(t, j);
    assert(request_variant_pieces().len() == 3);
}

spec fn path_pieces() -> Seq<Seq<char>> {
    seq![
        "/"@,
        "."@,
        "/"@,
        Seq::<char>::empty(),
    ]
}

proof fn lemma_path(s: Service, i: int)
    ensures
        dispatch_mode::path_text(s, i) == filled(
            path_pieces(),
            seq![s.package@, s.name@, s.methods@[i].proto_name@],
        ),
{
    let p = seq!["/"@];
    let e = Seq::<Seq<char>>::empty();
    lemma_filled_next(p, e, s.package@, "."@);
    let p0 = p.push("."@);
    let e0 = e.push(s.package@);
    lemma_filled_next(p0, e0, s.name@, "/"@);
    let p1 = p0.push("/"@);
    let e1 = e0.push(s.name@);
    lemma_filled_next(p1, e1, s.methods@[i].proto_name@, Seq::<char>::empty());
    let p2 = p1.push(Seq::<char>::empty());
    let e2 = e1.push(s.methods@[i].proto_name@);
    assert(p2 =~= path_pieces());
    assert(e2 =~= seq![s.package@, s.name@, s.methods@[i].proto_name@]);
    assert(filled(p2, e2) =~= dispatch_mode::path_text(s, i));
}

/// The path of a method is made of the package, the service and the proto name, in a text
/// that is the same for all.
pub proof fn law_path(s: Service, i: int, t: Service, j: int)
    ensures
        same_but_for(
            dispatch_mode::path_text(s, i),
            seq![s.package@, s.name@, s.methods@[i].proto_name@],
            dispatch_mode::path_text(t, j),
            seq![t.package@, t.name@, t.methods@[j].proto_name@],
        ),
{
    lemma_path(s, i);
    lemma_path(t, j);
    assert(path_pieces().len() == 4);
}

spec fn route_arm_pieces() -> Seq<Seq<char>> {
    seq![
        "b\""@,
        "\" => Some("@,
        "),\n"@,
    ]
}

proof fn lemma_route_arm(s: Service, i: int)
    ensures
        dispatch_mode::route_arm_text(s, i) == filled(
            route_arm_pieces(),
            seq![dispatch_mode::path_text(s, i), dispatch_mode::number_text(i)],
        ),
{
    let p = seq!["b\""@];
    let e = Seq::<Seq<char>>::empty();
    lemma_filled_next(p, e, dispatch_mode::path_text(s, i), "\" => Some("@);
    let p0 = p.push("\" => Some("@);
    let e0 = e.push(dispatch_mode::path_text(s, i));
    lemma_filled_next(p0, e0, dispatch_mode::number_text(i), "),\n"@);
    let p1 = p0.push("),\n"@);
    let e1 = e0.push(dispatch_mode::number_text(i));
    assert(p1 =~= route_arm_pieces());
    assert(e1 =~= seq![dispatch_mode::path_text(s, i), dispatch_mode::number_text(i)]);
}

/// The arm of `route` for a method has its path and its number, in a text that is the
/// same for all methods.
pub proof fn law_route_arm(s: Service, i: int, t: Service, j: int)
    ensures
        same_but_for(
            dispatch_mode::route_arm_text(s, i),
            seq![dispatch_mode::path_text(s, i), dispatch_mode::number_text(i)],
            dispatch_mode::route_arm_text(t, j),
            seq![dispatch_mode::path_text(t, j), dispatch_mode::number_text(j)],
        ),
{
    lemma_route_arm(s, i);
    lemma_route_arm(t, j);
    assert(route_arm_pieces().len() == 3);
}

spec fn handle_arm_pieces() -> Seq<Seq<char>> {
    seq![
        Seq::<char>::empty(),
        " => "@,
        "Request::"@,
        "("@,
        "::decode(req_buf)?),\n"@,
    ]
}

proof fn lemma_handle_arm(s: Service, i: int)
    ensures
        dispatch_mode::handle_arm_text(s, i) == filled(
            handle_arm_pieces(),
            seq![
                dispatch_mode::number_text(i),
                s.name@,
                s.methods@[i].proto_name@,
                s.methods@[i].input_type@,
            ],
        ),
{
    let p = seq![Seq::<char>::empty()];
    let e = Seq::<Seq<char>>::empty();
    lemma_filled_next(p, e, dispatch_mode::number_text(i), " => "@);
    let p0 = p.push(" => "@);
    let e0 = e.push(dispatch_mode::number_text(i));
    lemma_filled_next(p0, e0, s.name@, "Request::"@);
    let p1 = p0.push("Request::"@);
    let e1 = e0.push(s.name@);
    lemma_filled_next(p1, e1, s.methods@[i].proto_name@, "("@);
    let p2 = p1.push("("@);
    let e2 = e1.push(s.methods@[i].proto_name@);
    lemma_filled_next(p2, e2, s.methods@[i].input_type@, "::decode(req_buf)?),\n"@);
    let p3 = p2.push("::decode(req_buf)?),\n"@);
    let e3 = e2.push(s.methods@[i].input_type@);
    assert(Seq::<char>::empty() + dispatch_mode::number_text(i) =~= dispatch_mode::number_text(i));
    assert(p3 =~= handle_arm_pieces());
    assert(e3 =~= seq![
        dispatch_mode::number_text(i),
        s.name@,
        s.methods@[i].proto_name@,
        s.methods@[i].input_type@,
    ]);
}

/// The arm of `handle` for a method has its number, the request type of the service, its
/// own proto name and its own input, in a text that is the same for all methods.
pub proof fn law_handle_arm(s: Service, i: int, t: Service, j: int)
    ensures
        same_but_for(
            dispatch_mode::handle_arm_text(s, i),
            seq![
                dispatch_mode::number_text(i),
                s.name@,
                s.methods@[i].proto_name@,
                s.methods@[i].input_type@,
            ],
            dispatch_mode::handle_arm_text(t, j),
            seq![
                dispatch_mode::number_text(j),
                t.name@,
                t.methods@[j].proto_name@,
                t.methods@[j].input_type@,
            ],
        ),
{
    lemma_handle_arm(s, i);
    lemma_handle_arm(t, j);
    assert(handle_arm_pieces().len() == 5);
}

spec fn shard_server_arm_pieces() -> Seq<Seq<char>> {
    seq![
        Seq::<char>::empty(),
        "Request::"@,
        "(request) => {
                self.0."@,
        "(request).await.map(|reply|
                    Box::new(reply) as Box<dyn pajamax::ReplyEncode>)
            }\n"@,
    ]
}

proof fn lemma_shard_server_arm(s: Service, i: int)
    ensures
        dispatch_mode::shard_server_arm_text(s, i) == filled(
            shard_server_arm_pieces(),
            seq![s.name@, s.methods@[i].proto_name@, s.methods@[i].name@],
        ),
{
    let p = seq![Seq::<char>::empty()];
    let e = Seq::<Seq<char>>::empty();
    lemma_filled_next(p, e, s.name@, "Request::"@);
    let p0 = p.push("Request::"@);
    let e0 = e.push(s.name@);
    lemma_filled_next(p0, e0, s.methods@[i].proto_name@, "(request) => {
                self.0."@);
    let p1 = p0.push("(request) => {
                self.0."@);
    let e1 = e0.push(s.methods@[i].proto_name@);
    lemma_filled_next(p1, e1, s.methods@[i].name@, "(request).await.map(|reply|
                    Box::new(reply) as Box<dyn pajamax::ReplyEncode>)
            }\n"@);
    let p2 = p1.push("(request).await.map(|reply|
                    Box::new(reply) as Box<dyn pajamax::ReplyEncode>)
            }\n"@);
    let e2 = e1.push(s.methods@[i].name@);
    assert(Seq::<char>::empty() + s.name@ =~= s.name@);
    assert(p2 =~= shard_server_arm_pieces());
    assert(e2 =~= seq![s.name@, s.methods@[i].proto_name@, s.methods@[i].name@]);
}

/// The arm of `handle_request` for a method has the request type of the service, its own
/// proto name and its own name, in a text that is the same for all methods.
pub proof fn law_shard_server_arm(s: Service, i: int, t: Service, j: int)
    ensures
        same_but_for(
            dispatch_mode::shard_server_arm_text(s, i),
            seq![s.name@, s.methods@[i].proto_name@, s.methods@[i].name@],
            dispatch_mode::shard_server_arm_text(t, j),
            seq![t.name@, t.methods@[j].proto_name@, t.methods@[j].name@],
        ),
{
    lemma_shard_server_arm(s, i);
    lemma_shard_server_arm(t, j);
    assert(shard_server_arm_pieces().len() == 4);
}

spec fn trait_dispatch_pieces() -> Seq<Seq<char>> {
    seq![
        "pub trait "@,
        "Dispatch {
            fn dispatch_to(&self, req: &"@,
        "Request) -> &"@,
        "RequestTx;
        }\n"@,
    ]
}

proof fn lemma_trait_dispatch(s: Service)
    ensures
        dispatch_mode::trait_dispatch_text(s) == filled(
            trait_dispatch_pieces(),
            seq![s.name@, s.name@, s.name@],
        ),
{
    let p = seq!["pub trait "@];
    let e = Seq::<Seq<char>>::empty();
    lemma_filled_next(p, e, s.name@, "Dispatch {
            fn dispatch_to(&self, req: &"@);
    let p0 = p.push("Dispatch {
            fn dispatch_to(&self, req: &"@);
    let e0 = e.push(s.name@);
    lemma_filled_next(p0, e0, s.name@, "Request) -> &"@);
    let p1 = p0.push("Request) -> &"@);
    let e1 = e0.push(s.name@);
    lemma_filled_next(p1, e1, s.name@, "RequestTx;
        }\n"@);
    let p2 = p1.push("RequestTx;
        }\n"@);
    let e2 = e1.push(s.name@);
    assert(p2 =~= trait_dispatch_pieces());
    assert(e2 =~= seq![s.name@, s.name@, s.name@]);
}

/// For any two services, the trait `{Service}Dispatch` is the same text but for the name
/// of the service.
pub proof fn law_trait_dispatch(s: Service, t: Service)
    ensures
        same_but_for(
            dispatch_mode::trait_dispatch_text(s),
            seq![s.name@, s.name@, s.name@],
            dispatch_mode::trait_dispatch_text(t),
            seq![t.name@, t.name@, t.name@],
        ),
{
    lemma_trait_dispatch(s);
    lemma_trait_dispatch(t);
    assert(trait_dispatch_pieces().len() == 4);
}

spec fn trait_shard_head_pieces() -> Seq<Seq<char>> {
    seq![
        "#[async_trait::async_trait(?Send)]
pub trait "@,
        "Shard {\n"@,
    ]
}

proof fn lemma_trait_shard_head(s: Service)
    ensures
        dispatch_mode::trait_shard_head_text(s) == filled(
            trait_shard_head_pieces(),
            seq![s.name@],
        ),
{
    let p = seq!["#[async_trait::async_trait(?Send)]
pub trait "@];
    let e = Seq::<Seq<char>>::empty();
    lemma_filled_next(p, e, s.name@, "Shard {\n"@);
    let p0 = p.push("Shard {\n"@);
    let e0 = e.push(s.name@);
    assert(p0 =~= trait_shard_head_pieces());
    assert(e0 =~= seq![s.name@]);
}

/// For any two services, the head of the trait `{Service}Shard` is the same text but for
/// the name of the service.
pub proof fn law_trait_shard_head(s: Service, t: Service)
    ensures
        same_but_for(
            dispatch_mode::trait_shard_head_text(s),
            seq![s.name@],
            dispatch_mode::trait_shard_head_text(t),
            seq![t.name@],
        ),
{
    lemma_trait_shard_head(s);
    lemma_trait_shard_head(t);
    assert(trait_shard_head_pieces().len() == 2);
}

spec fn request_head_pieces() -> Seq<Seq<char>> {
    seq![
        "pub enum "@,
        "Request {\n"@,
    ]
}

proof fn lemma_request_head(s: Service)
    ensures
        dispatch_mode::request_head_text(s) == filled(
            request_head_pieces(),
            seq![s.name@],
        ),
{
    let p = seq!["pub enum "@];
    let e = Seq::<Seq<char>>::empty();
    lemma_filled_next(p, e, s.name@, "Request {\n"@);
    let p0 = p.push("Request {\n"@);
    let e0 = e.push(s.name@);
    assert(p0 =~= request_head_pieces());
    assert(e0 =~= seq![s.name@]);
}

/// For any two services, the head of the enum `{Service}Request` is the same text but for
/// the name of the service.
pub proof fn law_request_head(s: Service, t: Service)
    ensures
        same_but_for(
            dispatch_mode::request_head_text(s),
            seq![s.name@],
            dispatch_mode::request_head_text(t),
            seq![t.name@],
        ),
{
    lemma_request_head(s);
    lemma_request_head(t);
    assert(request_head_pieces().len() == 2);
}

spec fn channel_types_pieces() -> Seq<Seq<char>> {
    seq![
        "pub type "@,
        "RequestTx = pajamax::dispatch::RequestTx<"@,
        "Request>;
         pub type "@,
        "RequestRx = pajamax::dispatch::RequestRx<"@,
        "Request>;\n"@,
    ]
}

proof fn lemma_channel_types(s: Service)
    ensures
        dispatch_mode::channel_types_text(s) == filled(
            channel_types_pieces(),
            seq![s.name@, s.name@, s.name@, s.name@],
        ),
{
    let p = seq!["pub type "@];
    let e = Seq::<Seq<char>>::empty();
    lemma_filled_next(p, e, s.name@, "RequestTx = pajamax::dispatch::RequestTx<"@);
    let p0 = p.push("RequestTx = pajamax::dispatch::RequestTx<"@);
    let e0 = e.push(s.name@);
    lemma_filled_next(p0, e0, s.name@, "Request>;
         pub type "@);
    let p1 = p0.push("Request>;
         pub type "@);
    let e1 = e0.push(s.name@);
    lemma_filled_next(p1, e1, s.name@, "RequestRx = pajamax::dispatch::RequestRx<"@);
    let p2 = p1.push("RequestRx = pajamax::dispatch::RequestRx<"@);
    let e2 = e1.push(s.name@);
    lemma_filled_next(p2, e2, s.name@, "Request>;\n"@);
    let p3 = p2.push("Request>;\n"@);
    let e3 = e2.push(s.name@);
    assert(p3 =~= channel_types_pieces());
    assert(e3 =~= seq![s.name@, s.name@, s.name@, s.name@]);
}

/// For any two services, the channel types is the same text but for the name of the
/// service.
pub proof fn law_channel_types(s: Service, t: Service)
    ensures
        same_but_for(
            dispatch_mode::channel_types_text(s),
            seq![s.name@, s.name@, s.name@, s.name@],
            dispatch_mode::channel_types_text(t),
            seq![t.name@, t.name@, t.name@, t.name@],
        ),
{
    lemma_channel_types(s);
    lemma_channel_types(t);
    assert(channel_types_pieces().len() == 5);
}

spec fn server_struct_pieces() -> Seq<Seq<char>> {
    seq![
        "pub struct "@,
        "Server<T: "@,
        "Dispatch>(T);

        #[allow(dead_code)]
        impl<T: "@,
        "Dispatch> "@,
        "Server<T> {
            pub fn new(inner: T) -> Self { Self(inner) }

            pub fn inner(&self) -> &T { &self.0 }
            pub fn inner_mut(&mut self) -> &mut T { &mut self.0 }
        }\n"@,
    ]
}

proof fn lemma_server_struct(s: Service)
    ensures
        dispatch_mode::server_struct_text(s) == filled(
            server_struct_pieces(),
            seq![s.name@, s.name@, s.name@, s.name@],
        ),
{
    let p = seq!["pub struct "@];
    let e = Seq::<Seq<char>>::empty();
    lemma_filled_next(p, e, s.name@, "Server<T: "@);
    let p0 = p.push("Server<T: "@);
    let e0 = e.push(s.name@);
    lemma_filled_next(p0, e0, s.name@, "Dispatch>(T);

        #[allow(dead_code)]
        impl<T: "@);
    let p1 = p0.push("Dispatch>(T);

        #[allow(dead_code)]
        impl<T: "@);
    let e1 = e0.push(s.name@);
    lemma_filled_next(p1, e1, s.name@, "Dispatch> "@);
    let p2 = p1.push("Dispatch> "@);
    let e2 = e1.push(s.name@);
    lemma_filled_next(p2, e2, s.name@, "Server<T> {
            pub fn new(inner: T) -> Self { Self(inner) }

            pub fn inner(&self) -> &T { &self.0 }
            pub fn inner_mut(&mut self) -> &mut T { &mut self.0 }
        }\n"@);
    let p3 = p2.push("Server<T> {
            pub fn new(inner: T) -> Self { Self(inner) }

            pub fn inner(&self) -> &T { &self.0 }
            pub fn inner_mut(&mut self) -> &mut T { &mut self.0 }
        }\n"@);
    let e3 = e2.push(s.name@);
    assert(p3 =~= server_struct_pieces());
    assert(e3 =~= seq![s.name@, s.name@, s.name@, s.name@]);
}

/// For any two services, the struct `{Service}Server` is the same text but for the name
/// of the service.
pub proof fn law_server_struct(s: Service, t: Service)
    ensures
        same_but_for(
            dispatch_mode::server_struct_text(s),
            seq![s.name@, s.name@, s.name@, s.name@],
            dispatch_mode::server_struct_text(t),
            seq![t.name@, t.name@, t.name@, t.name@],
        ),
{
    lemma_server_struct(s);
    lemma_server_struct(t);
    assert(server_struct_pieces().len() == 5);
}

spec fn server_impl_head_pieces() -> Seq<Seq<char>> {
    seq![
        "#[async_trait::async_trait(?Send)]
        impl<T> pajamax::PajamaxService for "@,
        "Server<T>
        where T: "@,
        "Dispatch
        {
            fn is_dispatch_mode(&self) -> bool { true }
        \n"@,
    ]
}

proof fn lemma_server_impl_head(s: Service)
    ensures
        dispatch_mode::server_impl_head_text(s) == filled(
            server_impl_head_pieces(),
            seq![s.name@, s.name@],
        ),
{
    let p = seq!["#[async_trait::async_trait(?Send)]
        impl<T> pajamax::PajamaxService for "@];
    let e = Seq::<Seq<char>>::empty();
    lemma_filled_next(p, e, s.name@, "Server<T>
        where T: "@);
    let p0 = p.push("Server<T>
        where T: "@);
    let e0 = e.push(s.name@);
    lemma_filled_next(p0, e0, s.name@, "Dispatch
        {
            fn is_dispatch_mode(&self) -> bool { true }
        \n"@);
    let p1 = p0.push("Dispatch
        {
            fn is_dispatch_mode(&self) -> bool { true }
        \n"@);
    let e1 = e0.push(s.name@);
    assert(p1 =~= server_impl_head_pieces());
    assert(e1 =~= seq![s.name@, s.name@]);
}

/// For any two services, the head of its impl is the same text but for the name of the
/// service.
pub proof fn law_server_impl_head(s: Service, t: Service)
    ensures
        same_but_for(
            dispatch_mode::server_impl_head_text(s),
            seq![s.name@, s.name@],
            dispatch_mode::server_impl_head_text(t),
            seq![t.name@, t.name@],
        ),
{
    lemma_server_impl_head(s);
    lemma_server_impl_head(t);
    assert(server_impl_head_pieces().len() == 3);
}

spec fn shard_server_head_pieces() -> Seq<Seq<char>> {
    seq![
        "pub struct "@,
        "ShardServer<T: "@,
        "Shard>(T);

        impl<T: "@,
        "Shard> "@,
        "ShardServer<T> {
            pub fn new(inner: T) -> Self { Self(inner) }

            #[allow(dead_code)]
            pub fn inner(&self) -> &T { &self.0 }

            #[allow(dead_code)]
            pub fn inner_mut(&mut self) -> &mut T { &mut self.0 }

            // Handle the request and response.
            #[allow(dead_code)]
            pub async fn handle(&mut self, disp_req: pajamax::dispatch::DispatchRequest<"@,
        "Request>) {
                let response = self.handle_request(disp_req.request).await;
                disp_req.stream.response(response);
            }

            // Handle the request only. The caller should response later.
            #[allow(dead_code)]
            pub async fn handle_request(&mut self, request: "@,
        "Request) -> pajamax::Response<Box<dyn pajamax::ReplyEncode>>
            {
                match request {\n"@,
    ]
}

proof fn lemma_shard_server_head(s: Service)
    ensures
        dispatch_mode::shard_server_head_text(s) == filled(
            shard_server_head_pieces(),
            seq![s.name@, s.name@, s.name@, s.name@, s.name@, s.name@],
        ),
{
    let p = seq!["pub struct "@];
    let e = Seq::<Seq<char>>::empty();
    lemma_filled_next(p, e, s.name@, "ShardServer<T: "@);
    let p0 = p.push("ShardServer<T: "@);
    let e0 = e.push(s.name@);
    lemma_filled_next(p0, e0, s.name@, "Shard>(T);

        impl<T: "@);
    let p1 = p0.push("Shard>(T);

        impl<T: "@);
    let e1 = e0.push(s.name@);
    lemma_filled_next(p1, e1, s.name@, "Shard> "@);
    let p2 = p1.push("Shard> "@);
    let e2 = e1.push(s.name@);
    lemma_filled_next(p2, e2, s.name@, "ShardServer<T> {
            pub fn new(inner: T) -> Self { Self(inner) }

            #[allow(dead_code)]
            pub fn inner(&self) -> &T { &self.0 }

            #[allow(dead_code)]
            pub fn inner_mut(&mut self) -> &mut T { &mut self.0 }

            // Handle the request and response.
            #[allow(dead_code)]
            pub async fn handle(&mut self, disp_req: pajamax::dispatch::DispatchRequest<"@);
    let p3 = p2.push("ShardServer<T> {
            pub fn new(inner: T) -> Self { Self(inner) }

            #[allow(dead_code)]
            pub fn inner(&self) -> &T { &self.0 }

            #[allow(dead_code)]
            pub fn inner_mut(&mut self) -> &mut T { &mut self.0 }

            // Handle the request and response.
            #[allow(dead_code)]
            pub async fn handle(&mut self, disp_req: pajamax::dispatch::DispatchRequest<"@);
    let e3 = e2.push(s.name@);
    lemma_filled_next(p3, e3, s.name@, "Request>) {
                let response = self.handle_request(disp_req.request).await;
                disp_req.stream.response(response);
            }

            // Handle the request only. The caller should response later.
            #[allow(dead_code)]
            pub async fn handle_request(&mut self, request: "@);
    let p4 = p3.push("Request>) {
                let response = self.handle_request(disp_req.request).await;
                disp_req.stream.response(response);
            }

            // Handle the request only. The caller should response later.
            #[allow(dead_code)]
            pub async fn handle_request(&mut self, request: "@);
    let e4 = e3.push(s.name@);
    lemma_filled_next(p4, e4, s.name@, "Request) -> pajamax::Response<Box<dyn pajamax::ReplyEncode>>
            {
                match request {\n"@);
    let p5 = p4.push("Request) -> pajamax::Response<Box<dyn pajamax::ReplyEncode>>
            {
                match request {\n"@);
    let e5 = e4.push(s.name@);
    assert(p5 =~= shard_server_head_pieces());
    assert(e5 =~= seq![s.name@, s.name@, s.name@, s.name@, s.name@, s.name@]);
}

/// For any two services, the struct `{Service}ShardServer` is the same text but for the
/// name of the service.
pub proof fn law_shard_server_head(s: Service, t: Service)
    ensures
        same_but_for(
            dispatch_mode::shard_server_head_text(s),
            seq![s.name@, s.name@, s.name@, s.name@, s.name@, s.name@],
            dispatch_mode::shard_server_head_text(t),
            seq![t.name@, t.name@, t.name@, t.name@, t.name@, t.name@],
        ),
{
    lemma_shard_server_head(s);
    lemma_shard_server_head(t);
    assert(shard_server_head_pieces().len() == 7);
}

/// The trait `{Service}Shard` declares every method once, in order.
pub proof fn law_shard_trait(s: Service)
    ensures
        dispatch_mode::shard_trait_text(s) == in_a_row(
            seq![
                dispatch_mode::trait_shard_head_text(s),
                in_a_row(Seq::new(s.methods@.len(), |i: int| dispatch_mode::trait_shard_method_text(s, i))),
                "}\n"@,
            ],
        ),
{
    let line = |i: int| dispatch_mode::trait_shard_method_text(s, i);
    law_lines(s.methods@.len(), line);
    let e = Seq::<Seq<char>>::empty();
    lemma_row_next(e, dispatch_mode::trait_shard_head_text(s));
    let r0 = e.push(dispatch_mode::trait_shard_head_text(s));
    lemma_row_next(r0, in_a_row(Seq::new(s.methods@.len(), line)));
    let r1 = r0.push(in_a_row(Seq::new(s.methods@.len(), line)));
    lemma_row_next(r1, "}\n"@);
    let r2 = r1.push("}\n"@);
    assert(in_a_row(r2) =~= dispatch_mode::shard_trait_text(s));
    assert(r2 =~= seq![
        dispatch_mode::trait_shard_head_text(s),
        in_a_row(Seq::new(s.methods@.len(), |i: int| dispatch_mode::trait_shard_method_text(s, i))),
        "}\n"@,
    ]);
}

/// The enum `{Service}Request` has every method once, in order.
pub proof fn law_request_type(s: Service)
    ensures
        dispatch_mode::request_type_text(s) == in_a_row(
            seq![
                "#[derive(Debug, PartialEq)]\n"@,
                dispatch_mode::request_head_text(s),
                in_a_row(Seq::new(s.methods@.len(), |i: int| dispatch_mode::request_variant_text(s, i))),
                "}\n"@,
                dispatch_mode::channel_types_text(s),
            ],
        ),
{
    let line = |i: int| dispatch_mode::request_variant_text(s, i);
    law_lines(s.methods@.len(), line);
    let e = Seq::<Seq<char>>::empty();
    lemma_row_next(e, "#[derive(Debug, PartialEq)]\n"@);
    let r0 = e.push("#[derive(Debug, PartialEq)]\n"@);
    lemma_row_next(r0, dispatch_mode::request_head_text(s));
    let r1 = r0.push(dispatch_mode::request_head_text(s));
    lemma_row_next(r1, in_a_row(Seq::new(s.methods@.len(), line)));
    let r2 = r1.push(in_a_row(Seq::new(s.methods@.len(), line)));
    lemma_row_next(r2, "}\n"@);
    let r3 = r2.push("}\n"@);
    lemma_row_next(r3, dispatch_mode::channel_types_text(s));
    let r4 = r3.push(dispatch_mode::channel_types_text(s));
    assert(in_a_row(r4) =~= dispatch_mode::request_type_text(s));
    assert(r4 =~= seq![
        "#[derive(Debug, PartialEq)]\n"@,
        dispatch_mode::request_head_text(s),
        in_a_row(Seq::new(s.methods@.len(), |i: int| dispatch_mode::request_variant_text(s, i))),
        "}\n"@,
        dispatch_mode::channel_types_text(s),
    ]);
}

/// `route` has an arm for every method once, in order, and none for anything else.
pub proof fn law_service_route(s: Service)
    ensures
        dispatch_mode::service_route_text(s) == in_a_row(
            seq![
                dispatch_mode::route_head_text(),
                in_a_row(Seq::new(s.methods@.len(), |i: int| dispatch_mode::route_arm_text(s, i))),
                "_ => None, } }\n"@,
            ],
        ),
{
    let line = |i: int| dispatch_mode::route_arm_text(s, i);
    law_lines(s.methods@.len(), line);
    let e = Seq::<Seq<char>>::empty();
    lemma_row_next(e, dispatch_mode::route_head_text());
    let r0 = e.push(dispatch_mode::route_head_text());
    lemma_row_next(r0, in_a_row(Seq::new(s.methods@.len(), line)));
    let r1 = r0.push(in_a_row(Seq::new(s.methods@.len(), line)));
    lemma_row_next(r1, "_ => None, } }\n"@);
    let r2 = r1.push("_ => None, } }\n"@);
    assert(in_a_row(r2) =~= dispatch_mode::service_route_text(s));
    assert(r2 =~= seq![
        dispatch_mode::route_head_text(),
        in_a_row(Seq::new(s.methods@.len(), |i: int| dispatch_mode::route_arm_text(s, i))),
        "_ => None, } }\n"@,
    ]);
}

/// `handle` has an arm for every method once, in order.
pub proof fn law_service_handle(s: Service)
    ensures
        dispatch_mode::service_handle_text(s) == in_a_row(
            seq![
                dispatch_mode::handle_head_text(),
                in_a_row(Seq::new(s.methods@.len(), |i: int| dispatch_mode::handle_arm_text(s, i))),
                dispatch_mode::handle_tail_text(),
            ],
        ),
{
    let line = |i: int| dispatch_mode::handle_arm_text(s, i);
    law_lines(s.methods@.len(), line);
    let e = Seq::<Seq<char>>::empty();
    lemma_row_next(e, dispatch_mode::handle_head_text());
    let r0 = e.push(dispatch_mode::handle_head_text());
    lemma_row_next(r0, in_a_row(Seq::new(s.methods@.len(), line)));
    let r1 = r0.push(in_a_row(Seq::new(s.methods@.len(), line)));
    lemma_row_next(r1, dispatch_mode::handle_tail_text());
    let r2 = r1.push(dispatch_mode::handle_tail_text());
    assert(in_a_row(r2) =~= dispatch_mode::service_handle_text(s));
    assert(r2 =~= seq![
        dispatch_mode::handle_head_text(),
        in_a_row(Seq::new(s.methods@.len(), |i: int| dispatch_mode::handle_arm_text(s, i))),
        dispatch_mode::handle_tail_text(),
    ]);
}

/// `handle_request` has an arm for every method once, in order.
pub proof fn law_shard_server(s: Service)
    ensures
        dispatch_mode::shard_server_text(s) == in_a_row(
            seq![
                dispatch_mode::shard_server_head_text(s),
                in_a_row(Seq::new(s.methods@.len(), |i: int| dispatch_mode::shard_server_arm_text(s, i))),
                "} } }\n"@,
            ],
        ),
{
    let line = |i: int| dispatch_mode::shard_server_arm_text(s, i);
    law_lines(s.methods@.len(), line);
    let e = Seq::<Seq<char>>::empty();
    lemma_row_next(e, dispatch_mode::shard_server_head_text(s));
    let r0 = e.push(dispatch_mode::shard_server_head_text(s));
    lemma_row_next(r0, in_a_row(Seq::new(s.methods@.len(), line)));
    let r1 = r0.push(in_a_row(Seq::new(s.methods@.len(), line)));
    lemma_row_next(r1, "} } }\n"@);
    let r2 = r1.push("} } }\n"@);
    assert(in_a_row(r2) =~= dispatch_mode::shard_server_text(s));
    assert(r2 =~= seq![
        dispatch_mode::shard_server_head_text(s),
        in_a_row(Seq::new(s.methods@.len(), |i: int| dispatch_mode::shard_server_arm_text(s, i))),
        "} } }\n"@,
    ]);
}

/// The server is its struct and its impl, and the impl has `route` and `handle`.
pub proof fn law_server(s: Service)
    ensures
        dispatch_mode::server_text(s) == in_a_row(
            seq![
                dispatch_mode::server_struct_text(s),
                dispatch_mode::server_impl_head_text(s),
                dispatch_mode::service_route_text(s),
                dispatch_mode::service_handle_text(s),
                "}\n"@,
            ],
        ),
{
    let e = Seq::<Seq<char>>::empty();
    lemma_row_next(e, dispatch_mode::server_struct_text(s));
    let r0 = e.push(dispatch_mode::server_struct_text(s));
    lemma_row_next(r0, dispatch_mode::server_impl_head_text(s));
    let r1 = r0.push(dispatch_mode::server_impl_head_text(s));
    lemma_row_next(r1, dispatch_mode::service_route_text(s));
    let r2 = r1.push(dispatch_mode::service_route_text(s));
    lemma_row_next(r2, dispatch_mode::service_handle_text(s));
    let r3 = r2.push(dispatch_mode::service_handle_text(s));
    lemma_row_next(r3, "}\n"@);
    let r4 = r3.push("}\n"@);
    assert(in_a_row(r4) =~= dispatch_mode::server_text(s));
    assert(r4 =~= seq![
        dispatch_mode::server_struct_text(s),
        dispatch_mode::server_impl_head_text(s),
        dispatch_mode::service_route_text(s),
        dispatch_mode::service_handle_text(s),
        "}\n"@,
    ]);
}

/// All the parts are generated for every service, each of them once.
pub proof fn law_generated(s: Service)
    ensures
        dispatch_mode::generated_text(s) == in_a_row(
            seq![
                dispatch_mode::trait_dispatch_text(s),
                dispatch_mode::shard_trait_text(s),
                dispatch_mode::request_type_text(s),
                dispatch_mode::server_text(s),
                dispatch_mode::shard_server_text(s),
            ],
        ),
{
    let e = Seq::<Seq<char>>::empty();
    lemma_row_next(e, dispatch_mode::trait_dispatch_text(s));
    let r0 = e.push(dispatch_mode::trait_dispatch_text(s));
    lemma_row_next(r0, dispatch_mode::shard_trait_text(s));
    let r1 = r0.push(dispatch_mode::shard_trait_text(s));
    lemma_row_next(r1, dispatch_mode::request_type_text(s));
    let r2 = r1.push(dispatch_mode::request_type_text(s));
    lemma_row_next(r2, dispatch_mode::server_text(s));
    let r3 = r2.push(dispatch_mode::server_text(s));
    lemma_row_next(r3, dispatch_mode::shard_server_text(s));
    let r4 = r3.push(dispatch_mode::shard_server_text(s));
    assert(in_a_row(r4) =~= dispatch_mode::generated_text(s));
    assert(r4 =~= seq![
        dispatch_mode::trait_dispatch_text(s),
        dispatch_mode::shard_trait_text(s),
        dispatch_mode::request_type_text(s),
        dispatch_mode::server_text(s),
        dispatch_mode::shard_server_text(s),
    ]);
}

} // verus!
