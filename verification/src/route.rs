//! Which service and which of its methods a request is for.
use crate::error::{Error, ErrorView};
use crate::grpc_message::GrpcEncoding;
use vstd::prelude::*;

verus! {

/// A service, as its generated code presents it.
pub trait PajamaxService {
    /// Route the path to request enum discriminant as usize.
    fn route(&self, path: &[u8]) -> Option<usize>;

    fn is_dispatch_mode(&self) -> bool;
}

/// Whether the handler of a request for this service runs inline in the connection task
/// (local mode), and not beside it (dispatch mode).
pub fn runs_inline<S: PajamaxService>(services: &[S], isvc: usize) -> (r: bool)
    requires
        isvc < services@.len(),
    ensures
        exists|dispatch_mode: bool| #[trigger]
            call_ensures(S::is_dispatch_mode, (&services@[isvc as int],), dispatch_mode) && r
                == !dispatch_mode,
{
    !services[isvc].is_dispatch_mode()
}

/// Where a header block says that its request goes.
pub enum PathKind {
    /// The path of an earlier request, by its place in the route cache.
    Cached(usize),
    /// A path that was spelt out.
    Plain(Vec<u8>),
}

/// What a request's header block says that the server needs to know.
pub struct FoundHeaders {
    pub path: PathKind,
    pub encoding: GrpcEncoding,
}

/// The same as a value.
pub enum PathView {
    Cached(usize),
    Plain(Seq<u8>),
}

impl View for PathKind {
    type V = PathView;

    open spec fn view(&self) -> PathView {
        match self {
            PathKind::Cached(i) => PathView::Cached(*i),
            PathKind::Plain(p) => PathView::Plain(p@),
        }
    }
}

/// A path in words, as `String::from_utf8_lossy` gives it.
pub uninterp spec fn lossy_text(bytes: Seq<u8>) -> Seq<char>;

/// `String::from_utf8_lossy`: bytes that are UTF-8 are taken as such; what stands for
/// the others is a function of the bytes.
#[verifier::external_body]
fn text_of(bytes: &[u8]) -> (r: String)
    ensures
        r@ == lossy_text(bytes@),
        vstd::utf8::valid_utf8(bytes@) ==> r@ == vstd::utf8::decode_utf8(bytes@),
{
    String::from_utf8_lossy(bytes).into()
}

/// Whether `route` is what asking the services in turn gave: the first one that knows
/// the path, and which method it says that the path names.
pub open spec fn found_by<S: PajamaxService>(
    services: Seq<S>,
    path: &[u8],
    route: Option<(usize, usize)>,
) -> bool {
    match route {
        Some((isvc, req_disc)) => {
            &&& isvc < services.len()
            &&& call_ensures(S::route, (&services[isvc as int], path), Some(req_disc))
            &&& forall|j: int|
                0 <= j < isvc ==> call_ensures(S::route, (&(#[trigger] services[j]), path), None)
        },
        None => forall|j: int|
            0 <= j < services.len() ==> call_ensures(
                S::route,
                (&(#[trigger] services[j]), path),
                None,
            ),
    }
}

/// Ask the services in turn whether they know the path.
pub fn find_service<S: PajamaxService>(services: &[S], path: &[u8]) -> (r: Option<(usize, usize)>)
    ensures
        found_by(services@, path, r),
{
    let mut i: usize = 0;
    while i < services.len()
        invariant
            i <= services@.len(),
            forall|j: int|
                0 <= j < i ==> call_ensures(S::route, (&(#[trigger] services@[j]), path), None),
        decreases services@.len() - i,
    {
        if let Some(req_disc) = services[i].route(path) {
            return Some((i, req_disc));
        }
        i += 1;
    }
    None
}

/// Whether `route` is what the services gave for a path that was spelt out. About one
/// that is cached they are not asked.
pub open spec fn route_found<S: PajamaxService>(
    services: Seq<S>,
    path: PathView,
    route: Option<(usize, usize)>,
) -> bool {
    match path {
        PathView::Cached(_) => route is None,
        PathView::Plain(p) => exists|asked: &[u8]| #[trigger]
            asked@ == p && found_by(services, asked, route),
    }
}

/// Ask the services about the path, where it was spelt out.
pub fn look_up<S: PajamaxService>(path: &PathKind, services: &[S]) -> (r: Option<(usize, usize)>)
    ensures
        route_found(services@, path@, r),
{
    match path {
        PathKind::Cached(_) => None,
        PathKind::Plain(path) => {
            let asked = path.as_slice();
            let r = find_service(services, asked);
            assert(asked@ == path@);
            r
        },
    }
}

/// Where a path leads, given what the services said about it.
pub open spec fn route_of(
    cache: Seq<(usize, usize)>,
    path: PathView,
    route: Option<(usize, usize)>,
) -> Result<(usize, usize), ErrorView> {
    match path {
        PathView::Cached(i) => Ok(cache[i as int]),
        PathView::Plain(p) => match route {
            Some(route) => Ok(route),
            None => Err(ErrorView::UnknownMethod(lossy_text(p))),
        },
    }
}

/// The route cache afterwards: a path that was spelt out and is known gets the next
/// place in it.
pub open spec fn cache_after(
    cache: Seq<(usize, usize)>,
    path: PathView,
    route: Option<(usize, usize)>,
) -> Seq<(usize, usize)> {
    match path {
        PathView::Cached(_) => cache,
        PathView::Plain(p) => match route {
            Some(route) => cache.push(route),
            None => cache,
        },
    }
}

/// Whether the path, where it is a cached one, has a place in the cache.
pub open spec fn path_within(path: PathView, cache: Seq<(usize, usize)>) -> bool {
    path matches PathView::Cached(i) ==> i < cache.len()
}

/// Whether the cache went from one state to the other, and `r` came out, as it should
/// with this path and encoding, where the services said `route`.
pub open spec fn routed(
    before: Seq<(usize, usize)>,
    after: Seq<(usize, usize)>,
    path: PathView,
    encoding: GrpcEncoding,
    route: Option<(usize, usize)>,
    r: Result<(usize, usize, GrpcEncoding), Error>,
) -> bool {
    after == cache_after(before, path, route) && match r {
        Ok((isvc, req_disc, enc)) => route_of(before, path, route) == Ok::<
            (usize, usize),
            ErrorView,
        >((isvc, req_disc)) && enc == encoding,
        Err(e) => route_of(before, path, route) == Err::<(usize, usize), ErrorView>(e@),
    }
}

/// What follows from what the services said about the path.
pub fn settle_route(
    found: FoundHeaders,
    route: Option<(usize, usize)>,
    route_cache: &mut Vec<(usize, usize)>,
) -> (r: Result<(usize, usize, GrpcEncoding), Error>)
    requires
        path_within(found.path@, old(route_cache)@),
    ensures
        routed(
            old(route_cache)@,
            final(route_cache)@,
            found.path@,
            found.encoding,
            route,
            r,
        ),
{
    let (isvc, req_disc) = match found.path {
        PathKind::Cached(cached) => route_cache[cached],
        PathKind::Plain(path) => match route {
            Some(route) => {
                route_cache.push(route);
                route
            },
            None => {
                return Err(Error::UnknownMethod(text_of(path.as_slice())));
            },
        },
    };
    Ok((isvc, req_disc, found.encoding))
}

/// Where a request goes: to where the cache says, or to the first service that knows its
/// path.
pub fn resolve_route<S: PajamaxService>(
    found: FoundHeaders,
    route_cache: &mut Vec<(usize, usize)>,
    services: &[S],
) -> (r: Result<(usize, usize, GrpcEncoding), Error>)
    requires
        path_within(found.path@, old(route_cache)@),
    ensures
        exists|route: Option<(usize, usize)>| #[trigger]
            route_found(services@, found.path@, route) && routed(
                old(route_cache)@,
                final(route_cache)@,
                found.path@,
                found.encoding,
                route,
                r,
            ),
{
    let route = look_up(&found.path, services);
    settle_route(found, route, route_cache)
}

/// What the services give for a path is a route to one of them.
pub proof fn law_route_within<S: PajamaxService>(
    services: Seq<S>,
    path: PathView,
    route: Option<(usize, usize)>,
)
    requires
        route_found(services, path, route),
    ensures
        route matches Some((isvc, _)) ==> isvc < services.len(),
{
}

/// A path that was spelt out and is known is found again under the place that it got
/// in the cache, by the same route, whatever routes are added behind it.
pub proof fn law_cached_route(
    cache: Seq<(usize, usize)>,
    path: Seq<u8>,
    route: (usize, usize),
    later: Seq<(usize, usize)>,
)
    requires
        cache.len() < usize::MAX,
    ensures
        path_within(
            PathView::Cached(cache.len() as usize),
            cache_after(cache, PathView::Plain(path), Some(route)) + later,
        ),
        route_of(
            cache_after(cache, PathView::Plain(path), Some(route)) + later,
            PathView::Cached(cache.len() as usize),
            None,
        ) == route_of(cache, PathView::Plain(path), Some(route)),
{
}

/// A cached path leads to what the cache has at its place, whatever else is said. A path
/// that was spelt out leads to where the services say, and to an error with the path in it
/// where none of them knows it; what is cached makes no difference to it.
pub proof fn law_route_given(
    cache: Seq<(usize, usize)>,
    other: Seq<(usize, usize)>,
    n: usize,
    path: Seq<u8>,
    route: Option<(usize, usize)>,
)
    ensures
        route_of(cache, PathView::Cached(n), route) == Ok::<(usize, usize), ErrorView>(
            cache[n as int],
        ),
        route_of(cache, PathView::Plain(path), route) == route_of(
            other,
            PathView::Plain(path),
            route,
        ),
        route matches Some(r) ==> route_of(cache, PathView::Plain(path), route) == Ok::<
            (usize, usize),
            ErrorView,
        >(r),
        route is None ==> route_of(cache, PathView::Plain(path), route) == Err::<
            (usize, usize),
            ErrorView,
        >(ErrorView::UnknownMethod(lossy_text(path))),
{
}

/// Settling a route changes no entry that the cache already has: the cache is a prefix of
/// what it becomes. It grows by the one route of a path that was spelt out and is known,
/// and by nothing else.
pub proof fn law_cache_grows(
    cache: Seq<(usize, usize)>,
    path: PathView,
    route: Option<(usize, usize)>,
)
    ensures
        cache.is_prefix_of(cache_after(cache, path, route)),
        cache_after(cache, path, route).len() == cache.len() + if path is Plain && route is Some {
            1int
        } else {
            0
        },
        path is Plain ==> (route matches Some(r) ==> cache_after(cache, path, route).last() == r),
{
}

/// The cache behind a series of requests: their paths, and what the services said.
pub open spec fn cache_after_all(
    cache: Seq<(usize, usize)>,
    asked: Seq<(PathView, Option<(usize, usize)>)>,
) -> Seq<(usize, usize)>
    decreases asked.len(),
{
    if asked.len() == 0 {
        cache
    } else {
        cache_after_all(cache_after(cache, asked[0].0, asked[0].1), asked.skip(1))
    }
}

/// Over any series of requests the cache keeps what it has.
pub proof fn law_cache_grows_on(
    cache: Seq<(usize, usize)>,
    asked: Seq<(PathView, Option<(usize, usize)>)>,
)
    ensures
        cache.is_prefix_of(cache_after_all(cache, asked)),
    decreases asked.len(),
{
    if asked.len() > 0 {
        let next = cache_after(cache, asked[0].0, asked[0].1);
        law_cache_grows(cache, asked[0].0, asked[0].1);
        law_cache_grows_on(next, asked.skip(1));
        let end = cache_after_all(cache, asked);
        assert(end.subrange(0, cache.len() as int) =~= cache) by {
            assert forall|i: int| 0 <= i < cache.len() implies end[i] == cache[i] by {
                assert(next[i] == next.subrange(0, cache.len() as int)[i]);
                assert(end[i] == end.subrange(0, next.len() as int)[i]);
            }
        }
    }
}

/// A path that was spelt out and is known is found under the place that it got, by the
/// same route, after any series of further requests.
pub proof fn law_cached_route_stays(
    cache: Seq<(usize, usize)>,
    path: Seq<u8>,
    route: (usize, usize),
    later: Seq<(PathView, Option<(usize, usize)>)>,
    said: Option<(usize, usize)>,
)
    requires
        cache.len() < usize::MAX,
    ensures
        ({
            let end = cache_after_all(
                cache_after(cache, PathView::Plain(path), Some(route)),
                later,
            );
            let place = PathView::Cached(cache.len() as usize);
            path_within(place, end) && route_of(end, place, said) == Ok::<
                (usize, usize),
                ErrorView,
            >(route)
        }),
{
    let now = cache_after(cache, PathView::Plain(path), Some(route));
    let end = cache_after_all(now, later);
    law_cache_grows_on(now, later);
    assert(end[cache.len() as int] == end.subrange(0, now.len() as int)[cache.len() as int]);
}

} // verus!
