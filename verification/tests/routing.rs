use pajamax::error::Error;
use pajamax::grpc_message::GrpcEncoding;
use pajamax::route::{
    find_service, look_up, resolve_route, runs_inline, settle_route, FoundHeaders, PajamaxService, PathKind,
};

struct Paths(Vec<&'static str>);

impl PajamaxService for Paths {
    fn route(&self, path: &[u8]) -> Option<usize> {
        self.0.iter().position(|p| p.as_bytes() == path)
    }

    fn is_dispatch_mode(&self) -> bool {
        false
    }
}

fn plain(path: &[u8]) -> FoundHeaders {
    FoundHeaders { path: PathKind::Plain(path.to_vec()), encoding: GrpcEncoding::Gzip }
}

fn services() -> Vec<Paths> {
    vec![Paths(vec!["/a/X", "/a/Y"]), Paths(vec!["/b/Z", "/a/Y"])]
}

#[test]
fn the_first_service_that_knows_the_path() {
    let services = services();
    let mut cache = Vec::new();
    assert_eq!(
        resolve_route(plain(b"/a/Y"), &mut cache, &services).unwrap(),
        (0, 1, GrpcEncoding::Gzip)
    );
    assert_eq!(
        resolve_route(plain(b"/b/Z"), &mut cache, &services).unwrap(),
        (1, 0, GrpcEncoding::Gzip)
    );
    assert_eq!(cache, vec![(0, 1), (1, 0)]);
}

#[test]
fn cached_routes_are_found_again() {
    let services = services();
    let mut cache = Vec::new();
    let first = resolve_route(plain(b"/a/X"), &mut cache, &services).unwrap();
    resolve_route(plain(b"/b/Z"), &mut cache, &services).unwrap();
    let cached = FoundHeaders { path: PathKind::Cached(0), encoding: GrpcEncoding::Gzip };
    assert_eq!(resolve_route(cached, &mut cache, &services).unwrap(), first);
    assert_eq!(cache.len(), 2);
}

#[test]
fn unknown_paths_are_refused_and_not_cached() {
    let services = services();
    let mut cache = Vec::new();
    match resolve_route(plain(b"/c/None"), &mut cache, &services) {
        Err(Error::UnknownMethod(m)) => assert_eq!(m, "/c/None"),
        _ => panic!("the path is known"),
    }
    match resolve_route(plain(b"/c/\xff"), &mut cache, &services) {
        Err(Error::UnknownMethod(m)) => assert_eq!(m, "/c/\u{fffd}"),
        _ => panic!("the path is known"),
    }
    assert!(cache.is_empty());
    let none: Vec<Paths> = Vec::new();
    assert!(resolve_route(plain(b"/a/X"), &mut cache, &none).is_err());
}

#[test]
fn asking_the_services() {
    let services = services();
    assert_eq!(find_service(&services, b"/a/Y"), Some((0, 1)));
    assert_eq!(find_service(&services, b"/b/Z"), Some((1, 0)));
    assert_eq!(find_service(&services, b"/"), None);
    assert_eq!(look_up(&PathKind::Plain(b"/b/Z".to_vec()), &services), Some((1, 0)));
    assert_eq!(look_up(&PathKind::Cached(0), &services), None);
}

#[test]
fn what_follows_from_a_route() {
    let mut cache = vec![(8, 9)];
    assert_eq!(
        settle_route(plain(b"/x"), Some((2, 3)), &mut cache).unwrap(),
        (2, 3, GrpcEncoding::Gzip)
    );
    assert_eq!(cache, vec![(8, 9), (2, 3)]);
    let cached = FoundHeaders { path: PathKind::Cached(0), encoding: GrpcEncoding::Zstd };
    assert_eq!(settle_route(cached, None, &mut cache).unwrap(), (8, 9, GrpcEncoding::Zstd));
    assert!(matches!(
        settle_route(plain(b"/x"), None, &mut cache),
        Err(Error::UnknownMethod(_))
    ));
    assert_eq!(cache, vec![(8, 9), (2, 3)]);
}

struct Mode(bool);

impl PajamaxService for Mode {
    fn route(&self, _path: &[u8]) -> Option<usize> {
        None
    }

    fn is_dispatch_mode(&self) -> bool {
        self.0
    }
}

#[test]
fn local_mode_runs_inline() {
    let services = [Mode(true), Mode(false)];
    assert!(!runs_inline(&services, 0));
    assert!(runs_inline(&services, 1));
}
