use dino::errors::{AppError, BuildError};
use dino::method::HttpMethod;
use dino::router::{ProjectRoute, ProjectRoutes, RouterTable};
use dino::server::{strip_port, AppState, TennetRouter};
use dino::swap::SwappableAppRouter;

fn route(method: HttpMethod, handler: &str) -> ProjectRoute {
    ProjectRoute {
        method,
        handler: handler.to_string(),
    }
}

fn base_routes() -> ProjectRoutes {
    vec![
        (
            "/api/hello/:id".to_string(),
            vec![
                route(HttpMethod::Get, "hello1"),
                route(HttpMethod::Post, "hello2"),
            ],
        ),
        (
            "/api/world/:id".to_string(),
            vec![
                route(HttpMethod::Get, "hello3"),
                route(HttpMethod::Post, "hello4"),
            ],
        ),
        (
            "/api/:name/:id".to_string(),
            vec![route(HttpMethod::Post, "hello4")],
        ),
    ]
}

fn changed_routes() -> ProjectRoutes {
    vec![
        (
            "/api/world/:id".to_string(),
            vec![
                route(HttpMethod::Get, "handle1"),
                route(HttpMethod::Post, "handle2"),
            ],
        ),
        (
            "/api/:name/:id".to_string(),
            vec![route(HttpMethod::Post, "handle2")],
        ),
    ]
}

fn param<'a>(params: &'a [(String, String)], key: &str) -> Option<&'a str> {
    params
        .iter()
        .find(|(k, _)| k == key)
        .map(|(_, v)| v.as_str())
}

#[test]
fn app_router_match_should_work() {
    let router = SwappableAppRouter::try_new("", &base_routes()).unwrap();
    let app_router = router.load();

    let m = app_router.match_it(HttpMethod::Get, "/api/hello/1").unwrap();
    assert_eq!(m.handler, "hello1");
    assert_eq!(param(&m.params, "id"), Some("1"));

    let m = app_router.match_it(HttpMethod::Post, "/api/hello/1").unwrap();
    assert_eq!(m.handler, "hello2");
    assert_eq!(param(&m.params, "id"), Some("1"));

    let m = app_router.match_it(HttpMethod::Get, "/api/world/3").unwrap();
    assert_eq!(m.handler, "hello3");
    assert_eq!(param(&m.params, "id"), Some("3"));

    let m = app_router.match_it(HttpMethod::Post, "/api/world/3").unwrap();
    assert_eq!(m.handler, "hello4");
    assert_eq!(param(&m.params, "id"), Some("3"));

    let m = app_router.match_it(HttpMethod::Post, "/api/fake/3").unwrap();
    assert_eq!(m.handler, "hello4");
    assert_eq!(param(&m.params, "name"), Some("fake"));
    assert_eq!(param(&m.params, "id"), Some("3"));
}

#[test]
fn app_router_swap_should_work() {
    let mut router = SwappableAppRouter::try_new("", &base_routes()).unwrap();
    let app_router = router.load();
    let m = app_router.match_it(HttpMethod::Get, "/api/world/3").unwrap();
    assert_eq!(m.handler, "hello3");
    assert_eq!(param(&m.params, "id"), Some("3"));

    let m = app_router.match_it(HttpMethod::Post, "/api/world/3").unwrap();
    assert_eq!(m.handler, "hello4");
    assert_eq!(param(&m.params, "id"), Some("3"));

    let m = app_router.match_it(HttpMethod::Post, "/api/fake/3").unwrap();
    assert_eq!(m.handler, "hello4");
    assert_eq!(param(&m.params, "name"), Some("fake"));
    assert_eq!(param(&m.params, "id"), Some("3"));

    router.swap("", &changed_routes()).unwrap();
    let app_router = router.load();
    let m = app_router.match_it(HttpMethod::Get, "/api/world/3").unwrap();
    assert_eq!(m.handler, "handle1");
    assert_eq!(param(&m.params, "id"), Some("3"));

    let m = app_router.match_it(HttpMethod::Post, "/api/world/3").unwrap();
    assert_eq!(m.handler, "handle2");
    assert_eq!(param(&m.params, "id"), Some("3"));

    let m = app_router.match_it(HttpMethod::Post, "/api/fake/3").unwrap();
    assert_eq!(m.handler, "handle2");
    assert_eq!(param(&m.params, "name"), Some("fake"));
    assert_eq!(param(&m.params, "id"), Some("3"));
}

#[test]
fn duplicate_method_on_one_path_is_refused() {
    let routes: ProjectRoutes = vec![(
        "/hello".to_string(),
        vec![
            route(HttpMethod::Get, "first"),
            route(HttpMethod::Get, "second"),
        ],
    )];
    let err = RouterTable::build(&routes).unwrap_err();
    assert!(matches!(err, BuildError::DuplicateMethod { .. }));
}

#[test]
fn ambiguous_patterns_are_refused() {
    let routes: ProjectRoutes = vec![
        ("/api/:a/x".to_string(), vec![route(HttpMethod::Get, "h1")]),
        ("/api/:b/x".to_string(), vec![route(HttpMethod::Get, "h2")]),
    ];
    let err = RouterTable::build(&routes).unwrap_err();
    assert!(matches!(err, BuildError::ConflictingPattern { .. }));
}

#[test]
fn pattern_without_leading_slash_is_refused() {
    let routes: ProjectRoutes = vec![("hello".to_string(), vec![route(HttpMethod::Get, "h")])];
    let err = RouterTable::build(&routes).unwrap_err();
    assert!(matches!(err, BuildError::InvalidPattern { .. }));
}

#[test]
fn method_not_allowed_is_reported() {
    let router = SwappableAppRouter::try_new("", &base_routes()).unwrap();
    let app_router = router.load();
    let err = app_router
        .match_it(HttpMethod::Delete, "/api/hello/42")
        .unwrap_err();
    assert!(matches!(err, AppError::RouteMethodNotAllowed(HttpMethod::Delete)));
    assert_eq!(err.status_code(), 405);
}

#[test]
fn unmatched_path_is_reported() {
    let router = SwappableAppRouter::try_new("", &base_routes()).unwrap();
    let app_router = router.load();
    let err = app_router.match_it(HttpMethod::Get, "/nothing").unwrap_err();
    assert!(matches!(err, AppError::RoutePathNotFound(_)));
    assert_eq!(err.status_code(), 404);
}

#[test]
fn literal_segment_beats_parameter() {
    let routes: ProjectRoutes = vec![
        ("/api/:name/d".to_string(), vec![route(HttpMethod::Get, "by_param")]),
        ("/api/world/:id".to_string(), vec![route(HttpMethod::Get, "by_literal")]),
    ];
    let router = SwappableAppRouter::try_new("", &routes).unwrap();
    let app_router = router.load();
    // The literal `world` wins over `:name` for a path both match.
    let m = app_router.match_it(HttpMethod::Get, "/api/world/9").unwrap();
    assert_eq!(m.handler, "by_literal");
    // With the literal branch failing deeper, the parameter pattern matches.
    let m = app_router.match_it(HttpMethod::Get, "/api/other/d").unwrap();
    assert_eq!(m.handler, "by_param");
}

#[test]
fn host_port_suffix_is_stripped() {
    assert_eq!(strip_port(&"example.com:8080".to_string()), "example.com");
    assert_eq!(strip_port(&"example.com".to_string()), "example.com");
    assert_eq!(strip_port(&"localhost:3000".to_string()), "localhost");
}

#[test]
fn unknown_host_error_names_the_bare_host() {
    let router = SwappableAppRouter::try_new("", &base_routes()).unwrap();
    let state = AppState::new(vec![TennetRouter::new("localhost".to_string(), router)]);
    let err = match dino::server::get_router_by_host(&state, &"other.example:9999".to_string()) {
        Err(e) => e,
        Ok(_) => panic!("lookup of an unregistered host must fail"),
    };
    match &err {
        AppError::HostNotFound(h) => assert_eq!(h, "other.example"),
        other => panic!("unexpected error {:?}", other),
    }
    assert_eq!(err.status_code(), 404);
    assert!(err.message().contains("other.example"));
}

#[test]
fn error_statuses_follow_the_taxonomy() {
    assert_eq!(AppError::HostNotFound("h".to_string()).status_code(), 404);
    assert_eq!(AppError::RoutePathNotFound("/x".to_string()).status_code(), 404);
    assert_eq!(
        AppError::RouteMethodNotAllowed(HttpMethod::Post).status_code(),
        405
    );
    assert_eq!(AppError::WorkerInit("d".to_string()).status_code(), 500);
    assert_eq!(AppError::WorkerShape("d".to_string()).status_code(), 502);
    assert_eq!(AppError::WorkerRejected("d".to_string()).status_code(), 500);
    assert_eq!(AppError::Internal("d".to_string()).status_code(), 500);
}

#[test]
fn method_names_parse_case_insensitively() {
    assert_eq!(dino::method::parse_method("get"), Some(HttpMethod::Get));
    assert_eq!(dino::method::parse_method("GET"), Some(HttpMethod::Get));
    assert_eq!(dino::method::parse_method("Post"), Some(HttpMethod::Post));
    assert_eq!(dino::method::parse_method("options"), Some(HttpMethod::Options));
    assert_eq!(dino::method::parse_method("connect"), Some(HttpMethod::Connect));
    assert_eq!(dino::method::parse_method("brew"), None);
    assert_eq!(dino::method::parse_method(""), None);
}

#[test]
fn header_flattening_keeps_first_position_and_last_value() {
    let raw = vec![
        ("accept".to_string(), "a".to_string()),
        ("host".to_string(), "x".to_string()),
        ("accept".to_string(), "b".to_string()),
    ];
    let flat = dino::server::flatten_headers(raw);
    assert_eq!(
        flat,
        vec![
            ("accept".to_string(), "b".to_string()),
            ("host".to_string(), "x".to_string()),
        ]
    );
}
