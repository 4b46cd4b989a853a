use dino::engine::{JsWorker, Req, Request};
use dino::errors::AppError;
use dino::method::HttpMethod;
use dino::router::ProjectRoute;
use dino::server::{dispatch, AppState, TennetRouter};
use dino::strutil::from_chars;
use dino::swap::SwappableAppRouter;

const ECHO_CODE: &str = r#"
(function(){
async function hello(req){
return {
status:200,
headers:{
"content-type":"application/json"
},
body: JSON.stringify(req)
};
}
return{hello:hello};
})()"#;

fn empty_req() -> Req {
    Req {
        query: Vec::new(),
        params: Vec::new(),
        headers: Vec::new(),
        method: "GET".to_string(),
        url: "https://example.com".to_string(),
        body: None,
    }
}

#[test]
fn js_worker_should_work() {
    let req = Request {
        headers: Vec::new(),
        method: "GET".to_string(),
        url: "https://example.com".to_string(),
        body: None,
    };
    let worker = JsWorker::try_new(ECHO_CODE).unwrap();
    let ret = worker.run("hello", req.into_req()).unwrap();
    assert_eq!(ret.status, 200);
}

#[test]
fn engine_js_worker_should_work() {
    let req = empty_req();
    let worker = JsWorker::try_new(ECHO_CODE).unwrap();
    let ret = worker.run("hello", req).unwrap();
    assert_eq!(ret.status, 200);
}

#[test]
fn echoed_body_is_the_marshalled_request() {
    let worker = JsWorker::try_new(ECHO_CODE).unwrap();
    let ret = worker.run("hello", empty_req()).unwrap();
    let body = ret.body.unwrap();
    let expected = from_chars(&dino::engine::marshal_req(&empty_req()));
    assert_eq!(body, expected);
    assert!(body.contains("\"method\":\"GET\""));
    assert!(body.contains("\"url\":\"https://example.com\""));
    assert!(body.contains("\"body\":null"));
}

#[test]
fn header_values_round_trip_through_the_engine() {
    let mut req = empty_req();
    req.headers
        .push(("x-quote".to_string(), "say \"hi\" \\ done".to_string()));
    let worker = JsWorker::try_new(
        r#"(function(){function h(req){return{status:201,headers:req.headers,body:null};}return{h:h};})()"#,
    )
    .unwrap();
    let ret = worker.run("h", req).unwrap();
    assert_eq!(ret.status, 201);
    assert_eq!(ret.headers.len(), 1);
    assert_eq!(ret.headers[0].0, "x-quote");
    assert_eq!(ret.headers[0].1, "say \"hi\" \\ done");
}

#[test]
fn absent_body_reaches_the_handler_as_null() {
    let code = r#"(function(){function h(req){return{status:200,headers:{},body:(req.body===null||req.body===undefined)?"absent":"present"};}return{h:h};})()"#;
    let worker = JsWorker::try_new(code).unwrap();
    let ret = worker.run("h", empty_req()).unwrap();
    assert_eq!(ret.body.as_deref(), Some("absent"));

    let mut with_body = empty_req();
    with_body.body = Some("payload".to_string());
    let worker = JsWorker::try_new(code).unwrap();
    let ret = worker.run("h", with_body).unwrap();
    assert_eq!(ret.body.as_deref(), Some("present"));
}

#[test]
fn status_out_of_range_is_a_shape_error() {
    let code = r#"(function(){function h(req){return{status:70000,headers:{},body:null};}return{h:h};})()"#;
    let worker = JsWorker::try_new(code).unwrap();
    let err = worker.run("h", empty_req()).unwrap_err();
    assert!(matches!(err, AppError::WorkerShape(_)));
}

#[test]
fn negative_status_is_a_shape_error() {
    let code = r#"(function(){function h(req){return{status:-1,headers:{},body:null};}return{h:h};})()"#;
    let worker = JsWorker::try_new(code).unwrap();
    let err = worker.run("h", empty_req()).unwrap_err();
    assert!(matches!(err, AppError::WorkerShape(_)));
}

#[test]
fn missing_headers_is_a_shape_error() {
    let code = r#"(function(){function h(req){return{status:200,body:null};}return{h:h};})()"#;
    let worker = JsWorker::try_new(code).unwrap();
    let err = worker.run("h", empty_req()).unwrap_err();
    assert!(matches!(err, AppError::WorkerShape(_)));
}

#[test]
fn rejected_promise_is_a_worker_error() {
    let code = r#"(function(){async function h(req){throw new Error("boom");}return{h:h};})()"#;
    let worker = JsWorker::try_new(code).unwrap();
    let err = worker.run("h", empty_req()).unwrap_err();
    assert!(matches!(err, AppError::WorkerRejected(_)));
}

#[test]
fn broken_bundle_is_an_init_error() {
    match JsWorker::try_new("this is not javascript ][") {
        Err(err) => assert!(matches!(err, AppError::WorkerInit(_))),
        Ok(_) => panic!("a broken bundle must not evaluate"),
    }
}

#[test]
fn unknown_response_members_are_skipped() {
    let code = r#"(function(){function h(req){return{extra:[1,2,{"a":true}],status:204,more:3.5,headers:{},body:null};}return{h:h};})()"#;
    let worker = JsWorker::try_new(code).unwrap();
    let ret = worker.run("h", empty_req()).unwrap();
    assert_eq!(ret.status, 204);
    assert!(ret.body.is_none());
}

fn one_tenant_state(code: &str, routes: Vec<(String, Vec<ProjectRoute>)>) -> AppState {
    let router = SwappableAppRouter::try_new(code, &routes).unwrap();
    AppState::new(vec![TennetRouter::new("localhost".to_string(), router)])
}

fn hello_routes() -> Vec<(String, Vec<ProjectRoute>)> {
    vec![(
        "/hello".to_string(),
        vec![ProjectRoute {
            method: HttpMethod::Get,
            handler: "hello".to_string(),
        }],
    )]
}

#[test]
fn basic_dispatch_returns_the_handler_response() {
    let state = one_tenant_state(ECHO_CODE, hello_routes());
    let res = dispatch(
        &state,
        &"GET".to_string(),
        &"localhost".to_string(),
        "/hello".to_string(),
        &"/hello".to_string(),
        Vec::new(),
        Vec::new(),
        None,
    )
    .unwrap();
    assert_eq!(res.status, 200);
    assert!(res
        .headers
        .iter()
        .any(|(k, v)| k == "content-type" && v == "application/json"));
    let body = res.body.unwrap();
    assert!(body.contains("\"method\":\"GET\""));
    assert!(body.contains("\"url\":\"/hello\""));
}

fn id_routes() -> Vec<(String, Vec<ProjectRoute>)> {
    vec![(
        "/api/hello/:id".to_string(),
        vec![ProjectRoute {
            method: HttpMethod::Get,
            handler: "h".to_string(),
        }],
    )]
}

#[test]
fn path_parameters_reach_the_handler() {
    let code = r#"(function(){function h(req){return{status:200,headers:{},body:req.params.id};}return{h:h};})()"#;
    let state = one_tenant_state(code, id_routes());
    let res = dispatch(
        &state,
        &"GET".to_string(),
        &"localhost".to_string(),
        "/api/hello/42".to_string(),
        &"/api/hello/42".to_string(),
        Vec::new(),
        Vec::new(),
        None,
    )
    .unwrap();
    assert_eq!(res.status, 200);
    assert_eq!(res.body.as_deref(), Some("42"));
}

#[test]
fn wrong_method_dispatches_to_405() {
    let state = one_tenant_state(ECHO_CODE, id_routes());
    let err = dispatch(
        &state,
        &"POST".to_string(),
        &"localhost".to_string(),
        "/api/hello/42".to_string(),
        &"/api/hello/42".to_string(),
        Vec::new(),
        Vec::new(),
        None,
    )
    .unwrap_err();
    assert!(matches!(err, AppError::RouteMethodNotAllowed(HttpMethod::Post)));
    assert_eq!(err.status_code(), 405);
}

#[test]
fn unknown_host_dispatches_to_404_naming_the_host() {
    let state = one_tenant_state(ECHO_CODE, hello_routes());
    let err = dispatch(
        &state,
        &"GET".to_string(),
        &"other.example".to_string(),
        "/hello".to_string(),
        &"/hello".to_string(),
        Vec::new(),
        Vec::new(),
        None,
    )
    .unwrap_err();
    assert_eq!(err.status_code(), 404);
    assert!(err.message().contains("other.example"));
}

#[test]
fn hot_swap_keeps_old_snapshots_and_serves_new_loads() {
    let code_a = r#"(function(){function h(req){return{status:200,headers:{},body:null};}return{h:h};})()"#;
    let code_b = r#"(function(){function h(req){return{status:418,headers:{},body:null};}return{h:h};})()"#;
    let routes = vec![(
        "/hello".to_string(),
        vec![ProjectRoute {
            method: HttpMethod::Get,
            handler: "h".to_string(),
        }],
    )];
    let mut sw = SwappableAppRouter::try_new(code_a, &routes).unwrap();
    let old_snapshot = sw.load();
    sw.swap(code_b, &routes).unwrap();

    // The in-flight snapshot still serves the pre-swap bundle.
    let worker = JsWorker::try_new(old_snapshot.code().as_str()).unwrap();
    let res = worker.run("h", empty_req()).unwrap();
    assert_eq!(res.status, 200);

    // A fresh load observes the new pair.
    let new_snapshot = sw.load();
    let worker = JsWorker::try_new(new_snapshot.code().as_str()).unwrap();
    let res = worker.run("h", empty_req()).unwrap();
    assert_eq!(res.status, 418);
}

#[test]
fn body_bytes_decode_as_utf8_or_drop() {
    let ok = dino::server::assemble_req(
        "POST".to_string(),
        "/x".to_string(),
        Vec::new(),
        Vec::new(),
        Vec::new(),
        Some(b"hello".to_vec()),
    );
    assert_eq!(ok.body.as_deref(), Some("hello"));

    let bad = dino::server::assemble_req(
        "POST".to_string(),
        "/x".to_string(),
        Vec::new(),
        Vec::new(),
        Vec::new(),
        Some(vec![0xff, 0xfe, 0x41]),
    );
    assert!(bad.body.is_none());

    let none = dino::server::assemble_req(
        "POST".to_string(),
        "/x".to_string(),
        Vec::new(),
        Vec::new(),
        Vec::new(),
        None,
    );
    assert!(none.body.is_none());
}
