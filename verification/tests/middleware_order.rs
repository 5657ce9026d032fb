use microroute::extract::Extract;
use microroute::handler::{Action, Handler, Part};
use microroute::message::{Method, Request, Response};
use microroute::middleware::Middleware;
use microroute::router::Router;

fn req(method: Method, path: &str) -> Request {
    Request {
        method,
        path: path.to_string(),
        query: vec![],
        headers: vec![],
        body: vec![],
        params: vec![],
        attachments: vec![],
    }
}

fn body_text(r: &Response) -> String {
    String::from_utf8(r.body.clone()).unwrap()
}

#[test]
fn test_log_middleware() {
    let mut app = Router::new();
    app.route(
        Method::Get,
        "/get",
        Handler {
            inputs: vec![Extract::Method, Extract::HeaderValue("X-Request-ID".to_string())],
            action: Action::Text(vec![
                Part::Lit("Hello, ".to_string()),
                Part::Input(0),
                Part::Lit(" - ".to_string()),
                Part::Input(1),
                Part::Lit(" ".to_string()),
            ]),
            on_extract_error: None,
        },
    )
    .unwrap();
    app.use_middleware(Middleware::SetRequestHeader(
        "X-Request-ID".to_string(),
        "random-id-12345".to_string(),
    ));

    let response = app.dispatch(req(Method::Get, "/get"));
    assert_eq!(response.status, 200);
    assert_eq!(body_text(&response), "Hello, GET - random-id-12345 ");
}

#[test]
fn request_phases_run_in_registration_order() {
    let mut app = Router::new();
    app.route(
        Method::Get,
        "/get",
        Handler {
            inputs: vec![Extract::HeaderValue("X-Seen".to_string())],
            action: Action::Text(vec![Part::Input(0)]),
            on_extract_error: None,
        },
    )
    .unwrap();
    // Setting a header replaces, so the later-registered middleware's
    // request phase (which runs second) leaves the value the handler reads.
    app.use_middleware(Middleware::SetRequestHeader("X-Seen".to_string(), "a".to_string()));
    app.use_middleware(Middleware::SetRequestHeader("X-Seen".to_string(), "b".to_string()));

    let response = app.dispatch(req(Method::Get, "/get"));
    assert_eq!(body_text(&response), "b");
}

#[test]
fn set_request_header_replaces_a_client_value() {
    let mut app = Router::new();
    app.route(
        Method::Get,
        "/get",
        Handler {
            inputs: vec![Extract::HeaderValue("X-Request-ID".to_string())],
            action: Action::Text(vec![Part::Input(0)]),
            on_extract_error: None,
        },
    )
    .unwrap();
    app.use_middleware(Middleware::SetRequestHeader(
        "X-Request-ID".to_string(),
        "random-id-12345".to_string(),
    ));

    let mut r = req(Method::Get, "/get");
    r.headers.push(("X-Request-ID".to_string(), "spoofed".to_string()));
    let response = app.dispatch(r);
    assert_eq!(body_text(&response), "random-id-12345");
}

#[test]
fn set_request_header_is_idempotent() {
    let mut app = Router::new();
    app.route(
        Method::Get,
        "/get",
        Handler {
            inputs: vec![Extract::HeaderValue("X-Request-ID".to_string())],
            action: Action::Text(vec![Part::Input(0)]),
            on_extract_error: None,
        },
    )
    .unwrap();
    app.use_middleware(Middleware::SetRequestHeader(
        "X-Request-ID".to_string(),
        "random-id-12345".to_string(),
    ));
    app.use_middleware(Middleware::SetRequestHeader(
        "X-Request-ID".to_string(),
        "random-id-12345".to_string(),
    ));

    let response = app.dispatch(req(Method::Get, "/get"));
    assert_eq!(body_text(&response), "random-id-12345");
}

#[test]
fn response_phases_run_in_reverse_order() {
    let mut app = Router::new();
    app.route(
        Method::Get,
        "/get",
        Handler {
            inputs: vec![],
            action: Action::Text(vec![Part::Lit("ok".to_string())]),
            on_extract_error: None,
        },
    )
    .unwrap();
    app.use_middleware(Middleware::AppendResponseHeader("X-Order".to_string(), "a".to_string()));
    app.use_middleware(Middleware::AppendResponseHeader("X-Order".to_string(), "b".to_string()));

    let response = app.dispatch(req(Method::Get, "/get"));
    // The second middleware's response phase runs first (it is innermost),
    // so its header lands first in the list.
    let order: Vec<&str> = response
        .headers
        .iter()
        .filter(|h| h.0 == "X-Order")
        .map(|h| h.1.as_str())
        .collect();
    assert_eq!(order, vec!["b", "a"]);
}

#[test]
fn ancestor_middleware_wraps_mounted_routers() {
    let mut child = Router::new();
    child.route(
        Method::Get,
        "/leaf",
        Handler {
            inputs: vec![Extract::HeaderValue("X-Seen".to_string())],
            action: Action::Text(vec![Part::Input(0)]),
            on_extract_error: None,
        },
    )
    .unwrap();
    child.use_middleware(Middleware::SetRequestHeader("X-Seen".to_string(), "child".to_string()));

    let mut app = Router::new();
    app.use_middleware(Middleware::SetRequestHeader("X-Seen".to_string(), "root".to_string()));
    app.mount(vec!["sub".to_string()], child).unwrap();

    // The ancestor's request phase runs first; the mounted router's runs
    // inside it and replaces the value on the way to the handler.
    let response = app.dispatch(req(Method::Get, "/sub/leaf"));
    assert_eq!(body_text(&response), "child");
}

#[test]
fn gate_short_circuits_without_reaching_the_handler() {
    let mut app = Router::new();
    app.route(
        Method::Get,
        "/secure",
        Handler {
            inputs: vec![],
            action: Action::Text(vec![Part::Lit("inside".to_string())]),
            on_extract_error: None,
        },
    )
    .unwrap();
    app.use_middleware(Middleware::AppendResponseHeader("X-Out".to_string(), "seen".to_string()));
    app.use_middleware(Middleware::RequireHeader {
        name: "Authorization".to_string(),
        status: 401,
        body: "missing credentials".to_string(),
    });

    let response = app.dispatch(req(Method::Get, "/secure"));
    assert_eq!(response.status, 401);
    assert_eq!(body_text(&response), "missing credentials");
    // The outer middleware's response phase still runs on the way out.
    assert!(response.headers.iter().any(|h| h.0 == "X-Out" && h.1 == "seen"));

    let mut ok = req(Method::Get, "/secure");
    ok.headers.push(("Authorization".to_string(), "token".to_string()));
    let response = app.dispatch(ok);
    assert_eq!(response.status, 200);
    assert_eq!(body_text(&response), "inside");
}
