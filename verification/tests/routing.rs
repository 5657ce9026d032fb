use microroute::dispatch::Resolved;
use microroute::extract::Extract;
use microroute::handler::{Action, Handler, Part};
use microroute::message::{Method, Request, Response};
use microroute::router::Router;

fn req(method: Method, path: &str) -> Request {
    Request {
        method,
        path: path.to_string(),
        query: vec![],
        headers: vec![],
        body: vec![],
        params: vec![],
        attachments: vec![],
    }
}

fn text(parts: Vec<Part>) -> Handler {
    Handler { inputs: vec![], action: Action::Text(parts), on_extract_error: None }
}

fn text_with(inputs: Vec<Extract>, parts: Vec<Part>) -> Handler {
    Handler { inputs, action: Action::Text(parts), on_extract_error: None }
}

fn body_text(r: &Response) -> String {
    String::from_utf8(r.body.clone()).unwrap()
}

fn hello_method() -> Handler {
    text_with(vec![Extract::Method], vec![Part::Lit("Hello, ".to_string()), Part::Input(0)])
}

#[test]
fn test_axum() {
    let mut app = Router::new();
    app.route(Method::Get, "/", text(vec![Part::Lit("Hello, World!".to_string())])).unwrap();
    let response = app.dispatch(req(Method::Get, "/"));
    assert_eq!(response.status, 200);
    assert_eq!(body_text(&response), "Hello, World!");
}

#[test]
fn test_method_routing() {
    let mut app = Router::new();
    app.route(Method::Get, "/get", text(vec![Part::Lit("Hello, World!".to_string())])).unwrap();
    app.route(Method::Post, "/post", text(vec![Part::Lit("Hello, World!".to_string())])).unwrap();

    let response = app.dispatch(req(Method::Get, "/get"));
    assert_eq!(response.status, 200);
    assert_eq!(body_text(&response), "Hello, World!");

    let response = app.dispatch(req(Method::Post, "/post"));
    assert_eq!(response.status, 200);
    assert_eq!(body_text(&response), "Hello, World!");
}

#[test]
fn test_request() {
    let mut app = Router::new();
    app.route(Method::Get, "/get", text(vec![Part::Lit("Hello, World!".to_string())])).unwrap();
    app.route(Method::Post, "/post", text(vec![Part::Lit("Hello, World!".to_string())])).unwrap();

    let response = app.dispatch(req(Method::Get, "/get"));
    assert_eq!(response.status, 200);
    assert_eq!(body_text(&response), "Hello, World!");

    let response = app.dispatch(req(Method::Post, "/post"));
    assert_eq!(response.status, 200);
    assert_eq!(body_text(&response), "Hello, World!");
}

#[test]
fn test_request_hello_world() {
    let mut app = Router::new();
    app.route(Method::Get, "/get", hello_method()).unwrap();
    app.route(Method::Post, "/post", hello_method()).unwrap();

    let response = app.dispatch(req(Method::Get, "/get"));
    assert_eq!(response.status, 200);
    assert_eq!(body_text(&response), "Hello, GET");

    let response = app.dispatch(req(Method::Post, "/post"));
    assert_eq!(response.status, 200);
    assert_eq!(body_text(&response), "Hello, POST");
}

#[test]
fn test_request_extractor() {
    let mut app = Router::new();
    app.route(
        Method::Get,
        "/uri",
        text_with(
            vec![Extract::Method, Extract::Path],
            vec![
                Part::Lit("Hello, ".to_string()),
                Part::Input(0),
                Part::Lit(" ".to_string()),
                Part::Input(1),
            ],
        ),
    )
    .unwrap();

    let response = app.dispatch(req(Method::Get, "/uri"));
    assert_eq!(response.status, 200);
    assert_eq!(body_text(&response), "Hello, GET /uri");
}

#[test]
fn test_request_extractor_query() {
    let mut app = Router::new();
    app.route(
        Method::Get,
        "/uri",
        text_with(
            vec![Extract::QueryParam("name".to_string())],
            vec![Part::Lit("Hello, ".to_string()), Part::Input(0)],
        ),
    )
    .unwrap();

    let mut r = microroute::message::Request::new(Method::Get, "/uri".to_string());
    r.with_query("name".to_string(), "World".to_string());
    let response = app.dispatch(r);
    assert_eq!(response.status, 200);
    assert_eq!(body_text(&response), "Hello, World");
}

#[test]
fn test_request_extractor_header() {
    let mut app = Router::new();
    app.route(
        Method::Get,
        "/uri",
        text_with(
            vec![Extract::HeaderValue("name".to_string())],
            vec![Part::Lit("Hello, ".to_string()), Part::Input(0)],
        ),
    )
    .unwrap();

    let mut r = microroute::message::Request::new(Method::Get, "/uri".to_string());
    r.with_header("name".to_string(), "World".to_string());
    let response = app.dispatch(r);
    assert_eq!(response.status, 200);
    assert_eq!(body_text(&response), "Hello, World");
}

#[test]
fn test_path_parameter() {
    let mut app = Router::new();
    app.route(
        Method::Get,
        "/products/{id}/category/{id_category}",
        text_with(
            vec![
                Extract::PathParam("id".to_string()),
                Extract::PathParam("id_category".to_string()),
            ],
            vec![
                Part::Lit("Product id ".to_string()),
                Part::Input(0),
                Part::Lit(", Category ".to_string()),
                Part::Input(1),
            ],
        ),
    )
    .unwrap();

    let response = app.dispatch(req(Method::Get, "/products/123/category/12"));
    assert_eq!(response.status, 200);
    assert_eq!(body_text(&response), "Product id 123, Category 12");
}

#[test]
fn missing_query_parameter_is_a_client_error() {
    let mut app = Router::new();
    app.route(
        Method::Get,
        "/uri",
        text_with(
            vec![Extract::QueryParam("name".to_string())],
            vec![Part::Lit("Hello, ".to_string()), Part::Input(0)],
        ),
    )
    .unwrap();

    let response = app.dispatch(req(Method::Get, "/uri"));
    assert_eq!(response.status, 400);
    assert_eq!(body_text(&response), "missing query parameter: name");
}

#[test]
fn resolve_reports_outcomes() {
    let mut app = Router::new();
    app.route(Method::Get, "/only", text(vec![Part::Lit("x".to_string())])).unwrap();
    let segs = microroute::pattern::split_path("/only");
    let mut chain = Vec::new();
    match microroute::dispatch::resolve(&app, Method::Get, &segs, 0, &mut chain) {
        Resolved::Found { .. } => {},
        _ => panic!("expected a match"),
    }
    let mut chain = Vec::new();
    match microroute::dispatch::resolve(&app, Method::Post, &segs, 0, &mut chain) {
        Resolved::WrongMethod => {},
        _ => panic!("expected a wrong-method outcome"),
    }
    let other = microroute::pattern::split_path("/missing");
    let mut chain = Vec::new();
    match microroute::dispatch::resolve(&app, Method::Get, &other, 0, &mut chain) {
        Resolved::NoMatch => {},
        _ => panic!("expected no match"),
    }
}
