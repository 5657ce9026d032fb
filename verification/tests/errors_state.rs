use microroute::extract::Extract;
use microroute::handler::{Action, ErrorFormat, Handler, Part};
use microroute::message::{Method, Request, Response};
use microroute::middleware::Middleware;
use microroute::router::Router;

fn req(method: Method, path: &str) -> Request {
    Request {
        method,
        path: path.to_string(),
        query: vec![],
        headers: vec![],
        body: vec![],
        params: vec![],
        attachments: vec![],
    }
}

fn body_text(r: &Response) -> String {
    String::from_utf8(r.body.clone()).unwrap()
}

fn domain_route() -> Handler {
    Handler {
        inputs: vec![],
        action: Action::IfMethod {
            method: Method::Post,
            then: Box::new(Action::Text(vec![Part::Lit("Hello, World!".to_string())])),
            otherwise: Box::new(Action::Fail {
                status: 405,
                message: vec![Part::Lit("Method Not Allowed".to_string())],
            }),
        },
        on_extract_error: None,
    }
}

#[test]
fn test_domain_exception() {
    let mut app = Router::new();
    app.route(Method::Get, "/get", domain_route()).unwrap();
    app.route(Method::Post, "/post", domain_route()).unwrap();

    let response = app.dispatch(req(Method::Get, "/get"));
    assert_eq!(response.status, 405);
    assert_eq!(body_text(&response), "Method Not Allowed");

    let response = app.dispatch(req(Method::Post, "/post"));
    assert_eq!(response.status, 200);
    assert_eq!(body_text(&response), "Hello, World!");
}

#[test]
fn test_unexpected_error() {
    let mut app = Router::new();
    app.route(
        Method::Get,
        "/get",
        Handler {
            inputs: vec![],
            action: Action::IfMethod {
                method: Method::Post,
                then: Box::new(Action::Respond { status: 200, headers: vec![], body: vec![] }),
                otherwise: Box::new(Action::FailOpaque {
                    description: vec![Part::Lit("Unexpected error occurred".to_string())],
                }),
            },
            on_extract_error: None,
        },
    )
    .unwrap();
    app.set_error_format(ErrorFormat {
        status: 500,
        prefix: "Internal Server Error: ".to_string(),
    });

    let response = app.dispatch(req(Method::Get, "/get"));
    assert_eq!(response.status, 500);
    assert_eq!(body_text(&response), "Internal Server Error: Unexpected error occurred");
}

#[test]
fn opaque_failure_without_a_policy_is_a_plain_500() {
    let mut app = Router::new();
    app.route(
        Method::Get,
        "/get",
        Handler {
            inputs: vec![],
            action: Action::FailOpaque {
                description: vec![Part::Lit("it broke".to_string())],
            },
            on_extract_error: None,
        },
    )
    .unwrap();

    let response = app.dispatch(req(Method::Get, "/get"));
    assert_eq!(response.status, 500);
    assert_eq!(body_text(&response), "it broke");
}

fn connections_route() -> Handler {
    Handler {
        inputs: vec![Extract::Attachment("db_total".to_string())],
        action: Action::Text(vec![
            Part::Lit("Total database connections: ".to_string()),
            Part::Input(0),
        ]),
        on_extract_error: None,
    }
}

#[test]
fn test_database_config() {
    let mut app = Router::new();
    app.route(Method::Get, "/", connections_route()).unwrap();
    app.set_state("db_total".to_string(), "100".to_string());

    let response = app.dispatch(req(Method::Get, "/"));
    assert_eq!(response.status, 200);
    assert_eq!(body_text(&response), "Total database connections: 100");
}

#[test]
fn test_state_extension() {
    let mut app = Router::new();
    app.route(Method::Get, "/", connections_route()).unwrap();
    app.use_middleware(Middleware::AddAttachment("db_total".to_string(), "100".to_string()));

    let response = app.dispatch(req(Method::Get, "/"));
    assert_eq!(response.status, 200);
    assert_eq!(body_text(&response), "Total database connections: 100");
}

#[test]
fn test_closure_capture() {
    let total = 100;
    let mut app = Router::new();
    app.route(
        Method::Get,
        "/",
        Handler {
            inputs: vec![],
            action: Action::Text(vec![Part::Lit(format!(
                "Total database connections: {total}"
            ))]),
            on_extract_error: None,
        },
    )
    .unwrap();

    let response = app.dispatch(req(Method::Get, "/"));
    assert_eq!(response.status, 200);
    assert_eq!(body_text(&response), "Total database connections: 100");
}

#[test]
fn missing_state_is_a_client_error() {
    let mut app = Router::new();
    app.route(Method::Get, "/", connections_route()).unwrap();

    let response = app.dispatch(req(Method::Get, "/"));
    assert_eq!(response.status, 400);
    assert_eq!(body_text(&response), "missing attachment: db_total");
}
