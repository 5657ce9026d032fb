use microroute::extract::Extract;
use microroute::handler::{Action, Handler, Part};
use microroute::message::{Method, Request, Response};
use microroute::router::{RegisterError, Router};

fn req(method: Method, path: &str) -> Request {
    Request {
        method,
        path: path.to_string(),
        query: vec![],
        headers: vec![],
        body: vec![],
        params: vec![],
        attachments: vec![],
    }
}

fn hello_method() -> Handler {
    Handler {
        inputs: vec![Extract::Method],
        action: Action::Text(vec![Part::Lit("Hello, ".to_string()), Part::Input(0)]),
        on_extract_error: None,
    }
}

fn no_route_fallback(status: u16) -> Handler {
    Handler {
        inputs: vec![Extract::Path],
        action: Action::Respond {
            status,
            headers: vec![],
            body: vec![Part::Lit("No route for ".to_string()), Part::Input(0)],
        },
        on_extract_error: None,
    }
}

fn body_text(r: &Response) -> String {
    String::from_utf8(r.body.clone()).unwrap()
}

#[test]
fn test_multiple_routers() {
    let mut app = Router::new();
    app.route(Method::Get, "/first", hello_method()).unwrap();
    app.route(Method::Get, "/second", hello_method()).unwrap();

    let response = app.dispatch(req(Method::Get, "/first"));
    assert_eq!(response.status, 200);
    assert_eq!(body_text(&response), "Hello, GET");

    let response = app.dispatch(req(Method::Get, "/second"));
    assert_eq!(response.status, 200);
    assert_eq!(body_text(&response), "Hello, GET");
}

#[test]
fn test_multiple_nest_routers() {
    let mut first = Router::new();
    first.route(Method::Get, "/first", hello_method()).unwrap();
    let mut second = Router::new();
    second.route(Method::Get, "/second", hello_method()).unwrap();

    let mut app = Router::new();
    app.mount(vec!["api".to_string(), "users".to_string()], first).unwrap();
    app.mount(vec!["api".to_string(), "posts".to_string()], second).unwrap();

    let response = app.dispatch(req(Method::Get, "/api/users/first"));
    assert_eq!(response.status, 200);
    assert_eq!(body_text(&response), "Hello, GET");

    let response = app.dispatch(req(Method::Get, "/api/posts/second"));
    assert_eq!(response.status, 200);
    assert_eq!(body_text(&response), "Hello, GET");
}

#[test]
fn test_fallback() {
    let mut first = Router::new();
    first.route(Method::Get, "/first", hello_method()).unwrap();
    let mut second = Router::new();
    second.route(Method::Get, "/second", hello_method()).unwrap();

    let mut app = Router::new();
    app.mount(vec!["api".to_string(), "users".to_string()], first).unwrap();
    app.mount(vec!["api".to_string(), "posts".to_string()], second).unwrap();
    app.set_fallback(no_route_fallback(404));

    let response = app.dispatch(req(Method::Get, "/wrong"));
    assert_eq!(response.status, 404);
    assert_eq!(body_text(&response), "No route for /wrong");
}

#[test]
fn test_not_allowed_fallback() {
    let mut first = Router::new();
    first.route(Method::Get, "/first", hello_method()).unwrap();
    let mut second = Router::new();
    second.route(Method::Get, "/second", hello_method()).unwrap();

    let mut app = Router::new();
    app.mount(vec!["api".to_string(), "users".to_string()], first).unwrap();
    app.mount(vec!["api".to_string(), "posts".to_string()], second).unwrap();
    app.set_method_not_allowed_fallback(no_route_fallback(405));

    let response = app.dispatch(req(Method::Post, "/api/users/first"));
    assert_eq!(response.status, 405);
    assert_eq!(body_text(&response), "No route for /api/users/first");
}

#[test]
fn unmounted_path_does_not_match() {
    let mut first = Router::new();
    first.route(Method::Get, "/first", hello_method()).unwrap();
    let mut app = Router::new();
    app.mount(vec!["api".to_string(), "users".to_string()], first).unwrap();

    let response = app.dispatch(req(Method::Get, "/api/users/first"));
    assert_eq!(response.status, 200);

    let response = app.dispatch(req(Method::Get, "/first"));
    assert_eq!(response.status, 404);
    assert!(response.body.is_empty());
}

#[test]
fn default_not_found_and_not_allowed() {
    let mut app = Router::new();
    app.route(Method::Get, "/only", hello_method()).unwrap();

    let response = app.dispatch(req(Method::Get, "/nowhere"));
    assert_eq!(response.status, 404);

    let response = app.dispatch(req(Method::Post, "/only"));
    assert_eq!(response.status, 405);
}

#[test]
fn duplicate_route_is_refused() {
    let mut app = Router::new();
    app.route(Method::Get, "/items/{id}", hello_method()).unwrap();
    let r = app.route(Method::Get, "/items/{key}", hello_method());
    assert_eq!(r, Err(RegisterError::DuplicateRoute));
    let r = app.route(Method::Post, "/items/{id}", hello_method());
    assert!(r.is_ok());
}

#[test]
fn overlapping_mounts_are_refused() {
    let mut app = Router::new();
    app.mount(vec!["api".to_string()], Router::new()).unwrap();
    let r = app.mount(vec!["api".to_string(), "users".to_string()], Router::new());
    assert_eq!(r, Err(RegisterError::OverlappingMount));
    let r = app.mount(vec![], Router::new());
    assert_eq!(r, Err(RegisterError::EmptyPrefix));
    let r = app.mount(vec!["web".to_string()], Router::new());
    assert!(r.is_ok());
}

#[test]
fn longest_mount_prefix_wins() {
    let mut deep = Router::new();
    deep.route(Method::Get, "/x", hello_method()).unwrap();
    let mut shallow = Router::new();
    shallow.route(Method::Get, "/b/x", hello_method()).unwrap();

    let mut app = Router::new();
    app.mount(vec!["a".to_string(), "b".to_string()], deep).unwrap();
    let r = app.mount(vec!["a".to_string()], shallow);
    // Prefixes must be disjoint, so nesting one under the other is refused.
    assert_eq!(r, Err(RegisterError::OverlappingMount));

    let response = app.dispatch(req(Method::Get, "/a/b/x"));
    assert_eq!(response.status, 200);
}
