use microroute::bodies::{AuthResponse, LoginRequest};
use microroute::extract::Extract;
use microroute::handler::{Action, Handler, Part};
use microroute::message::{Method, Request, Response};
use microroute::router::Router;

fn req(method: Method, path: &str) -> Request {
    Request {
        method,
        path: path.to_string(),
        query: vec![],
        headers: vec![],
        body: vec![],
        params: vec![],
        attachments: vec![],
    }
}

fn body_text(r: &Response) -> String {
    String::from_utf8(r.body.clone()).unwrap()
}

fn login_route(on_extract_error: Option<Action>) -> Handler {
    Handler {
        inputs: vec![
            Extract::JsonField("username".to_string()),
            Extract::JsonField("password".to_string()),
        ],
        action: Action::Text(vec![
            Part::Lit("Username: ".to_string()),
            Part::Input(0),
            Part::Lit(", Password: ".to_string()),
            Part::Input(1),
        ]),
        on_extract_error,
    }
}

#[test]
fn test_body_json() {
    let mut app = Router::new();
    app.route(Method::Post, "/login", login_route(None)).unwrap();

    let request = LoginRequest {
        username: "test_user".to_string(),
        password: "test_password".to_string(),
    };
    let mut r = req(Method::Post, "/login");
    r.body = format!(
        "{{\"username\":\"{}\",\"password\":\"{}\"}}",
        request.username, request.password
    )
    .into_bytes();

    let response = app.dispatch(r);
    assert_eq!(response.status, 200);
    assert_eq!(body_text(&response), "Username: test_user, Password: test_password");
}

#[test]
fn test_invalid_json() {
    let mut app = Router::new();
    app.route(
        Method::Post,
        "/login",
        login_route(Some(Action::Text(vec![Part::Lit("Invalid JSON".to_string())]))),
    )
    .unwrap();

    let request = LoginRequest {
        username: "test_user".to_string(),
        password: "test_password".to_string(),
    };
    let mut r = req(Method::Post, "/login");
    r.body = format!(
        "{{\"username\":\"{}\",\"password\":\"{}\"}}",
        request.username, request.password
    )
    .into_bytes();

    let response = app.dispatch(r);
    assert_eq!(response.status, 200);
    assert_eq!(body_text(&response), "Username: test_user, Password: test_password");
}

#[test]
fn unparsable_json_reaches_the_declared_error_action() {
    let mut app = Router::new();
    app.route(
        Method::Post,
        "/login",
        login_route(Some(Action::Text(vec![Part::Lit("Invalid JSON".to_string())]))),
    )
    .unwrap();

    let mut r = req(Method::Post, "/login");
    r.body = b"{not json".to_vec();
    let response = app.dispatch(r);
    assert_eq!(response.status, 200);
    assert_eq!(body_text(&response), "Invalid JSON");
}

#[test]
fn error_action_receives_the_failure_message() {
    let mut app = Router::new();
    app.route(
        Method::Post,
        "/login",
        login_route(Some(Action::Text(vec![
            Part::Lit("rejected: ".to_string()),
            Part::Input(0),
        ]))),
    )
    .unwrap();

    let mut r = req(Method::Post, "/login");
    r.body = b"{not json".to_vec();
    let response = app.dispatch(r);
    assert_eq!(response.status, 200);
    assert_eq!(body_text(&response), "rejected: malformed JSON body");
}

#[test]
fn unparsable_json_without_error_action_is_a_client_error() {
    let mut app = Router::new();
    app.route(Method::Post, "/login", login_route(None)).unwrap();

    let mut r = req(Method::Post, "/login");
    r.body = b"{not json".to_vec();
    let response = app.dispatch(r);
    assert_eq!(response.status, 400);
    assert_eq!(body_text(&response), "malformed JSON body");
}

#[test]
fn test_response_json() {
    let mut app = Router::new();
    app.route(
        Method::Get,
        "/get",
        Handler {
            inputs: vec![],
            action: Action::Json(vec![("token".to_string(), Part::Lit("TOKEN".to_string()))]),
            on_extract_error: None,
        },
    )
    .unwrap();

    let response = app.dispatch(req(Method::Get, "/get"));
    assert_eq!(response.status, 200);
    assert!(body_text(&response).contains("\"token\":\"TOKEN\""));
    assert!(response
        .headers
        .iter()
        .any(|h| h.0 == "Content-Type" && h.1 == "application/json"));
}

#[test]
fn test_tuple_into_response() {
    let auth = AuthResponse { token: "TOKEN".to_string() };
    let json = auth.to_json();
    let mut app = Router::new();
    app.route(
        Method::Post,
        "/create",
        Handler {
            inputs: vec![],
            action: Action::Respond {
                status: 200,
                headers: vec![("X-Owner".to_string(), vec![Part::Lit("hadi".to_string())])],
                body: vec![Part::Lit(json)],
            },
            on_extract_error: None,
        },
    )
    .unwrap();

    let response = app.dispatch(req(Method::Post, "/create"));
    assert_eq!(response.status, 200);
    assert!(response.headers.iter().any(|h| h.0 == "X-Owner" && h.1 == "hadi"));
    assert!(body_text(&response).contains("\"token\":\"TOKEN\""));
}

#[test]
fn test_try_response() {
    let mut app = Router::new();
    app.route(
        Method::Get,
        "/",
        Handler {
            inputs: vec![Extract::Method],
            action: Action::Respond {
                status: 200,
                headers: vec![("X-Owner".to_string(), vec![Part::Lit("hadi".to_string())])],
                body: vec![Part::Lit("Hello ".to_string()), Part::Input(0)],
            },
            on_extract_error: None,
        },
    )
    .unwrap();

    let response = app.dispatch(req(Method::Get, "/"));
    assert_eq!(response.status, 200);
    assert!(response.headers.iter().any(|h| h.0 == "X-Owner" && h.1 == "hadi"));
    assert_eq!(body_text(&response), "Hello GET");
}

#[test]
fn auth_response_prints_exact_json() {
    let auth = AuthResponse { token: "TOKEN".to_string() };
    assert_eq!(auth.to_json(), "{\"token\":\"TOKEN\"}");
}

#[test]
fn login_request_reads_json_fields() {
    let body = b"{\"username\":\"u1\",\"password\":\"p1\"}".to_vec();
    let lr = LoginRequest::from_json(&body).unwrap();
    assert_eq!(lr.username, "u1");
    assert_eq!(lr.password, "p1");
    assert!(LoginRequest::from_json(&b"{\"username\":\"u1\"}".to_vec()).is_none());
    assert!(LoginRequest::from_json(&b"nonsense".to_vec()).is_none());
}
