use microroute::bodies::LoginFormRequest;
use microroute::extract::Extract;
use microroute::handler::{Action, Handler, Part};
use microroute::message::{Method, Request, Response};
use microroute::router::Router;

fn req(method: Method, path: &str) -> Request {
    Request {
        method,
        path: path.to_string(),
        query: vec![],
        headers: vec![],
        body: vec![],
        params: vec![],
        attachments: vec![],
    }
}

fn body_text(r: &Response) -> String {
    String::from_utf8(r.body.clone()).unwrap()
}

fn hello_username(input: Extract) -> Handler {
    Handler {
        inputs: vec![input],
        action: Action::Text(vec![
            Part::Lit("Hello, ".to_string()),
            Part::Input(0),
            Part::Lit("!".to_string()),
        ]),
        on_extract_error: None,
    }
}

#[test]
fn test_login_form() {
    let mut app = Router::new();
    app.route(Method::Post, "/login", hello_username(Extract::FormField("username".to_string())))
        .unwrap();

    let form = LoginFormRequest { username: "hadi".to_string(), password: "password".to_string() };
    let mut r = req(Method::Post, "/login");
    r.body = format!("username={}&password={}", form.username, form.password).into_bytes();

    let response = app.dispatch(r);
    assert_eq!(response.status, 200);
    assert_eq!(body_text(&response), "Hello, hadi!");
}

#[test]
fn test_multipart_form() {
    let mut app = Router::new();
    app.route(
        Method::Post,
        "/upload",
        Handler {
            inputs: vec![
                Extract::MultipartText("username".to_string()),
                Extract::MultipartPart("profile".to_string()),
            ],
            action: Action::Text(vec![
                Part::Lit("Hello, ".to_string()),
                Part::Input(0),
                Part::Lit("!".to_string()),
            ]),
            on_extract_error: None,
        },
    )
    .unwrap();

    let boundary = "XBOUNDARYX";
    let mut body = Vec::new();
    for (name, content) in [("username", "hadi"), ("password", "password"), ("profile", "profile")]
    {
        body.extend_from_slice(format!("--{boundary}\r\n").as_bytes());
        body.extend_from_slice(
            format!("Content-Disposition: form-data; name=\"{name}\"\r\n\r\n").as_bytes(),
        );
        body.extend_from_slice(content.as_bytes());
        body.extend_from_slice(b"\r\n");
    }
    body.extend_from_slice(format!("--{boundary}--").as_bytes());

    let mut r = req(Method::Post, "/upload");
    r.headers.push((
        "Content-Type".to_string(),
        format!("multipart/form-data; boundary={boundary}"),
    ));
    r.body = body;

    let response = app.dispatch(r);
    assert_eq!(response.status, 200);
    assert_eq!(body_text(&response), "Hello, hadi!");
}

#[test]
fn missing_multipart_part_is_a_client_error() {
    let mut app = Router::new();
    app.route(
        Method::Post,
        "/upload",
        Handler {
            inputs: vec![Extract::MultipartPart("profile".to_string())],
            action: Action::Text(vec![Part::Lit("ok".to_string())]),
            on_extract_error: None,
        },
    )
    .unwrap();

    let boundary = "XBOUNDARYX";
    let body = format!(
        "--{boundary}\r\nContent-Disposition: form-data; name=\"other\"\r\n\r\nvalue\r\n--{boundary}--"
    )
    .into_bytes();

    let mut r = req(Method::Post, "/upload");
    r.headers.push((
        "Content-Type".to_string(),
        format!("multipart/form-data; boundary={boundary}"),
    ));
    r.body = body;

    let response = app.dispatch(r);
    assert_eq!(response.status, 400);
    assert_eq!(body_text(&response), "missing multipart part: profile");
}

#[test]
fn form_values_are_percent_decoded() {
    let mut app = Router::new();
    app.route(Method::Post, "/login", hello_username(Extract::FormField("username".to_string())))
        .unwrap();

    let mut r = req(Method::Post, "/login");
    r.body = b"username=A%20B+C&password=x".to_vec();
    let response = app.dispatch(r);
    assert_eq!(body_text(&response), "Hello, A B C!");
}

#[test]
fn malformed_form_is_a_client_error() {
    let mut app = Router::new();
    app.route(Method::Post, "/login", hello_username(Extract::FormField("username".to_string())))
        .unwrap();

    let mut r = req(Method::Post, "/login");
    r.body = b"username=%GG".to_vec();
    let response = app.dispatch(r);
    assert_eq!(response.status, 400);
    assert_eq!(body_text(&response), "malformed form body");
}

#[test]
fn login_form_request_reads_fields() {
    let body = b"username=u1&password=p1".to_vec();
    let f = LoginFormRequest::from_form(&body).unwrap();
    assert_eq!(f.username, "u1");
    assert_eq!(f.password, "p1");
    assert!(LoginFormRequest::from_form(&b"username=u1".to_vec()).is_none());
}

#[test]
fn test_cookie_extraction() {
    let mut app = Router::new();
    app.route(
        Method::Get,
        "/set_cookie",
        Handler {
            inputs: vec![Extract::QueryParam("name".to_string())],
            action: Action::Respond {
                status: 200,
                headers: vec![(
                    "Set-Cookie".to_string(),
                    vec![Part::Lit("name=".to_string()), Part::Input(0)],
                )],
                body: vec![
                    Part::Lit("Hello, ".to_string()),
                    Part::Input(0),
                    Part::Lit("!".to_string()),
                ],
            },
            on_extract_error: None,
        },
    )
    .unwrap();

    let mut r = req(Method::Get, "/set_cookie");
    r.query.push(("name".to_string(), "AxumUser".to_string()));
    let response = app.dispatch(r);
    assert_eq!(response.status, 200);
    assert_eq!(body_text(&response), "Hello, AxumUser!");
    let set_cookie = response.header(&"Set-Cookie".to_string());
    assert_eq!(set_cookie, Some("name=AxumUser".to_string()));
}

#[test]
fn test_cookie_request() {
    let mut app = Router::new();
    app.route(Method::Get, "/get_cookie", hello_username(Extract::CookieValue("name".to_string())))
        .unwrap();

    let mut r = req(Method::Get, "/get_cookie");
    r.headers.push(("Cookie".to_string(), "other=1; name=AxumUser".to_string()));
    let response = app.dispatch(r);
    assert_eq!(response.status, 200);
    assert_eq!(body_text(&response), "Hello, AxumUser!");
}
