use http_server::files::{file_name, get_file, lies_within, post_file};
use http_server::headers::Headers;
use http_server::request::{Method, Request};
use http_server::route::{echo_header, echo_msg, route, Route};
use http_server::status::StatusCode;

fn request(method: Method, path: &str) -> Request {
    Request { method, path: path.to_string(), version: "HTTP/1.1".to_string(), headers: None, body: None }
}

fn parts(path: &str) -> Vec<String> {
    path.split('/').map(|part| part.to_string()).collect()
}

#[test]
fn routes_in_order() {
    assert_eq!(route(&request(Method::GET, "/"), true), Route::Root);
    assert_eq!(route(&request(Method::GET, "/echo/abc"), true), Route::Echo);
    assert_eq!(route(&request(Method::GET, "/echo/"), false), Route::Echo);
    assert_eq!(route(&request(Method::GET, "/user-agent"), false), Route::UserAgent);
    assert_eq!(route(&request(Method::GET, "/user-agent/more"), false), Route::UserAgent);
    assert_eq!(route(&request(Method::GET, "/files/a.txt"), true), Route::GetFile);
    assert_eq!(route(&request(Method::POST, "/files/a.txt"), true), Route::PostFile);
}

#[test]
fn file_routes_need_a_directory() {
    assert_eq!(route(&request(Method::GET, "/files/a.txt"), false), Route::NotFound);
    assert_eq!(route(&request(Method::POST, "/files/a.txt"), false), Route::NotFound);
}

#[test]
fn unknown_paths_and_methods_are_not_found() {
    assert_eq!(route(&request(Method::GET, ""), true), Route::NotFound);
    assert_eq!(route(&request(Method::GET, "/echo"), true), Route::NotFound);
    assert_eq!(route(&request(Method::GET, "/files"), true), Route::NotFound);
    assert_eq!(route(&request(Method::GET, "/index.html"), true), Route::NotFound);
    assert_eq!(route(&request(Method::GET, "//"), true), Route::NotFound);
    assert_eq!(route(&request(Method::POST, "/"), true), Route::NotFound);
    assert_eq!(route(&request(Method::POST, "/echo/abc"), true), Route::NotFound);
    assert_eq!(route(&request(Method::POST, "/user-agent"), true), Route::NotFound);
}

#[test]
fn echo_answers_with_the_rest_of_the_path() {
    let response = echo_msg(&request(Method::GET, "/echo/abc123"));
    assert_eq!(response.status_code, StatusCode::ok());
    assert_eq!(
        response.headers,
        Some(vec![("Content-Type".to_string(), "text/plain".to_string())])
    );
    assert_eq!(response.body, Some("abc123".to_string()));
    assert_eq!(
        response.as_string(),
        "HTTP/1.1 200 OK\r\nContent-Type: text/plain\r\nContent-Length: 6\r\n\r\nabc123"
    );
}

#[test]
fn echo_does_not_decode() {
    let response = echo_msg(&request(Method::GET, "/echo/a%20b/c d\u{e9}"));
    assert_eq!(response.body, Some("a%20b/c d\u{e9}".to_string()));
    assert_eq!(echo_msg(&request(Method::GET, "/echo/")).body, Some(String::new()));
    assert_eq!(echo_msg(&request(Method::GET, "/echo")).body, Some(String::new()));
}

#[test]
fn user_agent_is_echoed() {
    let mut headers = Headers::new();
    headers.insert("user-agent".to_string(), "test-agent".to_string());
    let mut request = request(Method::GET, "/user-agent");
    request.headers = Some(headers);
    let response = echo_header(&request, "user-agent");
    assert_eq!(response.status_code, StatusCode::ok());
    assert_eq!(
        response.headers,
        Some(vec![("Content-Type".to_string(), "text/plain".to_string())])
    );
    assert_eq!(response.body, Some("test-agent".to_string()));
}

#[test]
fn echoed_header_is_trimmed() {
    let mut headers = Headers::new();
    headers.insert("user-agent".to_string(), " \t curl/8.0 \r\n".to_string());
    let mut request = request(Method::GET, "/user-agent");
    request.headers = Some(headers);
    assert_eq!(echo_header(&request, "  user-agent ").body, Some("curl/8.0".to_string()));
}

#[test]
fn missing_header_is_echoed_as_nothing() {
    let mut headers = Headers::new();
    headers.insert("host".to_string(), "h".to_string());
    let mut with_others = request(Method::GET, "/user-agent");
    with_others.headers = Some(headers);
    assert_eq!(echo_header(&with_others, "user-agent").body, Some(String::new()));
    let without = request(Method::GET, "/user-agent");
    let response = echo_header(&without, "user-agent");
    assert_eq!(response.body, Some(String::new()));
    assert_eq!(
        response.as_string(),
        "HTTP/1.1 200 OK\r\nContent-Type: text/plain\r\nContent-Length: 0\r\n\r\n"
    );
}

#[test]
fn file_name_is_the_rest_of_the_path() {
    assert_eq!(file_name(&request(Method::GET, "/files/foo.txt")), "foo.txt");
    assert_eq!(file_name(&request(Method::POST, "/files/a/b.txt")), "a/b.txt");
    assert_eq!(file_name(&request(Method::GET, "/files/../../etc/passwd")), "../../etc/passwd");
    assert_eq!(file_name(&request(Method::GET, "/files/")), "");
    assert_eq!(file_name(&request(Method::GET, "/")), "");
}

#[test]
fn containment_goes_by_components() {
    let root = parts("/srv/www");
    assert!(lies_within(&root, &parts("/srv/www")));
    assert!(lies_within(&root, &parts("/srv/www/foo.txt")));
    assert!(lies_within(&root, &parts("/srv/www/a/b/c")));
    assert!(!lies_within(&root, &parts("/srv")));
    assert!(!lies_within(&root, &parts("/etc/passwd")));
    assert!(!lies_within(&root, &parts("/srv/www-evil/foo.txt")));
    assert!(!lies_within(&root, &parts("/srv/wwwfoo")));
    assert!(!lies_within(&root, &parts("/SRV/www/foo.txt")));
    assert!(lies_within(&Vec::new(), &parts("/anything")));
}

#[test]
fn read_file_is_served_as_octets() {
    let response = get_file(Some("hello".to_string()));
    assert_eq!(response.status_code, StatusCode::ok());
    assert_eq!(
        response.headers,
        Some(vec![("Content-Type".to_string(), "application/octet-stream".to_string())])
    );
    assert_eq!(response.body, Some("hello".to_string()));
}

#[test]
fn unread_file_is_not_found() {
    let response = get_file(None);
    assert_eq!(response.status_code, StatusCode::not_found());
    assert_eq!(response.headers, None);
    assert_eq!(response.body, None);
}

#[test]
fn stored_file_is_created() {
    let response = post_file(true);
    assert_eq!(response.as_string(), "HTTP/1.1 201 Created\r\n\r\n");
}

#[test]
fn unstored_file_is_a_server_error() {
    let response = post_file(false);
    assert_eq!(response.as_string(), "HTTP/1.1 500 Internal Server Error\r\n\r\n");
}

#[test]
fn dispatch_answers_what_needs_no_file() {
    let response = http_server::route::dispatch(&request(Method::GET, "/"), true).unwrap();
    assert_eq!(response.as_string(), "HTTP/1.1 200 OK\r\n\r\n");
    let response = http_server::route::dispatch(&request(Method::GET, "/echo/hi"), true).unwrap();
    assert_eq!(response.body, Some("hi".to_string()));
    let response = http_server::route::dispatch(&request(Method::GET, "/user-agent"), true).unwrap();
    assert_eq!(response.body, Some(String::new()));
    let response = http_server::route::dispatch(&request(Method::GET, "/none"), true).unwrap();
    assert_eq!(response.status_code, StatusCode::not_found());
    assert_eq!(response.headers, None);
    assert_eq!(response.body, None);
    let response = http_server::route::dispatch(&request(Method::GET, "/files/x"), false).unwrap();
    assert_eq!(response.as_string(), "HTTP/1.1 404 Not Found\r\n\r\n");
}

#[test]
fn dispatch_leaves_the_file_routes() {
    assert!(http_server::route::dispatch(&request(Method::GET, "/files/x"), true).is_none());
    assert!(http_server::route::dispatch(&request(Method::POST, "/files/x"), true).is_none());
}
