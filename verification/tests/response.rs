use rawhttp::http::body::Body;
use rawhttp::http::header::Headers;
use rawhttp::http::response::Response;
use rawhttp::http::status_code::StatusCode;

#[test]
fn test_status_code_display() {
    assert_eq!(StatusCode::OK.to_string(), "200 OK");
    assert_eq!(StatusCode::BadRequest.to_string(), "400 Bad Request");
    assert_eq!(
        StatusCode::InternalServerError.to_string(),
        "500 Internal Server Error"
    );
}

#[test]
fn test_basic_response() {
    let response = Response::ok();
    assert_eq!(response.status_code(), StatusCode::OK);
    assert_eq!(response.body().is_empty(), true)
}

#[test]
fn test_response_with_body() {
    let data = b"Hello, World!";
    let body = Body::from_content_length(data, data.len()).unwrap();
    let response = Response::ok().with_body(body);

    assert_eq!(response.status_code(), StatusCode::OK);
    assert_eq!(response.body().as_str().unwrap(), "Hello, World!");
    assert_eq!(response.headers().get("Content-Length"), Some("13"));
}

#[test]
fn fresh_response_announces_that_the_connection_closes() {
    let response = Response::new(StatusCode::NotFound);
    assert_eq!(response.headers().get("Connection"), Some("close"));
    assert_eq!(response.headers().len(), 1);
    assert!(response.body().is_empty());
    assert_eq!(Response::default().status_code(), StatusCode::OK);
}

#[test]
fn empty_body_adds_no_content_length() {
    let response = Response::ok().with_body(Body::Empty);
    assert_eq!(response.headers().get("Content-Length"), None);
    let response = Response::ok().with_body(Body::Content(Vec::new()));
    assert_eq!(response.headers().get("Content-Length"), None);
    let response = Response::ok().with_body(Body::Content(vec![0]));
    assert_eq!(response.headers().get("Content-Length"), Some("1"));
}

#[test]
fn wire_form_of_a_response_with_a_body() {
    let response = Response::ok()
        .with_header("Content-Type".to_string(), "text/plain".to_string())
        .with_body(Body::from("Hello, World!"));
    assert_eq!(
        response.to_bytes(),
        b"HTTP/1.1 200 OK\r\nconnection: close\r\ncontent-type: text/plain\r\ncontent-length: 13\r\n\r\nHello, World!".to_vec()
    );
}

#[test]
fn wire_form_of_a_response_without_a_body() {
    assert_eq!(
        Response::bad_request().to_bytes(),
        b"HTTP/1.1 400 Bad Request\r\nconnection: close\r\n\r\n".to_vec()
    );
}

#[test]
fn headers_given_together_are_folded_in() {
    let mut more = Headers::new();
    more.insert("Connection".to_string(), "keep".to_string());
    more.insert("X-A".to_string(), "1".to_string());
    let response = Response::created().with_headers(more);
    assert_eq!(response.headers().get("connection"), Some("close,keep"));
    assert_eq!(response.headers().get("x-a"), Some("1"));
}

#[test]
fn each_named_constructor_has_its_status() {
    assert_eq!(Response::created().status_code().as_u16(), 201);
    assert_eq!(Response::no_content().status_code().as_u16(), 204);
    assert_eq!(Response::bad_request().status_code().as_u16(), 400);
    assert_eq!(Response::unauthorized().status_code().as_u16(), 401);
    assert_eq!(Response::forbidden().status_code().as_u16(), 403);
    assert_eq!(Response::not_found().status_code().as_u16(), 404);
    assert_eq!(Response::method_not_allowed().status_code().as_u16(), 405);
    assert_eq!(Response::conflict().status_code().as_u16(), 409);
    assert_eq!(Response::internal_server_error().status_code().as_u16(), 500);
    assert_eq!(Response::service_unavailable().status_code().as_u16(), 503);
}

#[test]
fn status_classes_and_reasons() {
    assert!(StatusCode::NoContent.is_success());
    assert!(StatusCode::PermanentRedirect.is_redirection());
    assert!(StatusCode::UpgradeRequired.is_client_error());
    assert!(StatusCode::HttpVersionNotSupported.is_server_error());
    assert!(!StatusCode::OK.is_client_error());
    assert!(!StatusCode::NotFound.is_success());
    assert_eq!(StatusCode::UriTooLong.reason_parse(), "URI Too Long");
    assert_eq!(StatusCode::ContentTooLarge.as_u16(), 413);
    assert_eq!(StatusCode::GatewayTimeout.to_string(), "504 Gateway Timeout");
}
