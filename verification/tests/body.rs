use rawhttp::http::body::{Body, BodyError};

#[test]
fn test_empty_body() {
    let body = Body::from_content_length(&[], 0).unwrap();
    assert_eq!(body, Body::Empty);
    assert!(body.is_empty());
    assert_eq!(body.len(), 0);
}

#[test]
fn test_body_with_content() {
    let data = b"Hello, World!";
    let body = Body::from_content_length(data, data.len()).unwrap();

    assert_eq!(body.as_bytes(), b"Hello, World!");
    assert_eq!(body.as_str().unwrap(), "Hello, World!");
    assert_eq!(body.len(), 13);
    assert!(!body.is_empty());
}

#[test]
fn test_unexpected_eof() {
    let data = b"Hello";
    let result = Body::from_content_length(data, 10);

    assert!(matches!(
        result,
        Err(BodyError::UnexpectedEof {
            expected: 10,
            actual: 5
        })
    ));
}

#[test]
fn test_body_as_str_invalid_utf8() {
    let data = vec![0xFF, 0xFE, 0xFD];
    let body = Body::Content(data);

    assert!(body.as_str().is_err());
}

#[test]
fn content_length_takes_a_prefix_of_longer_input() {
    let body = Body::from_content_length(b"Hello, World!", 5).unwrap();
    assert_eq!(body, Body::Content(b"Hello".to_vec()));
    assert_eq!(body.len(), 5);
}

#[test]
fn content_of_no_bytes_answers_as_the_empty_body() {
    let body = Body::Content(Vec::new());
    assert_ne!(body, Body::Empty);
    assert!(body.is_empty());
    assert_eq!(body.len(), 0);
    assert_eq!(body.as_bytes(), b"");
    assert_eq!(Body::new(), Body::Empty);
    assert_eq!(Body::default(), Body::Empty);
    assert_eq!(Body::Empty.as_str().unwrap(), "");
}

#[test]
fn body_from_text_holds_the_utf8_bytes() {
    let body = Body::from("café");
    assert_eq!(body.as_bytes(), &[b'c', b'a', b'f', 0xC3, 0xA9]);
    assert_eq!(body.as_str().unwrap(), "café");
    assert_eq!(Body::from("café".to_string()), body);
}
