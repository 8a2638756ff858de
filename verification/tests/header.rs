use rawhttp::http::header::{HeaderError, Headers};

#[test]
fn test_valid_headers() {
    let lines = "Host: localhost:42069\r\nFoFo:     barbar\r\n\r\n";

    let mut headers = Headers::new();
    let result = headers.parse_headers(lines);

    assert!(result.is_ok());
    assert_eq!(headers.len(), 2);
    assert_eq!(headers.get("Host"), Some("localhost:42069"));
    assert_eq!(headers.get("FoFo"), Some("barbar"));
}

#[test]
fn test_invalid_header_name() {
    let line = "Content Type: text/html";
    let result = Headers::parse_header_line(line);
    assert!(matches!(result, Err(HeaderError::InvalidHeaderName)));
}

#[test]
fn test_invalid_header_value() {
    let line = "Content-Type: text/html\0";
    let result = Headers::parse_header_line(line);
    assert!(matches!(result, Err(HeaderError::InvalidHeaderValue)));
}

#[test]
fn test_missing_colon() {
    let line = "InvalidHeader";
    let result = Headers::parse_header_line(line);
    assert!(matches!(result, Err(HeaderError::MissingColon)));
}

#[test]
fn test_empty_header_name() {
    let line = ": value";
    let result = Headers::parse_header_line(line);
    assert!(matches!(result, Err(HeaderError::EmptyHeaderName)));
}

#[test]
fn test_empty_header_value() {
    let line = "Content-Type:";
    let result = Headers::parse_header_line(line);
    assert!(matches!(result, Err(HeaderError::EmptyHeaderValue)));
}

#[test]
fn test_case_insensitive_headers() {
    let lines = "Content-Type: text/html\r\n\r\n";
    let mut headers = Headers::new();
    headers.parse_headers(lines).unwrap();

    assert_eq!(headers.get("content-type"), Some("text/html"));
    assert_eq!(headers.get("Content-Type"), Some("text/html"));
    assert_eq!(headers.get("CONTENT-TYPE"), Some("text/html"));
}

#[test]
fn test_valid_special_characters_in_value() {
    let line = "User-Agent: Mozilla/5.0 (Windows NT 10.0; Win64; x64)";
    let result = Headers::parse_header_line(line);
    assert!(result.is_ok());
}

#[test]
fn test_insert_duplicate_headers() {
    let mut headers = Headers::new();
    headers.insert("Set-Cookie".to_string(), "session=abc".to_string());
    headers.insert("Set-Cookie".to_string(), "user=john".to_string());

    assert_eq!(headers.get("Set-Cookie"), Some("session=abc,user=john"));
}

#[test]
fn header_line_is_cut_at_the_first_colon_and_trimmed() {
    let (name, value) = Headers::parse_header_line("  Host \t:  localhost:42069  ").unwrap();
    assert_eq!(name, "Host");
    assert_eq!(value, "localhost:42069");
}

#[test]
fn header_names_are_stored_in_lower_case() {
    let mut headers = Headers::new();
    headers.insert("Content-Type".to_string(), "text/html".to_string());
    assert_eq!(
        headers.iter(),
        vec![("content-type".to_string(), "text/html".to_string())]
    );
    assert!(headers.contains("CONTENT-type"));
    assert!(!headers.contains("Content-Length"));
    assert_eq!(headers.get("Content-Length"), None);
}

#[test]
fn folding_keeps_insertion_order_and_one_entry() {
    let mut headers = Headers::new();
    assert!(headers.is_empty());
    headers.insert("Accept".to_string(), "a".to_string());
    headers.insert("Host".to_string(), "h".to_string());
    headers.insert("ACCEPT".to_string(), "b".to_string());
    headers.insert("accept".to_string(), "c".to_string());
    assert_eq!(headers.len(), 2);
    assert!(!headers.is_empty());
    assert_eq!(
        headers.iter(),
        vec![
            ("accept".to_string(), "a,b,c".to_string()),
            ("host".to_string(), "h".to_string())
        ]
    );
    let copy = headers.clone();
    assert_eq!(copy.iter(), headers.iter());
}

#[test]
fn parsing_stops_at_the_first_empty_line() {
    let mut headers = Headers::new();
    let result = headers.parse_headers("A: 1\r\n\r\nB: 2\r\nbroken line");
    assert!(result.is_ok());
    assert_eq!(headers.len(), 1);
    assert_eq!(headers.get("a"), Some("1"));
    assert_eq!(headers.get("b"), None);
}

#[test]
fn parsing_keeps_the_fields_before_a_bad_line() {
    let mut headers = Headers::new();
    let result = headers.parse_headers("A: 1\r\nno colon here\r\nB: 2");
    assert!(matches!(result, Err(HeaderError::MissingColon)));
    assert_eq!(headers.len(), 1);
    assert_eq!(headers.get("A"), Some("1"));
}

#[test]
fn token_and_value_character_classes() {
    assert!(Headers::is_valid_token("X-Custom_Header.1!#$%&'*+^`|~"));
    assert!(!Headers::is_valid_token(""));
    assert!(!Headers::is_valid_token("a b"));
    assert!(!Headers::is_valid_token("a:b"));
    assert!(!Headers::is_valid_token("naïve"));
    assert!(Headers::is_valid_header_value("text/html; charset=utf-8\tx"));
    assert!(Headers::is_valid_header_value("naïve café"));
    assert!(Headers::is_valid_header_value(""));
    assert!(!Headers::is_valid_header_value("a\u{7f}b"));
    assert!(!Headers::is_valid_header_value("a\rb"));
}

#[test]
fn unicode_whitespace_is_trimmed_from_names_and_values() {
    let (name, value) = Headers::parse_header_line("Host:\u{a0}example.com\u{2003}").unwrap();
    assert_eq!(name, "Host");
    assert_eq!(value, "example.com");
}
