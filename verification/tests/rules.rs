use rawhttp::http::header::{HeaderError, Headers};
use rawhttp::http::method::Method;
use rawhttp::http::query::Query;
use rawhttp::http::request_line::{RequestLine, RequestLineError};

// The same rules, written with the string functions of the standard
// library, to hold the library against on many inputs.

fn token_char(c: char) -> bool {
    c.is_ascii_alphanumeric() || "!#$%&'*+-.^_`|~".contains(c)
}

fn header_line(line: &str) -> Result<(String, String), HeaderError> {
    let (name, value) = line.split_once(':').ok_or(HeaderError::MissingColon)?;
    let name = name.trim();
    let value = value.trim();
    if name.is_empty() {
        return Err(HeaderError::EmptyHeaderName);
    }
    if value.is_empty() {
        return Err(HeaderError::EmptyHeaderValue);
    }
    if !name.chars().all(token_char) {
        return Err(HeaderError::InvalidHeaderName);
    }
    if !value.chars().all(|c| c == ' ' || c == '\t' || c.is_ascii_graphic() || !c.is_ascii()) {
        return Err(HeaderError::InvalidHeaderValue);
    }
    Ok((name.to_string(), value.to_string()))
}

fn request_line(line: &str) -> Result<(Method, String, String), String> {
    let parts: Vec<&str> = line.split_whitespace().collect();
    if parts.len() != 3 {
        return Err("line".to_string());
    }
    let method = match parts[0] {
        "GET" => Method::GET,
        "POST" => Method::POST,
        "PUT" => Method::PUT,
        "DELETE" => Method::DELETE,
        other => return Err(format!("method {}", other)),
    };
    let version: Vec<&str> = parts[2].split('/').collect();
    if version.len() != 2 || version[0] != "HTTP" || version[1] != "1.1" {
        return Err(format!("protocol {}", parts[2]));
    }
    Ok((method, parts[1].to_string(), parts[2].to_string()))
}

fn describe(result: Result<RequestLine, RequestLineError>) -> Result<(Method, String, String), String> {
    match result {
        Ok(l) => Ok((l.method, l.target, l.httpversion)),
        Err(RequestLineError::InvalidRequestLine) => Err("line".to_string()),
        Err(RequestLineError::InvalidMethod(m)) => Err(format!("method {}", m)),
        Err(RequestLineError::InvalidProtocol(p)) => Err(format!("protocol {}", p)),
    }
}

#[test]
fn header_lines_follow_the_rules() {
    let lines = [
        "Host: example.com",
        "Host:example.com",
        "  Host  :  a b c  ",
        "Host",
        "",
        ":",
        ": v",
        "n:",
        "n:   ",
        " : ",
        "a:b:c",
        "a::",
        "Content Type: x",
        "Content\tType: x",
        "naïve: x",
        "X-É: 1",
        "x: caf\u{e9}",
        "x: a\u{0}b",
        "x: a\u{7f}",
        "x: \u{1b}[0m",
        "x:\u{a0}y\u{a0}",
        "\u{2003}x\u{2003}:\u{3000}y",
        "x\u{a0}y: 1",
        "x: a\rb",
        "x: a\nb",
        "!#$%&'*+-.^_`|~09AZaz: ok",
        "(bad): ok",
        "a@b: ok",
        "x: \t tabbed \t",
    ];
    for line in lines {
        let got = Headers::parse_header_line(line);
        let want = header_line(line);
        assert_eq!(got, want, "{:?}", line);
        if let Ok((name, _)) = &want {
            assert!(Headers::is_valid_token(name));
        }
    }
}

#[test]
fn request_lines_follow_the_rules() {
    let lines = [
        "GET / HTTP/1.1",
        "GET  /  HTTP/1.1",
        "\tPOST\t/a\tHTTP/1.1\t",
        "PUT /a?b=c HTTP/1.1",
        "DELETE /x HTTP/1.1",
        "GET\u{a0}/\u{2003}HTTP/1.1",
        "GET /\u{e9} HTTP/1.1",
        "",
        " ",
        "GET",
        "GET /",
        "GET / HTTP/1.1 x",
        "get / HTTP/1.1",
        "GETS / HTTP/1.1",
        "PATCH / HTTP/1.1",
        "GET / HTTP/1.0",
        "GET / HTTP/2",
        "GET / HTTP/1.1/",
        "GET / /HTTP/1.1",
        "GET / HTTP//1.1",
        "GET / http/1.1",
        "GET / HTTP/1.1\u{200b}",
        "OPTIONS * HTTP/9",
    ];
    for line in lines {
        assert_eq!(describe(RequestLine::parse(line)), request_line(line), "{:?}", line);
    }
}

#[test]
fn header_blocks_follow_the_rules() {
    let blocks = [
        "",
        "\r\n",
        "A: 1",
        "A: 1\r\n",
        "A: 1\r\nB: 2\r\n\r\n",
        "A: 1\r\na: 2\r\nA: 3",
        "A: 1\nB: 2",
        "A: 1\r\n\r\nbroken",
        "A: 1\r\nbroken\r\nB: 2",
        "A: 1\rB: 2\r\n",
        "A: x\r\r\nB: 2",
    ];
    for block in blocks {
        let mut got = Headers::new();
        let got_result = got.parse_headers(block);
        let mut want: Vec<(String, String)> = Vec::new();
        let mut want_result = Ok(());
        for line in block.split("\r\n") {
            if line.is_empty() {
                break;
            }
            match header_line(line) {
                Err(e) => {
                    want_result = Err(e);
                    break;
                }
                Ok((name, value)) => {
                    let key = name.to_lowercase();
                    match want.iter_mut().find(|(k, _)| *k == key) {
                        Some((_, v)) => {
                            v.push(',');
                            v.push_str(&value);
                        }
                        None => want.push((key, value)),
                    }
                }
            }
        }
        assert_eq!(got_result, want_result, "{:?}", block);
        assert_eq!(got.iter(), want, "{:?}", block);
    }
}

#[test]
fn queries_follow_the_rules() {
    let queries = [
        "",
        "a",
        "a=",
        "=a",
        "=",
        "a=b=c",
        "a=1&b=2&a=3",
        "&&a=1&&",
        "a+b=c+d",
        "%61=%62",
        "k=caf%C3%A9",
        "k=%e2%82%ac",
        "caf\u{e9}=\u{20ac}",
        "a=%26&b=%3D",
        "a=%",
        "a=%1",
        "a=%1g",
        "a=%ff",
        "%ff=a",
        "a=1&b=%zz&c=3",
    ];
    for query in queries {
        let got = Query::parse(query).ok().map(|q| q.iter_all());
        let mut want: Option<Vec<(String, Vec<String>)>> = Some(Vec::new());
        for pair in query.split('&') {
            if pair.is_empty() {
                continue;
            }
            let (key, value) = match pair.find('=') {
                Some(pos) => (&pair[..pos], &pair[pos + 1..]),
                None => (pair, ""),
            };
            match (Query::decode_url(key), Query::decode_url(value), want.as_mut()) {
                (Ok(k), Ok(v), Some(list)) => match list.iter_mut().find(|(key, _)| *key == k) {
                    Some((_, values)) => values.push(v),
                    None => list.push((k, vec![v])),
                },
                _ => want = None,
            }
        }
        let want = want.map(|list| {
            let mut flat = Vec::new();
            for (k, values) in list {
                for v in values {
                    flat.push((k.clone(), v));
                }
            }
            flat
        });
        assert_eq!(got, want, "{:?}", query);
    }
}
