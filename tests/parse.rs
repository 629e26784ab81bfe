use rsproxy::{HttpHeader, HttpHeaderName, HttpMethod, HttpRequest, ParseError};

fn assert_header_eq(header_str: &str, name: HttpHeaderName, value: &str) {
    let header = HttpHeader::new(header_str).unwrap();
    assert_eq!(name, header.name);
    assert_eq!(value, header.value);
}

fn method_of_request(raw: &str) -> HttpMethod {
    HttpRequest::new(raw).unwrap().method
}

#[test]
fn http_request_headers_basic() {
    assert_header_eq(
        "Accept: audio/*; q=0.2, audio/basic",
        HttpHeaderName::Accept,
        "audio/*; q=0.2, audio/basic",
    );
    assert_header_eq(
        "Accept-Charset: iso-8859-5, unicode-1-1;q=0.8",
        HttpHeaderName::AcceptCharset,
        "iso-8859-5, unicode-1-1;q=0.8",
    );
    assert_header_eq(
        "Referer: http://www.w3.org/hypertext/DataSources/Overview.html",
        HttpHeaderName::Referer,
        "http://www.w3.org/hypertext/DataSources/Overview.html",
    );
    assert_header_eq(
        "User-Agent: CERN-LineMode/2.15 libwww/2.17b3",
        HttpHeaderName::UserAgent,
        "CERN-LineMode/2.15 libwww/2.17b3",
    );
}

#[test]
fn http_get_request() {
    let get_request_str = "GET /some/path HTTP/1.1\r\n\
                           Host: http://rsproxy.com\r\n\
                           Accept: text/html\r\n";
    let get_request = HttpRequest::new(get_request_str).unwrap();
    assert_eq!(HttpMethod::Get, get_request.method);
    assert_eq!("/some/path", get_request.uri);
    let host_header: &HttpHeader = &(get_request.headers)[0];
    assert_eq!(HttpHeaderName::Host, host_header.name);
    assert_eq!("http://rsproxy.com", host_header.value);
}

#[test]
fn method_case_does_not_matter() {
    for token in ["get", "GET", "Get", "gEt"] {
        let raw = format!("{} / HTTP/1.1\r\n", token);
        assert_eq!(HttpMethod::Get, method_of_request(&raw));
    }
    for token in ["delete", "DELETE", "Delete"] {
        let raw = format!("{} /x HTTP/1.1", token);
        assert_eq!(HttpMethod::Delete, method_of_request(&raw));
    }
}

#[test]
fn every_known_method() {
    assert_eq!(HttpMethod::Options, method_of_request("OPTIONS * HTTP/1.1"));
    assert_eq!(HttpMethod::Header, method_of_request("HEADER / HTTP/1.1"));
    assert_eq!(HttpMethod::Post, method_of_request("POST / HTTP/1.1"));
    assert_eq!(HttpMethod::Put, method_of_request("put / HTTP/1.1"));
    assert_eq!(HttpMethod::Trace, method_of_request("Trace / HTTP/1.1"));
}

#[test]
fn unknown_method_kept_verbatim() {
    assert_eq!(
        HttpMethod::Extension("BrEw".to_string()),
        method_of_request("BrEw /pot HTTP/1.1\r\n")
    );
    assert_eq!(
        HttpMethod::Extension("HEAD".to_string()),
        method_of_request("HEAD / HTTP/1.1")
    );
}

#[test]
fn known_header_any_case_and_whitespace() {
    for line in [
        "accept: text/html",
        "ACCEPT:text/html",
        "  aCCept  :   text/html  ",
        "\tAccept\t:\ttext/html\t",
    ] {
        assert_header_eq(line, HttpHeaderName::Accept, "text/html");
    }
    assert_header_eq(
        " accept-encoding :  gzip,  deflate ",
        HttpHeaderName::AcceptEncoding,
        "gzip,  deflate",
    );
    assert_header_eq("HOST: example.com", HttpHeaderName::Host, "example.com");
}

#[test]
fn header_value_is_trimmed_value() {
    for value in ["plain", "  padded  ", "", "   ", "a: b: c", "\u{3000}wide\u{a0}"] {
        let line = format!("X-Thing: {}", value);
        let header = HttpHeader::new(&line).unwrap();
        assert_eq!(value.trim(), header.value);
        assert_eq!(HttpHeaderName::Custom("X-Thing".to_string()), header.name);
    }
}

#[test]
fn value_keeps_later_colons() {
    assert_header_eq(
        "Host: http://example.com:8080",
        HttpHeaderName::Host,
        "http://example.com:8080",
    );
}

#[test]
fn unknown_header_name_kept_verbatim() {
    assert_header_eq("X-Custom:  value  ", HttpHeaderName::Custom("X-Custom".to_string()), "value");
    assert_header_eq(
        "  x-MiXeD : v",
        HttpHeaderName::Custom("x-MiXeD".to_string()),
        "v",
    );
}

#[test]
fn header_without_colon_is_malformed() {
    assert_eq!(Err(ParseError::MalformedHeader), HttpHeader::new("no colon here"));
    assert_eq!(Err(ParseError::MalformedHeader), HttpHeader::new(""));
}

#[test]
fn header_with_blank_name_is_malformed() {
    assert_eq!(Err(ParseError::MalformedHeader), HttpHeader::new(": value"));
    assert_eq!(Err(ParseError::MalformedHeader), HttpHeader::new("   :value"));
}

#[test]
fn get_request_scenario() {
    let raw = "GET /some/path HTTP/1.1\r\nHost: http://example.com\r\nAccept: text/html\r\n";
    let request = HttpRequest::new(raw).unwrap();
    assert_eq!(HttpMethod::Get, request.method);
    assert_eq!("/some/path", request.uri);
    assert_eq!(2, request.headers.len());
    assert_eq!(HttpHeaderName::Host, request.headers[0].name);
    assert_eq!("http://example.com", request.headers[0].value);
    assert_eq!(HttpHeaderName::Accept, request.headers[1].name);
    assert_eq!("text/html", request.headers[1].value);
}

#[test]
fn accept_header_scenario() {
    let header = HttpHeader::new("Accept: audio/*; q=0.2, audio/basic").unwrap();
    assert_eq!(HttpHeaderName::Accept, header.name);
    assert_eq!("audio/*; q=0.2, audio/basic", header.value);
}

#[test]
fn request_line_without_target() {
    assert_eq!(Err(ParseError::MalformedRequestLine), HttpRequest::new("GET"));
    assert_eq!(Err(ParseError::MalformedRequestLine), HttpRequest::new("GET\r\nHost: a\r\n"));
    assert_eq!(Err(ParseError::MalformedRequestLine), HttpRequest::new("  GET   \r\n"));
}

#[test]
fn request_without_request_line() {
    assert_eq!(Err(ParseError::NoRequestLine), HttpRequest::new(""));
    assert_eq!(Err(ParseError::NoRequestLine), HttpRequest::new("   \r\nHost: a\r\n"));
    assert_eq!(Err(ParseError::NoRequestLine), HttpRequest::new("\r\n"));
}

#[test]
fn malformed_header_lines_are_dropped() {
    let raw = "POST /form HTTP/1.0\r\nbogus line\r\n  Host :  h  \r\n: nameless\r\nX-A: 1\r\n\r\n";
    let request = HttpRequest::new(raw).unwrap();
    assert_eq!(HttpMethod::Post, request.method);
    assert_eq!("/form", request.uri);
    assert_eq!(2, request.headers.len());
    assert_eq!(HttpHeaderName::Host, request.headers[0].name);
    assert_eq!("h", request.headers[0].value);
    assert_eq!(HttpHeaderName::Custom("X-A".to_string()), request.headers[1].name);
    assert_eq!("1", request.headers[1].value);
}

#[test]
fn request_line_extra_whitespace_and_tokens() {
    let request = HttpRequest::new("  get \t /a%20b   HTTP/1.1 extra\r\n").unwrap();
    assert_eq!(HttpMethod::Get, request.method);
    assert_eq!("/a%20b", request.uri);
    assert!(request.headers.is_empty());
}

#[test]
fn lone_carriage_return_does_not_split() {
    let request = HttpRequest::new("GET /x\rHost: a\r\nHost: b").unwrap();
    assert_eq!("/x", request.uri);
    assert_eq!(1, request.headers.len());
    assert_eq!("b", request.headers[0].value);
}
