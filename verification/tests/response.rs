use static_http::response::{
    format_decimal, format_signed, format_status_line, serve_file_head, serve_status,
    ResponseStatus, CACHE_AGE,
};

#[test]
fn decimal_of_numbers() {
    assert_eq!(format_decimal(0), "0");
    assert_eq!(format_decimal(7), "7");
    assert_eq!(format_decimal(10), "10");
    assert_eq!(format_decimal(3600), "3600");
    assert_eq!(format_decimal(u64::MAX), "18446744073709551615");
}

#[test]
fn signed_decimal_of_numbers() {
    assert_eq!(format_signed(0), "0");
    assert_eq!(format_signed(404), "404");
    assert_eq!(format_signed(-1), "-1");
    assert_eq!(format_signed(i32::MAX), "2147483647");
    assert_eq!(format_signed(i32::MIN), "-2147483648");
}

#[test]
fn decimal_matches_the_standard_formatting() {
    for n in [0i32, 1, 9, 10, 99, 100, 200, 400, 403, 404, 500, 65535, -5, -40, -999] {
        assert_eq!(format_signed(n), format!("{}", n));
    }
}

#[test]
fn status_codes_and_reasons() {
    assert_eq!(ResponseStatus::Success.code(), 200);
    assert_eq!(ResponseStatus::Success.reason(), "OK");
    assert_eq!(ResponseStatus::BadRequest.code(), 400);
    assert_eq!(ResponseStatus::BadRequest.reason(), "Bad Request");
    assert_eq!(ResponseStatus::Forbidden.code(), 403);
    assert_eq!(ResponseStatus::Forbidden.reason(), "Forbidden");
    assert_eq!(ResponseStatus::NotFound.code(), 404);
    assert_eq!(ResponseStatus::NotFound.reason(), "Not Found");
}

#[test]
fn status_line_of_a_code_and_a_reason() {
    assert_eq!(format_status_line(200, "OK"), "HTTP/1.1 200 OK\r\n");
    assert_eq!(format_status_line(-3, ""), "HTTP/1.1 -3 \r\n");
}

#[test]
fn status_response_for_each_rejection() {
    assert_eq!(
        serve_status(400, "Bad Request"),
        "HTTP/1.1 400 Bad Request\r\nConnection: close\r\n\r\n"
    );
    assert_eq!(
        serve_status(403, "Forbidden"),
        "HTTP/1.1 403 Forbidden\r\nConnection: close\r\n\r\n"
    );
    assert_eq!(
        serve_status(404, "Not Found"),
        "HTTP/1.1 404 Not Found\r\nConnection: close\r\n\r\n"
    );
}

#[test]
fn status_response_takes_any_message() {
    assert_eq!(
        serve_status(418, "th\u{e9}i\u{e8}re"),
        "HTTP/1.1 418 th\u{e9}i\u{e8}re\r\nConnection: close\r\n\r\n"
    );
}

#[test]
fn cache_age_is_an_hour() {
    assert_eq!(CACHE_AGE, 3600);
}

#[test]
fn file_head_names_the_content_type() {
    assert_eq!(
        serve_file_head("text/html"),
        "HTTP/1.1 200 OK\r\n\
         Cache-Control: max-age=3600\r\n\
         Connection: close\r\n\
         Content-Type: text/html\r\n\
         Transfer-Encoding: chunked\r\n\
         \r\n"
    );
}

#[test]
fn file_head_ends_with_an_empty_line() {
    let head = serve_file_head("image/svg+xml");
    assert!(head.ends_with("Transfer-Encoding: chunked\r\n\r\n"));
    assert_eq!(head.matches("\r\n\r\n").count(), 1);
    assert!(head.contains("\r\nContent-Type: image/svg+xml\r\n"));
    assert!(head.contains("\r\nConnection: close\r\n"));
}
