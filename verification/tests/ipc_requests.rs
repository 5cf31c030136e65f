use mhw_radar::ipc::{
    check_export_path, desktop_path_body, error_detail, export_ok_body, health_body, round_count_body,
    binary_head, check_body, check_received, cors_head, dispatch, extract_content_length, find_header_end,
    json_error, parse_request, query_param, requested_round, sends_body, status_text, BodyCheck, Dispatch,
    Route, MAX_REQUEST_BODY_BYTES,
};

#[test]
fn request_line_path_query_and_body() {
    let r = parse_request("get /api/logs?round=2 HTTP/1.1\r\nHost: x\r\n\r\n{\"a\":1}\n").unwrap();
    assert_eq!(r.method, "GET");
    assert_eq!(r.path, "/api/logs");
    assert_eq!(r.query, "round=2");
    assert_eq!(r.body, "{\"a\":1}\n");
    let r = parse_request("POST /api/logs/clear HTTP/1.1\r\n").unwrap();
    assert_eq!(r.method, "POST");
    assert_eq!(r.path, "/api/logs/clear");
    assert_eq!(r.query, "");
    assert_eq!(r.body, "");
}

#[test]
fn malformed_requests() {
    assert!(parse_request("").is_none());
    assert!(parse_request("GET\r\n\r\n").is_none());
    assert!(parse_request("   \r\nGET / HTTP/1.1").is_none());
}

#[test]
fn query_parameters() {
    assert_eq!(query_param("a=1&round=2", "round"), Some("2".to_string()));
    assert_eq!(query_param("a=1&round=2=3", "round"), Some("2=3".to_string()));
    assert_eq!(query_param("flag&x=1", "flag"), Some("".to_string()));
    assert_eq!(query_param("a=1", "round"), None);
    assert_eq!(requested_round("round=3"), Some(3));
    assert_eq!(requested_round("round=x"), None);
    assert_eq!(requested_round(""), None);
}

#[test]
fn header_end_and_length() {
    assert_eq!(find_header_end(b"GET / HTTP/1.1\r\n\r\nxyz"), Some(18));
    assert_eq!(find_header_end(b"GET / HTTP/1.1\r\n"), None);
    assert_eq!(find_header_end(b"\r\n\r\n"), Some(4));
    assert_eq!(extract_content_length("POST / HTTP/1.1\r\nContent-Length: 12\r\n\r\n"), Some(12));
    assert_eq!(extract_content_length("POST / HTTP/1.1\r\ncontent-LENGTH:  7 \r\n"), Some(7));
    assert_eq!(extract_content_length("POST / HTTP/1.1\r\nContent-Length: x\r\n"), None);
    assert_eq!(extract_content_length("GET / HTTP/1.1\r\nHost: a\r\n"), None);
}

#[test]
fn json_error_bodies() {
    assert_eq!(json_error("Not Found"), "{\"error\":\"Not Found\",\"ok\":false}");
    assert_eq!(json_error("a \"b\"\n"), "{\"error\":\"a \\\"b\\\"\\n\",\"ok\":false}");
    assert_eq!(json_error("\u{1}"), "{\"error\":\"\\u0001\",\"ok\":false}");
}

#[test]
fn response_heads() {
    assert_eq!(status_text(413), "413 Payload Too Large");
    assert_eq!(status_text(302), "500 Internal Server Error");
    assert_eq!(
        cors_head(200, "{}"),
        "HTTP/1.1 200 OK\r\nContent-Type: application/json; charset=utf-8\r\nContent-Length: 2\r\nAccess-Control-Allow-Origin: *\r\nAccess-Control-Allow-Methods: GET, PUT, POST, OPTIONS\r\nAccess-Control-Allow-Headers: Content-Type\r\n\r\n"
    );
    assert!(cors_head(404, "日志").contains("Content-Length: 6\r\n"));
    assert!(!sends_body(204));
    assert!(sends_body(200));
    assert_eq!(
        binary_head(200, "image/png", 10),
        "HTTP/1.1 200 OK\r\nContent-Type: image/png\r\nContent-Length: 10\r\nAccess-Control-Allow-Origin: *\r\nCache-Control: public, max-age=3600\r\n\r\n"
    );
}

fn route_of(raw: &str) -> Dispatch {
    dispatch(&parse_request(raw).unwrap())
}

#[test]
fn routing() {
    assert_eq!(route_of("OPTIONS /anything HTTP/1.1\r\n\r\n"), Dispatch::Preflight);
    assert_eq!(route_of("GET /api/resources/logo HTTP/1.1\r\n\r\n"), Dispatch::Logo);
    assert_eq!(route_of("GET /api/settings HTTP/1.1\r\n\r\n"), Dispatch::Endpoint(Route::GetSettings));
    assert_eq!(route_of("put /api/settings HTTP/1.1\r\n\r\n"), Dispatch::Endpoint(Route::PutSettings));
    assert_eq!(route_of("GET /api/logs?round=1 HTTP/1.1\r\n\r\n"), Dispatch::Endpoint(Route::GetLogs));
    assert_eq!(route_of("POST /api/logs/export HTTP/1.1\r\n\r\n"), Dispatch::Endpoint(Route::ExportLogs));
    assert_eq!(
        route_of("POST /api/connection-logs/clear HTTP/1.1\r\n\r\n"),
        Dispatch::Endpoint(Route::ClearConnectionLogs)
    );
    assert_eq!(route_of("POST /api/settings HTTP/1.1\r\n\r\n"), Dispatch::NotFound);
    assert_eq!(route_of("GET /nothing HTTP/1.1\r\n\r\n"), Dispatch::NotFound);
}

#[test]
fn body_limits() {
    match check_body(100, MAX_REQUEST_BODY_BYTES + 1) {
        BodyCheck::TooLarge(m) => {
            assert_eq!(m, "request body too large: 16777217 bytes, max 16777216 bytes")
        }
        BodyCheck::ReadUntil(_) => panic!("expected a refusal"),
    }
    match check_body(100, 20) {
        BodyCheck::ReadUntil(n) => assert_eq!(n, 120),
        BodyCheck::TooLarge(_) => panic!("expected a read"),
    }
    assert_eq!(check_received(30, 10, 20), None);
    assert_eq!(
        check_received(15, 10, 20),
        Some("incomplete request body: received 5 bytes, expected 20 bytes".to_string())
    );
    assert_eq!(
        check_received(4, 10, 20),
        Some("incomplete request body: received 0 bytes, expected 20 bytes".to_string())
    );
}

#[test]
fn fixed_bodies() {
    assert_eq!(health_body(), "{\"ok\":true}");
    assert_eq!(round_count_body(12), "{\"total_rounds\":12}");
    assert_eq!(desktop_path_body("C:\\Users\\x"), "{\"path\":\"C:\\\\Users\\\\x\\\\Desktop\"}");
    assert_eq!(export_ok_body("D:\\a \"b\".txt"), "{\"ok\":true,\"path\":\"D:\\\\a \\\"b\\\".txt\"}");
    assert_eq!(check_export_path("  \t"), Err("export path is empty".to_string()));
    assert_eq!(check_export_path(" a "), Ok(()));
    assert_eq!(error_detail("invalid settings JSON", "EOF"), "invalid settings JSON: EOF");
}
