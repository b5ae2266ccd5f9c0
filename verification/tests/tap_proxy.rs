use arch_live::tap::{
    keeps_request_header, keeps_response_header, reported_status, request_path, target_authority,
    target_uri, BAD_GATEWAY,
};

#[test]
fn request_headers_passed_on() {
    assert!(keeps_request_header("content-type"));
    assert!(keeps_request_header("authorization"));
    assert!(!keeps_request_header("host"));
    assert!(!keeps_request_header("connection"));
    assert!(!keeps_request_header("keep-alive"));
    assert!(!keeps_request_header("proxy-connection"));
}

#[test]
fn response_headers_passed_back() {
    assert!(keeps_response_header("content-length"));
    assert!(!keeps_response_header("transfer-encoding"));
}

#[test]
fn forwarded_target() {
    assert_eq!(request_path(Some("/api/users?x=1")), "/api/users?x=1");
    assert_eq!(request_path(None), "/");
    assert_eq!(target_authority(3000), "127.0.0.1:3000");
    assert_eq!(target_uri(3000, Some("/api?q")), "http://127.0.0.1:3000/api?q");
    assert_eq!(target_uri(80, None), "http://127.0.0.1:80/");
}

#[test]
fn status_reported() {
    assert_eq!(reported_status(Some(201)), 201);
    assert_eq!(reported_status(None), 502);
    assert_eq!(BAD_GATEWAY, 502);
}
