use ffremote::docker::{container_name, container_request, response_body, response_status, ResponseError};

#[test]
fn request_line_for_hostname() {
    assert_eq!(
        container_request("abc123"),
        "GET /containers/abc123/json HTTP/1.0\r\n\r\n"
    );
}

#[test]
fn response_ok_gives_body_and_name() {
    let resp = b"HTTP/1.0 200 OK\r\n\r\n{\"Name\":\"/mycontainer\"}".to_vec();
    let body = match response_body(&resp) {
        Ok(b) => b,
        Err(_) => panic!("response refused"),
    };
    assert_eq!(body, b"{\"Name\":\"/mycontainer\"}".to_vec());
    assert_eq!(container_name("/mycontainer"), "mycontainer");
}

#[test]
fn response_not_found_is_refused() {
    let resp = b"HTTP/1.0 404 Not Found\r\n\r\n{}".to_vec();
    assert!(matches!(response_body(&resp), Err(ResponseError::BadStatus(code)) if code == b"404".to_vec()));
}

#[test]
fn response_without_blank_line_is_refused() {
    let resp = b"HTTP/1.0 200 OK\r\nContent-Type: application/json\r\n".to_vec();
    assert!(matches!(response_body(&resp), Err(ResponseError::MissingBody)));
}

#[test]
fn response_without_status_is_refused() {
    assert!(matches!(response_body(&b"HTTP/1.0".to_vec()), Err(ResponseError::MissingStatus)));
    assert!(matches!(response_body(&Vec::new()), Err(ResponseError::MissingStatus)));
}

#[test]
fn response_not_text_is_refused() {
    let resp = vec![b'H', b' ', b'2', b'0', b'0', 0xff, b'\r', b'\n', b'\r', b'\n'];
    assert!(matches!(response_body(&resp), Err(ResponseError::NotText)));
}

#[test]
fn status_is_second_token() {
    assert_eq!(response_status(&b"  HTTP/1.1\t 500  x".to_vec()), Some(b"500".to_vec()));
    assert_eq!(response_status(&b"one".to_vec()), None);
}

#[test]
fn container_name_strips_one_slash() {
    assert_eq!(container_name("//x"), "/x");
    assert_eq!(container_name("plain"), "plain");
    assert_eq!(container_name(""), "");
}

#[test]
fn status_comes_from_status_line_only() {
    let resp = b"HTTP/1.0\r\n200 OK\r\n\r\n{}".to_vec();
    assert!(matches!(response_body(&resp), Err(ResponseError::MissingStatus)));
    let resp = b"HTTP/1.0 301\r\n200 OK\r\n\r\n{}".to_vec();
    assert!(matches!(response_body(&resp), Err(ResponseError::BadStatus(code)) if code == b"301".to_vec()));
}
