use dbx::agent_runtime::{first_line, http_json_response, is_authorized, request_body, route_of, RuntimeRoute};

#[test]
fn authorization_requires_exact_bearer_token() {
    assert!(is_authorized("GET /context HTTP/1.1\r\nAuthorization: Bearer secret-token\r\n\r\n", "secret-token",));
    assert!(!is_authorized("GET /context HTTP/1.1\r\nAuthorization: Bearer wrong\r\n\r\n", "secret-token",));
    assert!(!is_authorized("GET /context HTTP/1.1\r\n\r\n", "secret-token"));
}

#[test]
fn authorization_ignores_trailing_space_but_not_a_longer_token() {
    assert!(is_authorized("Authorization: Bearer t  ", "t"));
    assert!(!is_authorized("Authorization: Bearer tt", "t"));
    assert!(!is_authorized(" Authorization: Bearer t", "t"));
    assert!(!is_authorized("", "t"));
}

#[test]
fn requests_split_into_first_line_and_body() {
    let request = "POST /handoff HTTP/1.1\r\nHost: x\r\n\r\n{\"id\":1}";
    assert_eq!(first_line(request), "POST /handoff HTTP/1.1");
    assert_eq!(request_body(request), "{\"id\":1}");
    assert_eq!(request_body("GET / HTTP/1.1\r\n"), "");
    assert_eq!(request_body("a\r\n\r\nb\r\n\r\nc"), "b");
    assert_eq!(first_line(""), "");
    assert_eq!(first_line("only\r"), "only\r");
}

#[test]
fn routes_follow_the_request_line() {
    assert_eq!(route_of("GET /context HTTP/1.1"), RuntimeRoute::Context);
    assert_eq!(route_of("GET /context?x=1 HTTP/1.1"), RuntimeRoute::Context);
    assert_eq!(route_of("GET /contexts HTTP/1.1"), RuntimeRoute::NotFound);
    assert_eq!(route_of("GET /selection HTTP/1.1"), RuntimeRoute::Selection);
    assert_eq!(route_of("GET /result/current HTTP/1.1"), RuntimeRoute::CurrentResult);
    assert_eq!(route_of("POST /handoff HTTP/1.1"), RuntimeRoute::Handoff);
    assert_eq!(route_of("GET /handoff HTTP/1.1"), RuntimeRoute::NotFound);
}

#[test]
fn answers_carry_the_byte_length_of_their_body() {
    assert_eq!(
        http_json_response("200 OK", "{\"a\":\"é\"}"),
        "HTTP/1.1 200 OK\r\nContent-Type: application/json\r\nContent-Length: 10\r\nConnection: close\r\n\r\n{\"a\":\"é\"}"
    );
}
