use pinger::pinger::http::{HttpConfigError, HttpMetadata, HTTP_PING_TIMEOUT};

fn metadata() -> HttpMetadata {
    HttpMetadata {
        method: String::from("GET"),
        body: None,
        successful_max: 299,
        successful_min: 200,
        insecure: false,
        follow_redirects: None,
        headers: Vec::new(),
        timeout: None,
    }
}

#[test]
fn plain_get_builds_a_default_plan() {
    let plan = metadata().build_request().unwrap();
    assert_eq!(plan.method, "GET");
    assert_eq!(plan.body, None);
    assert_eq!(plan.redirect_limit, None);
    assert_eq!(plan.timeout_secs, HTTP_PING_TIMEOUT);
    assert!(!plan.insecure);
    assert!(plan.headers.is_empty());
}

#[test]
fn body_is_base64_decoded() {
    let mut m = metadata();
    m.method = String::from("POST");
    m.body = Some(String::from("aGVsbG8="));
    let plan = m.build_request().unwrap();
    assert_eq!(plan.body, Some(b"hello".to_vec()));
}

#[test]
fn malformed_body_is_rejected() {
    let mut m = metadata();
    m.body = Some(String::from("not base64!"));
    assert_eq!(m.build_request().unwrap_err(), HttpConfigError::InvalidBody);
}

#[test]
fn empty_method_is_rejected() {
    let mut m = metadata();
    m.method = String::new();
    assert_eq!(m.build_request().unwrap_err(), HttpConfigError::InvalidMethod);
}

#[test]
fn method_with_forbidden_bytes_is_rejected() {
    let mut m = metadata();
    m.method = String::from("GE T");
    assert_eq!(m.build_request().unwrap_err(), HttpConfigError::InvalidMethod);
}

#[test]
fn invalid_method_is_reported_before_invalid_body() {
    let mut m = metadata();
    m.method = String::from("GE T");
    m.body = Some(String::from("not base64!"));
    assert_eq!(m.build_request().unwrap_err(), HttpConfigError::InvalidMethod);
}

#[test]
fn custom_token_method_is_accepted() {
    let mut m = metadata();
    m.method = String::from("PURGE");
    assert_eq!(m.build_request().unwrap().method, "PURGE");
}

#[test]
fn redirects_follow_only_for_a_positive_count() {
    let mut m = metadata();
    m.follow_redirects = Some(3);
    assert_eq!(m.build_request().unwrap().redirect_limit, Some(3));
    m.follow_redirects = Some(0);
    assert_eq!(m.build_request().unwrap().redirect_limit, None);
    m.follow_redirects = None;
    assert_eq!(m.build_request().unwrap().redirect_limit, None);
}

#[test]
fn timeout_override_and_flags_are_carried_over() {
    let mut m = metadata();
    m.timeout = Some(7);
    m.insecure = true;
    m.headers = vec![(String::from("x-probe"), String::from("1"))];
    let plan = m.build_request().unwrap();
    assert_eq!(plan.timeout_secs, 7);
    assert!(plan.insecure);
    assert_eq!(plan.headers, vec![(String::from("x-probe"), String::from("1"))]);
}
