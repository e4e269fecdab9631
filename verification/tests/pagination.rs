use kontrol::api::PaginationRequest;
use kontrol::config::Config;
use kontrol::http::{Client, HttpError};
use kontrol::json::JsonValue;

fn client() -> Client {
    Client::from_config(Config { token: "t".to_string(), url: "core:7223".to_string() }).unwrap()
}

#[test]
fn starts_at_page_one() {
    let p = PaginationRequest::new(client(), "services");
    assert_eq!(p.page(), 1);
    assert_eq!(p.next_url(), "services?page=1");
}

#[test]
fn with_param_picks_the_separator() {
    let p = PaginationRequest::new(client(), "services");
    assert_eq!(p.with_param("a=b"), "services?a=b");
    let q = PaginationRequest::new(client(), "tenants?name=Main");
    assert_eq!(q.with_param("page=3"), "tenants?name=Main&page=3");
}

#[test]
fn a_failure_keeps_the_page() {
    let mut p = PaginationRequest::new(client(), "tenants");
    match p.next(Err(HttpError::Transport("down".to_string()))) {
        Some(Err(e)) => {
            assert_eq!(e.page, 1);
            assert_eq!(e.suburl, "tenants");
        }
        other => panic!("unexpected {:?}", other),
    }
    assert_eq!(p.page(), 1);
    assert_eq!(p.next_url(), "tenants?page=1");
}

#[test]
fn pages_advance_until_empty() {
    let mut p = PaginationRequest::new(client(), "tenants");
    let page = JsonValue::Array(vec![JsonValue::Null, JsonValue::Bool(true)]);
    match p.next(Ok(page)) {
        Some(Ok(items)) => assert_eq!(items, vec![JsonValue::Null, JsonValue::Bool(true)]),
        other => panic!("unexpected {:?}", other),
    }
    assert_eq!(p.next_url(), "tenants?page=2");
    assert!(p.next(Ok(JsonValue::Array(vec![]))).is_none());
    assert_eq!(p.page(), 3);
    assert_eq!(p.next_url(), "tenants?page=3");
}
