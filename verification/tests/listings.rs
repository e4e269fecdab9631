use kontrol::config::Config;
use kontrol::http;
use kontrol::json::JsonValue;
use kontrol::services::{self, colorize, has_color, StatusColor};
use kontrol::tenants;

fn http_client() -> http::Client {
    http::Client::from_config(Config { token: "t".to_string(), url: "u".to_string() }).unwrap()
}

fn s(v: &str) -> JsonValue {
    JsonValue::Str(v.to_string())
}

fn obj(members: Vec<(&str, JsonValue)>) -> JsonValue {
    JsonValue::Object(members.into_iter().map(|(k, v)| (k.to_string(), v)).collect())
}

#[test]
fn status_colours() {
    assert_eq!(colorize("blue"), StatusColor::Blue);
    assert_eq!(colorize("green"), StatusColor::Green);
    assert_eq!(colorize("red"), StatusColor::Red);
    assert_eq!(colorize("yellow"), StatusColor::Yellow);
    assert_eq!(colorize("grey"), StatusColor::Black);
    for name in ["blue", "green", "red", "yellow", "grey"] {
        assert!(has_color(name));
    }
    assert!(!has_color("purple"));
    assert!(!has_color("Blue"));
}

#[test]
fn service_line_columns() {
    let c = services::Client::new(http_client());
    assert_eq!(c.listing_url(), "services");
    let v = obj(vec![
        ("id", s("id-1")),
        ("fqdn", s("svc.example")),
        ("name", s("collector")),
        ("status", s("green")),
        ("kind", s("collector")),
        ("tenantName", s("Main")),
    ]);
    assert!(c.is_listable(&v));
    let line = c.service_line(&v);
    assert_eq!(line.color, StatusColor::Green);
    let whole = format!("{}{}{}", line.before, line.status, line.after);
    assert_eq!(
        whole,
        format!(
            "{0: <20} {1: <10} {2: <38} {3: <15} {4: <8} {5: <10}",
            "collector", "collector", "id-1", "svc.example", "green", "Main"
        )
    );
    let bad = obj(vec![("id", s("x"))]);
    assert!(!c.is_listable(&bad));
    assert_eq!(services::list_header(), format!("{0: <38} {1: <50} FQDN", "ID", "NAME"));
}

#[test]
fn tenant_lines() {
    let c = tenants::Client::new(http_client());
    assert_eq!(c.listing_url(), "tenants");
    let v = obj(vec![("id", s("T1")), ("name", s("Main"))]);
    assert!(c.is_listable(&v));
    assert_eq!(c.tenant_line(&v), format!("{0: <38} {1: <50}", "T1", "Main"));
    assert_eq!(tenants::list_header(), format!("{0: <38} {1: <50}", "ID", "NAME"));
}

#[test]
fn find_by_name_takes_the_first_exact_match() {
    let c = tenants::Client::new(http_client());
    assert_eq!(c.find_by_name_url("Main"), "tenants?name=Main");
    let answer = JsonValue::Array(vec![
        obj(vec![("id", s("1")), ("name", s("Main2"))]),
        obj(vec![("name", s("Main")), ("id", s("2"))]),
        obj(vec![("id", s("3")), ("name", s("Main"))]),
    ]);
    assert!(c.is_readable_answer("Main", &answer));
    assert_eq!(c.find_by_name("Main", &answer), Some("2".to_string()));
    assert!(c.is_readable_answer("Other", &answer));
    assert_eq!(c.find_by_name("Other", &answer), None);
    let partial = JsonValue::Array(vec![obj(vec![("name", s("Main")), ("id", s("9"))]), JsonValue::Null]);
    assert!(c.is_readable_answer("Main", &partial));
    assert!(!c.is_readable_answer("Other", &partial));
    assert!(!c.is_readable_answer("Main", &JsonValue::Null));
}
