use kontrol::config::{config_path, Config, ConfigError};
use kontrol::json::JsonValue;
use kontrol::http::{extract_errors_chain, is_client_error, is_success, Client, HttpError};

fn config(token: &str, url: &str) -> Config {
    Config { token: token.to_string(), url: url.to_string() }
}

#[test]
fn config_path_replaces_home() {
    assert_eq!(config_path("/home/kuma"), "/home/kuma/.config/kuma/kc.conf");
    assert_eq!(config_path(""), "/.config/kuma/kc.conf");
}

#[test]
fn validate_checks_token_then_url() {
    assert_eq!(config("", "").validate(), Err(ConfigError::EmptyToken));
    assert_eq!(config("", "core:7223").validate(), Err(ConfigError::EmptyToken));
    assert_eq!(config("t", "").validate(), Err(ConfigError::EmptyUrl));
    assert_eq!(config("t", "core:7223").validate(), Ok(()));
}

#[test]
fn answers_make_the_url() {
    let c = Config::from_answers("  core.example \n", " \n", "secret".to_string());
    assert_eq!(c.url, "core.example:7223");
    assert_eq!(c.token, "secret");
    let c = Config::from_answers("core", " 8443\n", "secret".to_string());
    assert_eq!(c.url, "core:8443");
}

#[test]
fn answers_are_refused_only_for_an_empty_token() {
    assert_eq!(Config::from_answers("", "", String::new()).validate(), Err(ConfigError::EmptyToken));
    assert_eq!(Config::from_answers("", "", "t".to_string()).validate(), Ok(()));
}

#[test]
fn client_from_config() {
    assert!(matches!(Client::from_config(config("", "x")), Err(ConfigError::EmptyToken)));
    assert!(matches!(Client::from_config(config("t", "")), Err(ConfigError::EmptyUrl)));
    let c = Client::from_config(config("t0k", "core:7223")).unwrap();
    assert_eq!(c.build_url("tenants?name=Main"), "https://core:7223/api/v2.2/tenants?name=Main");
    assert_eq!(c.authorization(), "Bearer t0k");
}

#[test]
fn status_classes() {
    assert!(!is_success(199));
    assert!(is_success(200));
    assert!(is_success(299));
    assert!(!is_success(300));
    assert!(!is_client_error(399));
    assert!(is_client_error(400));
    assert!(is_client_error(499));
    assert!(!is_client_error(500));
}

#[test]
fn get_answers() {
    let c = Client::from_config(config("t", "core:1")).unwrap();
    assert_eq!(c.get("tenants", 200, "[]".to_string()).unwrap(), "[]");
    match c.get("tenants", 404, "missing".to_string()) {
        Err(HttpError::Status { url, status, body }) => {
            assert_eq!(url, "tenants");
            assert_eq!(status, 404);
            assert_eq!(body, "missing");
        }
        other => panic!("unexpected {:?}", other),
    }
}

#[test]
fn post_answers() {
    let c = Client::from_config(config("t", "core:1")).unwrap();
    assert_eq!(c.post("assets/import", 500, "oops".to_string()).unwrap(), "oops");
    assert_eq!(c.post("assets/import", 200, "ok".to_string()).unwrap(), "ok");
    match c.post("assets/import", 400, "bad".to_string()) {
        Err(HttpError::Rejected { url, body }) => {
            assert_eq!(url, "https://core:1/api/v2.2/assets/import");
            assert_eq!(body, "bad");
        }
        other => panic!("unexpected {:?}", other),
    }
}

#[test]
fn errors_chain() {
    let m = |v: &[&str]| v.iter().map(|s| s.to_string()).collect::<Vec<String>>();
    assert_eq!(extract_errors_chain(&m(&[])), "");
    assert_eq!(extract_errors_chain(&m(&["outer"])), "");
    assert_eq!(extract_errors_chain(&m(&["outer", "inner"])), "outer");
    assert_eq!(extract_errors_chain(&m(&["a", "b", "c"])), "a: b");
    assert_eq!(extract_errors_chain(&m(&["a", "b", "c", "d"])), "a: b: c");
    assert_eq!(extract_errors_chain(&m(&["a", "", "c"])), "a");
}

#[test]
fn get_json_parses_the_body() {
    let c = Client::from_config(config("t", "core:1")).unwrap();
    let v = c.get_json("tenants", 200, "[{\"name\":\"Main\",\"id\":\"7\"}, 1.5, null]".to_string()).unwrap();
    assert_eq!(
        v,
        JsonValue::Array(vec![
            JsonValue::Object(vec![
                ("id".to_string(), JsonValue::Str("7".to_string())),
                ("name".to_string(), JsonValue::Str("Main".to_string())),
            ]),
            JsonValue::Number("1.5".to_string()),
            JsonValue::Null,
        ])
    );
    match c.get_json("tenants", 200, "not json".to_string()) {
        Err(HttpError::NotJson { url, .. }) => assert_eq!(url, "tenants"),
        other => panic!("unexpected {:?}", other),
    }
    assert!(matches!(
        c.get_json("tenants", 500, "[]".to_string()),
        Err(HttpError::Status { status: 500, .. })
    ));
}
