use kontrol::assets::{Client, ImportError, ListError, NOT_SPECIFIED_TENANT_MSG};
use kontrol::config::Config;
use kontrol::http;
use kontrol::json::JsonValue;

fn client() -> Client {
    let c = http::Client::from_config(Config { token: "t".to_string(), url: "u".to_string() });
    Client::new(c.unwrap())
}

fn s(v: &str) -> JsonValue {
    JsonValue::Str(v.to_string())
}

fn obj(members: Vec<(&str, JsonValue)>) -> JsonValue {
    JsonValue::Object(members.into_iter().map(|(k, v)| (k.to_string(), v)).collect())
}

fn fields(v: &[&str]) -> Vec<String> {
    v.iter().map(|f| f.to_string()).collect()
}

#[test]
fn import_from_fields_example_of_the_help() {
    let r = client().import_from_fields(None, &fields(&["name=example-name", "fqdn=example.com"]));
    let expected = obj(vec![(
        "assets",
        JsonValue::Array(vec![obj(vec![
            ("name", s("example-name")),
            ("fqdn", JsonValue::Array(vec![s("example.com")])),
        ])]),
    )]);
    assert_eq!(r.unwrap(), expected);
}

#[test]
fn import_from_fields_several_assets() {
    let r = client().import_from_fields(
        Some("T".to_string()),
        &fields(&[
            "name=a",
            "ipAddresses=1.1.1.1,2.2.2.2",
            "owner=x",
            "owner=y",
            "name=b",
            "fqdn=",
        ]),
    );
    let expected = obj(vec![
        ("tenantID", s("T")),
        ("assets", JsonValue::Array(vec![
            obj(vec![
                ("name", s("a")),
                ("ipAddresses", JsonValue::Array(vec![s("1.1.1.1"), s("2.2.2.2")])),
                ("owner", s("y")),
            ]),
            obj(vec![("name", s("b")), ("fqdn", JsonValue::Array(vec![s("")]))]),
        ])),
    ]);
    assert_eq!(r.unwrap(), expected);
}

#[test]
fn import_from_fields_with_tenant() {
    let r = client().import_from_fields(Some("T1".to_string()), &fields(&["name=a"]));
    let expected = obj(vec![
        ("tenantID", s("T1")),
        ("assets", JsonValue::Array(vec![obj(vec![("name", s("a"))])])),
    ]);
    assert_eq!(r.unwrap(), expected);
}

#[test]
fn import_urls() {
    assert_eq!(client().listing_url(), "assets?stream=");
    assert_eq!(client().import_url(), "assets/import");
}

#[test]
fn import_from_fields_errors() {
    assert!(matches!(client().import_from_fields(Some("T".to_string()), &vec![]), Err(ImportError::NoFields)));
    match client().import_from_fields(Some("T".to_string()), &fields(&["owner=x", "name=a"])) {
        Err(ImportError::NameNotFirst(f)) => assert_eq!(f, "owner=x"),
        other => panic!("unexpected {:?}", other),
    }
    match client().import_from_fields(Some("T".to_string()), &fields(&["bogus", "name=a"])) {
        Err(ImportError::NameNotFirst(f)) => assert_eq!(f, "bogus"),
        other => panic!("unexpected {:?}", other),
    }
    match client().import_from_fields(Some("T".to_string()), &fields(&["name=a", "color=red", "other"])) {
        Err(ImportError::UnknownField(f)) => assert_eq!(f, "color=red"),
        other => panic!("unexpected {:?}", other),
    }
}

#[test]
fn import_from_input_array_needs_a_tenant() {
    let data = JsonValue::Array(vec![obj(vec![("name", s("a"))])]);
    assert!(matches!(
        client().import_from_input(None, JsonValue::Array(vec![])),
        Err(ImportError::TenantNotSpecified)
    ));
    let r = client().import_from_input(Some("T".to_string()), data);
    let expected = obj(vec![
        ("tenantID", s("T")),
        ("assets", JsonValue::Array(vec![obj(vec![("name", s("a"))])])),
    ]);
    assert_eq!(r.unwrap(), expected);
}

#[test]
fn import_from_input_whole_request() {
    let data = || obj(vec![("assets", JsonValue::Array(vec![])), ("tenantID", s("old"))]);
    assert_eq!(client().import_from_input(None, data()).unwrap(), data());
    let r = client().import_from_input(Some("new".to_string()), data()).unwrap();
    assert_eq!(r, obj(vec![("assets", JsonValue::Array(vec![])), ("tenantID", s("new"))]));
    let r = client()
        .import_from_input(Some("T".to_string()), obj(vec![("assets", JsonValue::Null)]))
        .unwrap();
    assert_eq!(r, obj(vec![("assets", JsonValue::Null), ("tenantID", s("T"))]));
}

#[test]
fn import_from_input_single_asset() {
    let asset = || obj(vec![("name", s("a")), ("owner", s("o"))]);
    assert!(matches!(
        client().import_from_input(None, asset()),
        Err(ImportError::TenantNotSpecified)
    ));
    let r = client().import_from_input(Some("T".to_string()), asset()).unwrap();
    assert_eq!(r, obj(vec![("tenantID", s("T")), ("assets", JsonValue::Array(vec![asset()]))]));
}

#[test]
fn import_from_input_other_data() {
    for d in [JsonValue::Null, s("x"), JsonValue::Number("1".to_string()), JsonValue::Bool(false)] {
        assert!(matches!(
            client().import_from_input(Some("T".to_string()), d),
            Err(ImportError::UnrecognizedData)
        ));
    }
}

#[test]
fn not_specified_message() {
    assert!(NOT_SPECIFIED_TENANT_MSG.starts_with("tenant is not specified"));
}

#[test]
fn asset_lines() {
    let c = client();
    let a = obj(vec![
        ("id", s("1")),
        ("name", s("web")),
        ("fqdn", JsonValue::Array(vec![s("a.example"), s("b.example")])),
    ]);
    assert!(kontrol::assets::is_listable(&a));
    assert_eq!(
        c.asset_line(&a, "line").unwrap(),
        format!("{0: <38} {1: <50} {2}", "1", "web", "a.example, b.example")
    );
    let b = obj(vec![("id", s("2")), ("name", s("db")), ("fqdn", JsonValue::Array(vec![]))]);
    assert_eq!(c.asset_line(&b, "line").unwrap(), format!("{0: <38} {1: <50} {2}", "2", "db", "-"));
    let e = obj(vec![("error", s("boom"))]);
    assert!(kontrol::assets::is_listable(&e));
    match c.asset_line(&e, "{\"error\":\"boom\"}") {
        Err(ListError::Unrecognized(l)) => assert_eq!(l, "{\"error\":\"boom\"}"),
        other => panic!("unexpected {:?}", other),
    }
    assert!(!kontrol::assets::is_listable(&obj(vec![("id", s("1"))])));
    assert!(!kontrol::assets::is_listable(&JsonValue::Null));
    assert_eq!(kontrol::assets::list_header(), format!("{0: <38} {1: <50} FQDN", "ID", "NAME"));
}

#[test]
fn row_of_line_reads_the_line() {
    let c = client();
    let line = "{\"id\":\"1\",\"name\":\"web\",\"fqdn\":[\"a.example\"]}  \r";
    assert_eq!(
        c.row_of_line(line).unwrap(),
        format!("{0: <38} {1: <50} {2}", "1", "web", "a.example")
    );
    match c.row_of_line("{\"error\":\"boom\"}") {
        Err(ListError::Unrecognized(l)) => assert_eq!(l, "{\"error\":\"boom\"}"),
        other => panic!("unexpected {:?}", other),
    }
    assert!(matches!(c.row_of_line("{oops"), Err(ListError::NotJson(_))));
    match c.row_of_line("[1]") {
        Err(ListError::Unexpected(l)) => assert_eq!(l, "[1]"),
        other => panic!("unexpected {:?}", other),
    }
}

#[test]
fn import_from_text_reads_the_document() {
    let r = client().import_from_text(Some("T".to_string()), " [ {\"name\": \"a\"} ]\n").unwrap();
    let expected = obj(vec![
        ("tenantID", s("T")),
        ("assets", JsonValue::Array(vec![obj(vec![("name", s("a"))])])),
    ]);
    assert_eq!(r, expected);
    assert!(matches!(client().import_from_text(None, "{"), Err(ImportError::NotJson(_))));
    assert!(matches!(client().import_from_text(None, "[]"), Err(ImportError::TenantNotSpecified)));
}
