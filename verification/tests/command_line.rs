use kontrol::cli::{
    dispatch, extract_tenant_name, help, plan_import, resolve_tenant, Action, CliError, HelpTopic,
    ImportPlan, Task,
};

fn args(v: &[&str]) -> Vec<String> {
    v.iter().map(|a| a.to_string()).collect()
}

#[test]
fn dispatch_actions() {
    assert!(matches!(dispatch(&args(&["kc"])), Action::Usage));
    assert!(matches!(dispatch(&args(&["kc", "init"])), Action::Init));
    assert!(matches!(dispatch(&args(&["kc", "assets"])), Action::Usage));
    match dispatch(&args(&["kc", "help", "assets"])) {
        Action::Help(s) => assert_eq!(s, "assets"),
        other => panic!("unexpected {:?}", other),
    }
    assert!(matches!(dispatch(&args(&["kc", "assets", "list"])), Action::Run(Task::AssetsList)));
    assert!(matches!(
        dispatch(&args(&["kc", "assets", "import", "tenant=Main"])),
        Action::Run(Task::AssetsImport)
    ));
    assert!(matches!(dispatch(&args(&["kc", "services", "list"])), Action::Run(Task::ServicesList)));
    assert!(matches!(dispatch(&args(&["kc", "tenants", "list"])), Action::Run(Task::TenantsList)));
    assert!(matches!(dispatch(&args(&["kc", "tenants", "import"])), Action::Run(Task::Nothing)));
    assert!(matches!(dispatch(&args(&["kc", "events", "list"])), Action::Run(Task::Nothing)));
    assert!(matches!(dispatch(&args(&["kc", "init", "x"])), Action::Run(Task::Nothing)));
}

#[test]
fn help_topics() {
    assert!(matches!(help("init"), Ok(Some(HelpTopic::Init))));
    assert!(matches!(help("assets"), Ok(Some(HelpTopic::Assets))));
    assert!(matches!(help("events"), Ok(None)));
    assert!(matches!(help("resources"), Ok(None)));
    assert!(matches!(help("services"), Ok(Some(HelpTopic::Services))));
    assert!(matches!(help("tenants"), Ok(Some(HelpTopic::Tenants))));
    match help("nope") {
        Err(CliError::UnknownSubcommand(s)) => assert_eq!(s, "nope"),
        other => panic!("unexpected {:?}", other),
    }
}

#[test]
fn tenant_parameter() {
    assert_eq!(extract_tenant_name("tenant=Main"), Some("Main".to_string()));
    assert_eq!(extract_tenant_name("tenant="), Some(String::new()));
    assert_eq!(extract_tenant_name("name=example-name"), None);
    assert_eq!(resolve_tenant("Main".to_string(), Some("id".to_string())).unwrap(), "id");
    match resolve_tenant("Main".to_string(), None) {
        Err(CliError::TenantNotFound(n)) => assert_eq!(n, "Main"),
        other => panic!("unexpected {:?}", other),
    }
}

#[test]
fn import_example_of_the_help_plans_fields() {
    let a = args(&["kc", "assets", "import", "name=example-name", "fqdn=example.com"]);
    assert_eq!(extract_tenant_name(&a[3]), None);
    match plan_import(true, None, &a) {
        Ok(ImportPlan::FromFields { tenant_id, fields }) => {
            assert_eq!(tenant_id, None);
            assert_eq!(fields, args(&["name=example-name", "fqdn=example.com"]));
        }
        other => panic!("unexpected {:?}", other),
    }
}

#[test]
fn import_plans() {
    let a = args(&["kc", "assets", "import", "tenant=Main", "name=x", "owner=y"]);
    match plan_import(true, Some("T".to_string()), &a) {
        Ok(ImportPlan::FromFields { tenant_id, fields }) => {
            assert_eq!(tenant_id, Some("T".to_string()));
            assert_eq!(fields, args(&["name=x", "owner=y"]));
        }
        other => panic!("unexpected {:?}", other),
    }
    match plan_import(false, Some("T".to_string()), &a) {
        Err(CliError::UselessArguments(s)) => assert_eq!(s, "name=x owner=y"),
        other => panic!("unexpected {:?}", other),
    }
    let b = args(&["kc", "assets", "import", "tenant=Main", "extra"]);
    match plan_import(false, None, &b) {
        Ok(ImportPlan::FromInput { tenant_id }) => assert_eq!(tenant_id, None),
        other => panic!("unexpected {:?}", other),
    }
    let c = args(&["kc", "assets", "import"]);
    match plan_import(true, None, &c) {
        Ok(ImportPlan::FromFields { fields, .. }) => assert!(fields.is_empty()),
        other => panic!("unexpected {:?}", other),
    }
}
