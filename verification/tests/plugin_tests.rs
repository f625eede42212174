use agent_editor::paths::normalize_path;
use agent_editor::plugins::{
    call_envelope_of, call_timeout_ms, check_plugin_call, check_plugin_call_line, permission_strings,
    plugin_reply, reply_outcome, domain_allows, list_core_plugins, pid_of, plan_call,
    plugin_upsert_request, record_restart, reply_payload, required_permission, shutdown_core_plugin,
    shutdown_outcome, spawn_core_plugin, url_host, CallEnvelope, CallGrants, CallPlan, Capabilities,
    CorePluginSpec, PluginRegistry,
};

fn spec(name: &str) -> CorePluginSpec {
    CorePluginSpec {
        name: name.to_string(),
        executable: "node".to_string(),
        args: vec!["plugin.js".to_string()],
        env: vec![],
        caps: Capabilities { fs_roots: vec![], net_domains: vec![], db_read: false, db_write: false, ai_providers: vec![] },
    }
}

fn grants(core: bool, method: bool) -> CallGrants {
    CallGrants {
        core_call: core,
        method_allowed: method,
        net_domains: vec!["example.com".to_string(), ".trusted.org".to_string()],
        fs_roots: vec!["/data".to_string()],
        fs_target: "/data/notes/a.md".to_string(),
    }
}

fn env(method: &str, url: &str, path: &str) -> Option<CallEnvelope> {
    Some(CallEnvelope {
        jsonrpc: "2.0".to_string(),
        has_id: true,
        method: method.to_string(),
        url: url.to_string(),
        path: path.to_string(),
    })
}

#[test]
fn permission_of_method_families() {
    assert_eq!(required_permission("fs.writeFile"), Some("$.fs.write".to_string()));
    assert_eq!(required_permission("fs.read"), Some("$.fs.read".to_string()));
    assert_eq!(required_permission("net.request"), Some("$.net.request".to_string()));
    assert_eq!(required_permission("db.write"), Some("$.db.write".to_string()));
    assert_eq!(required_permission("db.query"), Some("$.db.query".to_string()));
    assert_eq!(required_permission("ai.invoke"), Some("$.ai.invoke".to_string()));
    assert_eq!(required_permission("scanner.register"), Some("$.scanner.register".to_string()));
    assert_eq!(required_permission("test.method"), None);
}

#[test]
fn hosts_and_domains() {
    assert_eq!(url_host("https://Example.com:8080/path"), "Example.com");
    assert_eq!(url_host("example.com"), "example.com");
    assert!(domain_allows("EXAMPLE.com", "example.com"));
    assert!(domain_allows("api.trusted.org", ".trusted.org"));
    assert!(!domain_allows("evil.com", "example.com"));
}

#[test]
fn call_check_refusals_in_order() {
    assert_eq!(check_plugin_call(&env("test", "", ""), &grants(false, true)), Err("forbidden".to_string()));
    assert_eq!(check_plugin_call(&None, &grants(true, true)), Err("invalid_request".to_string()));
    assert_eq!(check_plugin_call(&env("", "", ""), &grants(true, true)), Err("invalid_request".to_string()));
    assert_eq!(check_plugin_call(&env("db.query", "", ""), &grants(true, false)), Err("forbidden".to_string()));
    assert_eq!(
        check_plugin_call(&env("net.request", "https://evil.com/x", ""), &grants(true, true)),
        Err("forbidden_net_domain".to_string())
    );
    assert_eq!(check_plugin_call(&env("net.request", "https://a.trusted.org/x", ""), &grants(true, true)), Ok(()));
    assert_eq!(check_plugin_call(&env("test.method", "", ""), &grants(true, false)), Ok(()));
}

#[test]
fn call_check_of_fs_roots() {
    assert_eq!(check_plugin_call(&env("fs.read", "", "/data/notes/a.md"), &grants(true, true)), Ok(()));
    let mut g = grants(true, true);
    g.fs_target = "/etc/passwd".to_string();
    assert_eq!(check_plugin_call(&env("fs.read", "", "/etc/passwd"), &g), Err("forbidden_fs_root".to_string()));
}

#[test]
fn spawn_twice_is_refused_and_shutdown_undoes_spawn() {
    let mut reg = PluginRegistry::new();
    let h = spawn_core_plugin(&mut reg, &spec("test-echo"), Ok(42)).unwrap();
    assert_eq!(h.name, "test-echo");
    assert!(reg.is_running("test-echo"));
    match spawn_core_plugin(&mut reg, &spec("test-echo"), Ok(43)) {
        Err(m) => assert_eq!(m, "already_running"),
        Ok(_) => panic!("second spawn accepted"),
    }
    assert_eq!(shutdown_core_plugin(&mut reg, "test-echo"), Ok(42));
    assert!(!reg.is_running("test-echo"));
    assert!(reg.entries().is_empty());
    assert_eq!(shutdown_core_plugin(&mut reg, "test-echo"), Err("not_found".to_string()));
}

#[test]
fn failed_spawn_leaves_registry_unchanged() {
    let mut reg = PluginRegistry::new();
    match spawn_core_plugin(&mut reg, &spec("p"), Err("spawn failed".to_string())) {
        Err(m) => assert_eq!(m, "spawn failed"),
        Ok(_) => panic!("spawn accepted"),
    }
    assert!(reg.entries().is_empty());
}

#[test]
fn listing_and_restart_policy() {
    let mut reg = PluginRegistry::new();
    spawn_core_plugin(&mut reg, &spec("a"), Ok(1)).unwrap();
    spawn_core_plugin(&mut reg, &spec("b"), Ok(2)).unwrap();
    let list = list_core_plugins(&reg, &vec![false, true]);
    assert_eq!(list, vec![("a".to_string(), 1, true), ("b".to_string(), 2, false)]);
    assert_eq!(pid_of(&list, "b"), 2);
    assert_eq!(pid_of(&list, "zz"), 0);
    assert!(matches!(plan_call(&reg, "zz", false), CallPlan::NotFound));
    assert!(matches!(plan_call(&reg, "a", false), CallPlan::Proceed));
    assert!(matches!(plan_call(&reg, "b", true), CallPlan::Restart { backoff_ms: 200 }));
    record_restart(&mut reg, "b", 3);
    assert!(matches!(plan_call(&reg, "b", true), CallPlan::Restart { backoff_ms: 400 }));
    record_restart(&mut reg, "b", 4);
    assert!(matches!(plan_call(&reg, "b", true), CallPlan::Restart { backoff_ms: 800 }));
    record_restart(&mut reg, "b", 5);
    assert!(matches!(plan_call(&reg, "b", true), CallPlan::GiveUp));
    assert_eq!(reg.entries(), vec![("a".to_string(), 1), ("b".to_string(), 5)]);
}

#[test]
fn shutdown_outcomes_and_settings() {
    assert_eq!(shutdown_outcome(Ok(())), Ok(true));
    assert_eq!(shutdown_outcome(Err("not_found".to_string())), Ok(false));
    assert_eq!(shutdown_outcome(Err("io".to_string())), Err("io".to_string()));
    assert_eq!(call_timeout_ms(&Some("1500".to_string())), 1500);
    assert_eq!(call_timeout_ms(&Some("soon".to_string())), 5000);
    assert_eq!(call_timeout_ms(&None), 5000);
    assert_eq!(reply_payload("  {\"ok\":1}\n"), Some("{\"ok\":1}".to_string()));
    assert_eq!(reply_payload("   \n"), None);
}

#[test]
fn plugin_upsert_defaults() {
    let r = plugin_upsert_request("p".to_string(), None, None, None, None);
    assert_eq!(r.kind, "core");
    assert_eq!(r.version, "dev");
    assert_eq!(r.permissions, "{}");
    assert!(r.enabled);
    let r = plugin_upsert_request("p".to_string(), Some("ui".to_string()), Some("1.0".to_string()), Some("{\"a\":1}".to_string()), Some(false));
    assert_eq!(r.kind, "ui");
    assert!(!r.enabled);
}

#[test]
fn parent_components_cannot_escape_a_root() {
    let mut g = grants(true, true);
    g.fs_target = "/data/../../etc/newfile".to_string();
    assert_eq!(
        check_plugin_call(&env("fs.write", "", "/data/../../etc/newfile"), &g),
        Err("forbidden_fs_root".to_string())
    );
    g.fs_target = "/data/./notes/../b.md".to_string();
    assert_eq!(check_plugin_call(&env("fs.write", "", "/data/./notes/../b.md"), &g), Ok(()));
}

#[test]
fn lexical_normalisation() {
    assert_eq!(normalize_path("/a/b/../c/./d//"), "/a/c/d");
    assert_eq!(normalize_path("/../../etc"), "/etc");
    assert_eq!(normalize_path("a/../../b"), "../b");
    assert_eq!(normalize_path("/"), "/");
    assert_eq!(normalize_path(""), "");
}

#[test]
fn restart_keeps_the_command() {
    let mut reg = PluginRegistry::new();
    spawn_core_plugin(&mut reg, &spec("a"), Ok(1)).unwrap();
    assert_eq!(reg.command_of("a"), Some(("node".to_string(), vec!["plugin.js".to_string()])));
    record_restart(&mut reg, "a", 9);
    assert_eq!(reg.command_of("a"), Some(("node".to_string(), vec!["plugin.js".to_string()])));
    assert_eq!(reg.command_of("zz"), None);
}

#[test]
fn request_lines_must_be_json_rpc_2_with_an_id() {
    let g = grants(true, true);
    assert_eq!(check_plugin_call_line(r#"{"method":"ping"}"#, &g), Err("invalid_request".to_string()));
    assert_eq!(check_plugin_call_line(r#"{"jsonrpc":"2.0","method":"ping"}"#, &g), Err("invalid_request".to_string()));
    assert_eq!(check_plugin_call_line(r#"{"jsonrpc":"1.0","id":1,"method":"ping"}"#, &g), Err("invalid_request".to_string()));
    assert_eq!(check_plugin_call_line("not json", &g), Err("invalid_request".to_string()));
    assert_eq!(check_plugin_call_line(r#"{"jsonrpc":"2.0","id":1,"method":"ping"}"#, &g), Ok(()));
    assert_eq!(check_plugin_call_line(r#"{"method":"ping"}"#, &grants(false, true)), Err("forbidden".to_string()));
    assert_eq!(
        check_plugin_call_line(r#"{"jsonrpc":"2.0","id":"a","method":"net.request","params":{"url":"https://evil.com/"}}"#, &g),
        Err("forbidden_net_domain".to_string())
    );
}

#[test]
fn envelope_fields_of_a_line() {
    let e = call_envelope_of(r#"{"jsonrpc":"2.0","id":7,"method":"fs.read","params":{"path":"/data/a","url":3}}"#).unwrap();
    assert_eq!((e.jsonrpc.as_str(), e.has_id, e.method.as_str(), e.url.as_str(), e.path.as_str()), ("2.0", true, "fs.read", "", "/data/a"));
    assert!(call_envelope_of("{").is_none());
}

#[test]
fn permission_lists_keep_string_entries() {
    let p = r#"{"net":{"domains":["a.com",3,".b.org"]},"fs":{"roots":"/x"}}"#;
    assert_eq!(permission_strings(p, "net", "domains"), vec!["a.com".to_string(), ".b.org".to_string()]);
    assert_eq!(permission_strings(p, "fs", "roots"), Vec::<String>::new());
    assert_eq!(permission_strings("oops", "net", "domains"), Vec::<String>::new());
}

#[test]
fn reply_lines_map_to_results() {
    assert_eq!(plugin_reply("  \n"), Ok("{\"ok\":true}".to_string()));
    assert_eq!(plugin_reply(" {\"result\":1}\n"), Ok("{\"result\":1}".to_string()));
    assert_eq!(plugin_reply(r#"{"error":{"code":1}}"#), Err(r#"rpc_error: {"code":1}"#.to_string()));
    assert!(plugin_reply("nope").unwrap_err().starts_with("json_parse_error: "));
    assert_eq!(reply_outcome("x".to_string(), Err("bad".to_string())), Err("json_parse_error: bad".to_string()));
    assert_eq!(reply_outcome("x".to_string(), Ok(None)), Ok("x".to_string()));
}
