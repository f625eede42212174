use agent_editor::rpc::{repo_name, rpc_method, rpc_reply, search_window, switch_on, RpcMethod};

#[test]
fn known_and_unknown_methods() {
    assert_eq!(rpc_method("repos_add"), Ok(RpcMethod::ReposAdd));
    assert_eq!(rpc_method("graph_path"), Ok(RpcMethod::GraphPath));
    assert_eq!(rpc_method("scan_file"), Ok(RpcMethod::ScanFile));
    assert_eq!(rpc_method("fts_stats"), Ok(RpcMethod::FtsStats));
    assert_eq!(rpc_method("nope"), Err("unknown method: nope".to_string()));
    assert_eq!(rpc_method(""), Err("unknown method: ".to_string()));
}

#[test]
fn replies_carry_result_or_error() {
    let ok = rpc_reply("7".to_string(), Ok::<i32, String>(3));
    assert_eq!(ok.jsonrpc, "2.0");
    assert_eq!(ok.id, "7");
    assert_eq!(ok.result, Some(3));
    assert!(ok.error.is_none());
    let err = rpc_reply::<i32>("8".to_string(), Err("not_found".to_string()));
    assert!(err.result.is_none());
    let e = err.error.unwrap();
    assert_eq!(e.code, -32000);
    assert_eq!(e.message, "not_found");
}

#[test]
fn repo_names_default_to_the_last_component() {
    assert_eq!(repo_name("/home/me/notes", Some("Mine".to_string())), "Mine");
    assert_eq!(repo_name("/home/me/notes", None), "notes");
    assert_eq!(repo_name("/", None), "");
}

#[test]
fn search_defaults_and_switches() {
    assert_eq!(search_window(None, None), (50, 0));
    assert_eq!(search_window(Some(5), Some(10)), (5, 10));
    assert!(switch_on(Some("1")));
    assert!(switch_on(Some("TRUE")));
    assert!(!switch_on(Some("yes")));
    assert!(!switch_on(None));
}
