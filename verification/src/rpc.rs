//! The JSON-RPC 2.0 surface of the sidecar server: which methods it knows, the
//! envelope of its answers, and the small rules its handlers share.
use vstd::prelude::*;
use crate::paths::{path_file_name, path_file_name_result};
use crate::text::{str_eq, str_eq_ignore_ascii_case, eq_ignore_case};

verus! {

/// A method of the RPC surface.
#[derive(Debug, Clone, Copy, PartialEq, Eq, Structural)]
pub enum RpcMethod {
    ReposAdd,
    ReposList,
    ReposInfo,
    ReposRemove,
    ScanRepo,
    DocsCreate,
    DocsUpdate,
    DocsGet,
    DocsDelete,
    ImportDocs,
    Search,
    GraphBacklinks,
    GraphNeighbors,
    GraphRelated,
    GraphPath,
    AiRun,
    AnchorsList,
    AnchorsDelete,
    FtsStats,
    ScanFile,
}

/// The name under which a method is called.
pub open spec fn method_name(m: RpcMethod) -> Seq<char> {
    match m {
        RpcMethod::ReposAdd => "repos_add"@,
        RpcMethod::ReposList => "repos_list"@,
        RpcMethod::ReposInfo => "repos_info"@,
        RpcMethod::ReposRemove => "repos_remove"@,
        RpcMethod::ScanRepo => "scan_repo"@,
        RpcMethod::DocsCreate => "docs_create"@,
        RpcMethod::DocsUpdate => "docs_update"@,
        RpcMethod::DocsGet => "docs_get"@,
        RpcMethod::DocsDelete => "docs_delete"@,
        RpcMethod::ImportDocs => "import_docs"@,
        RpcMethod::Search => "search"@,
        RpcMethod::GraphBacklinks => "graph_backlinks"@,
        RpcMethod::GraphNeighbors => "graph_neighbors"@,
        RpcMethod::GraphRelated => "graph_related"@,
        RpcMethod::GraphPath => "graph_path"@,
        RpcMethod::AiRun => "ai_run"@,
        RpcMethod::AnchorsList => "anchors_list"@,
        RpcMethod::AnchorsDelete => "anchors_delete"@,
        RpcMethod::FtsStats => "fts_stats"@,
        RpcMethod::ScanFile => "scan_file"@,
    }
}

/// Whether a name is that of some method.
pub open spec fn is_method_name(name: Seq<char>) -> bool {
    exists|m: RpcMethod| method_name(m) == name
}

/// The method called by a name; an unknown name is refused with
/// `unknown method: <name>`.
pub fn rpc_method(name: &str) -> (r: Result<RpcMethod, String>)
    ensures
        match r {
            Ok(m) => method_name(m) == name@,
            Err(e) => !is_method_name(name@) && e@ == "unknown method: "@ + name@,
        },
{
    let m = if str_eq(name, "repos_add") {
        RpcMethod::ReposAdd
    } else if str_eq(name, "repos_list") {
        RpcMethod::ReposList
    } else if str_eq(name, "repos_info") {
        RpcMethod::ReposInfo
    } else if str_eq(name, "repos_remove") {
        RpcMethod::ReposRemove
    } else if str_eq(name, "scan_repo") {
        RpcMethod::ScanRepo
    } else if str_eq(name, "docs_create") {
        RpcMethod::DocsCreate
    } else if str_eq(name, "docs_update") {
        RpcMethod::DocsUpdate
    } else if str_eq(name, "docs_get") {
        RpcMethod::DocsGet
    } else if str_eq(name, "docs_delete") {
        RpcMethod::DocsDelete
    } else if str_eq(name, "import_docs") {
        RpcMethod::ImportDocs
    } else if str_eq(name, "search") {
        RpcMethod::Search
    } else if str_eq(name, "graph_backlinks") {
        RpcMethod::GraphBacklinks
    } else if str_eq(name, "graph_neighbors") {
        RpcMethod::GraphNeighbors
    } else if str_eq(name, "graph_related") {
        RpcMethod::GraphRelated
    } else if str_eq(name, "graph_path") {
        RpcMethod::GraphPath
    } else if str_eq(name, "ai_run") {
        RpcMethod::AiRun
    } else if str_eq(name, "anchors_list") {
        RpcMethod::AnchorsList
    } else if str_eq(name, "anchors_delete") {
        RpcMethod::AnchorsDelete
    } else if str_eq(name, "fts_stats") {
        RpcMethod::FtsStats
    } else if str_eq(name, "scan_file") {
        RpcMethod::ScanFile
    } else {
        proof {
            assert forall|m: RpcMethod| method_name(m) != name@ by {
                match m {
                    RpcMethod::ReposAdd => {},
                    RpcMethod::ReposList => {},
                    RpcMethod::ReposInfo => {},
                    RpcMethod::ReposRemove => {},
                    RpcMethod::ScanRepo => {},
                    RpcMethod::DocsCreate => {},
                    RpcMethod::DocsUpdate => {},
                    RpcMethod::DocsGet => {},
                    RpcMethod::DocsDelete => {},
                    RpcMethod::ImportDocs => {},
                    RpcMethod::Search => {},
                    RpcMethod::GraphBacklinks => {},
                    RpcMethod::GraphNeighbors => {},
                    RpcMethod::GraphRelated => {},
                    RpcMethod::GraphPath => {},
                    RpcMethod::AiRun => {},
                    RpcMethod::AnchorsList => {},
                    RpcMethod::AnchorsDelete => {},
                    RpcMethod::FtsStats => {},
                    RpcMethod::ScanFile => {},
                }
            }
        }
        let mut e = "unknown method: ".to_owned();
        e.append(name);
        return Err(e);
    };
    Ok(m)
}

/// Every method has a name of its own, so the method `rpc_method` finds for a
/// name is the only one with that name.
pub proof fn law_method_names_distinct(a: RpcMethod, b: RpcMethod)
    requires
        method_name(a) == method_name(b),
    ensures
        a == b,
{
    reveal_strlit("repos_add");
    reveal_strlit("repos_list");
    reveal_strlit("repos_info");
    reveal_strlit("repos_remove");
    reveal_strlit("scan_repo");
    reveal_strlit("docs_create");
    reveal_strlit("docs_update");
    reveal_strlit("docs_get");
    reveal_strlit("docs_delete");
    reveal_strlit("import_docs");
    reveal_strlit("search");
    reveal_strlit("graph_backlinks");
    reveal_strlit("graph_neighbors");
    reveal_strlit("graph_related");
    reveal_strlit("graph_path");
    reveal_strlit("ai_run");
    reveal_strlit("anchors_list");
    reveal_strlit("anchors_delete");
    reveal_strlit("fts_stats");
    reveal_strlit("scan_file");
    let s = method_name(a);
    assert(s.len() == method_name(b).len());
    if s.len() > 0 {
        assert(s[0] == method_name(b)[0]);
    }
    if s.len() > 5 {
        assert(s[5] == method_name(b)[5]);
        assert(s[6] == method_name(b)[6]);
        assert(s[1] == method_name(b)[1]);
    }
}

/// The dispatch table of the server: each method is called by the name of its
/// handler, so `rpc_method` sends `docs_get` to the handler that reads a
/// document, `docs_delete` to the one that marks it deleted, and so on for
/// every method.
pub proof fn law_method_table(m: RpcMethod)
    ensures
        method_name(m) == "repos_add"@ <==> m == RpcMethod::ReposAdd,
        method_name(m) == "repos_list"@ <==> m == RpcMethod::ReposList,
        method_name(m) == "repos_info"@ <==> m == RpcMethod::ReposInfo,
        method_name(m) == "repos_remove"@ <==> m == RpcMethod::ReposRemove,
        method_name(m) == "scan_repo"@ <==> m == RpcMethod::ScanRepo,
        method_name(m) == "docs_create"@ <==> m == RpcMethod::DocsCreate,
        method_name(m) == "docs_update"@ <==> m == RpcMethod::DocsUpdate,
        method_name(m) == "docs_get"@ <==> m == RpcMethod::DocsGet,
        method_name(m) == "docs_delete"@ <==> m == RpcMethod::DocsDelete,
        method_name(m) == "import_docs"@ <==> m == RpcMethod::ImportDocs,
        method_name(m) == "search"@ <==> m == RpcMethod::Search,
        method_name(m) == "graph_backlinks"@ <==> m == RpcMethod::GraphBacklinks,
        method_name(m) == "graph_neighbors"@ <==> m == RpcMethod::GraphNeighbors,
        method_name(m) == "graph_related"@ <==> m == RpcMethod::GraphRelated,
        method_name(m) == "graph_path"@ <==> m == RpcMethod::GraphPath,
        method_name(m) == "ai_run"@ <==> m == RpcMethod::AiRun,
        method_name(m) == "anchors_list"@ <==> m == RpcMethod::AnchorsList,
        method_name(m) == "anchors_delete"@ <==> m == RpcMethod::AnchorsDelete,
        method_name(m) == "fts_stats"@ <==> m == RpcMethod::FtsStats,
        method_name(m) == "scan_file"@ <==> m == RpcMethod::ScanFile,
{
    if method_name(m) == method_name(RpcMethod::ReposAdd) {
        law_method_names_distinct(m, RpcMethod::ReposAdd);
    }
    if method_name(m) == method_name(RpcMethod::ReposList) {
        law_method_names_distinct(m, RpcMethod::ReposList);
    }
    if method_name(m) == method_name(RpcMethod::ReposInfo) {
        law_method_names_distinct(m, RpcMethod::ReposInfo);
    }
    if method_name(m) == method_name(RpcMethod::ReposRemove) {
        law_method_names_distinct(m, RpcMethod::ReposRemove);
    }
    if method_name(m) == method_name(RpcMethod::ScanRepo) {
        law_method_names_distinct(m, RpcMethod::ScanRepo);
    }
    if method_name(m) == method_name(RpcMethod::DocsCreate) {
        law_method_names_distinct(m, RpcMethod::DocsCreate);
    }
    if method_name(m) == method_name(RpcMethod::DocsUpdate) {
        law_method_names_distinct(m, RpcMethod::DocsUpdate);
    }
    if method_name(m) == method_name(RpcMethod::DocsGet) {
        law_method_names_distinct(m, RpcMethod::DocsGet);
    }
    if method_name(m) == method_name(RpcMethod::DocsDelete) {
        law_method_names_distinct(m, RpcMethod::DocsDelete);
    }
    if method_name(m) == method_name(RpcMethod::ImportDocs) {
        law_method_names_distinct(m, RpcMethod::ImportDocs);
    }
    if method_name(m) == method_name(RpcMethod::Search) {
        law_method_names_distinct(m, RpcMethod::Search);
    }
    if method_name(m) == method_name(RpcMethod::GraphBacklinks) {
        law_method_names_distinct(m, RpcMethod::GraphBacklinks);
    }
    if method_name(m) == method_name(RpcMethod::GraphNeighbors) {
        law_method_names_distinct(m, RpcMethod::GraphNeighbors);
    }
    if method_name(m) == method_name(RpcMethod::GraphRelated) {
        law_method_names_distinct(m, RpcMethod::GraphRelated);
    }
    if method_name(m) == method_name(RpcMethod::GraphPath) {
        law_method_names_distinct(m, RpcMethod::GraphPath);
    }
    if method_name(m) == method_name(RpcMethod::AiRun) {
        law_method_names_distinct(m, RpcMethod::AiRun);
    }
    if method_name(m) == method_name(RpcMethod::AnchorsList) {
        law_method_names_distinct(m, RpcMethod::AnchorsList);
    }
    if method_name(m) == method_name(RpcMethod::AnchorsDelete) {
        law_method_names_distinct(m, RpcMethod::AnchorsDelete);
    }
    if method_name(m) == method_name(RpcMethod::FtsStats) {
        law_method_names_distinct(m, RpcMethod::FtsStats);
    }
    if method_name(m) == method_name(RpcMethod::ScanFile) {
        law_method_names_distinct(m, RpcMethod::ScanFile);
    }
}

/// The error code of every failed call.
pub const RPC_ERROR_CODE: i32 = -32000;

/// The error member of an answer.
#[derive(Debug)]
pub struct RpcError {
    pub code: i32,
    pub message: String,
}

/// A JSON-RPC request: the method, the caller's id and the parameters.
#[derive(Debug)]
pub struct RpcRequest<T> {
    pub jsonrpc: String,
    pub id: String,
    pub method: String,
    pub params: Option<T>,
}

/// A JSON-RPC answer: exactly one of `result` and `error` is present.
#[derive(Debug)]
pub struct RpcReply<T> {
    pub jsonrpc: String,
    pub id: String,
    pub result: Option<T>,
    pub error: Option<RpcError>,
}

/// The answer to the call `id` that ended with `outcome`: its value as the
/// result, or its message under the error code `-32000`.
pub fn rpc_reply<T>(id: String, outcome: Result<T, String>) -> (r: RpcReply<T>)
    ensures
        r.jsonrpc@ == "2.0"@,
        r.id == id,
        match outcome {
            Ok(v) => r.result == Some(v) && r.error is None,
            Err(e) => {
                &&& r.result is None
                &&& r.error matches Some(x) && x.code == -32000 && x.message == e
            },
        },
{
    match outcome {
        Ok(v) => RpcReply { jsonrpc: "2.0".to_owned(), id, result: Some(v), error: None },
        Err(e) => RpcReply {
            jsonrpc: "2.0".to_owned(),
            id,
            result: None,
            error: Some(RpcError { code: RPC_ERROR_CODE, message: e }),
        },
    }
}

/// The name a repository is registered under: the one given, else the last
/// component of its path, else the empty name.
pub fn repo_name(path: &str, name: Option<String>) -> (r: String)
    ensures
        match name {
            Some(n) => r == n,
            None => match path_file_name_result(path@) {
                Some(f) => r@ == f,
                None => r@ == Seq::<char>::empty(),
            },
        },
{
    match name {
        Some(n) => n,
        None => match path_file_name(path) {
            Some(f) => f,
            None => String::new(),
        },
    }
}

/// The rows a search asks for: `limit` (50 by default) from `offset` (0 by default).
pub fn search_window(limit: Option<i64>, offset: Option<i64>) -> (r: (i64, i64))
    ensures
        r.0 == (match limit {
            Some(l) => l,
            None => 50,
        }),
        r.1 == (match offset {
            Some(o) => o,
            None => 0,
        }),
{
    let lim = match limit {
        Some(l) => l,
        None => 50,
    };
    let off = match offset {
        Some(o) => o,
        None => 0,
    };
    (lim, off)
}

/// Whether a switch set in the environment is on: `1`, or `true` in any case.
pub fn switch_on(value: Option<&str>) -> (b: bool)
    ensures
        b == (value matches Some(v) && (v@ == "1"@ || eq_ignore_case(v@, "true"@))),
{
    match value {
        Some(v) => str_eq(v, "1") || str_eq_ignore_ascii_case(v, "true"),
        None => false,
    }
}

} // verus!
