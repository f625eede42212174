//! Core plugins: the capability check of a JSON-RPC call and the registry of
//! running plugin processes with its restart policy.
use vstd::prelude::*;
use crate::num::{parse_u64, parse_unsigned};
use crate::paths::{normalize_path, normalized_path, path_starts_with, path_starts_with_result};
use crate::text::{
    chars_of, eq_ignore_case, find_pair, find_pair_from, has_prefix, has_suffix, prefix_before,
    slice_vec, str_ends_with, str_eq, str_eq_ignore_ascii_case, str_starts_with, string_of, trim,
    trim_vec,
};
use crate::text::find_char;

verus! {

// ===== Capabilities =====

/// Capabilities granted to a core plugin.
pub struct Capabilities {
    /// Allowed read roots.
    pub fs_roots: Vec<String>,
    /// Allowed network domains.
    pub net_domains: Vec<String>,
    pub db_read: bool,
    pub db_write: bool,
    pub ai_providers: Vec<String>,
}

/// How to start a core plugin process.
pub struct CorePluginSpec {
    pub name: String,
    pub executable: String,
    pub args: Vec<String>,
    pub env: Vec<(String, String)>,
    pub caps: Capabilities,
}

/// A started core plugin.
#[derive(Debug)]
pub struct CorePluginHandle {
    pub name: String,
}

/// The permission (a JSON path into the plugin's permissions) a method needs.
pub open spec fn permission_for(method: Seq<char>) -> Option<Seq<char>> {
    if has_prefix(method, "fs.write"@) {
        Some("$.fs.write"@)
    } else if has_prefix(method, "fs."@) {
        Some("$.fs.read"@)
    } else if has_prefix(method, "net.request"@) {
        Some("$.net.request"@)
    } else if has_prefix(method, "db.write"@) {
        Some("$.db.write"@)
    } else if has_prefix(method, "db."@) {
        Some("$.db.query"@)
    } else if has_prefix(method, "ai.invoke"@) {
        Some("$.ai.invoke"@)
    } else if has_prefix(method, "scanner.register"@) {
        Some("$.scanner.register"@)
    } else {
        None
    }
}

/// The permission a JSON-RPC method needs, if any (see `permission_for`).
pub fn required_permission(method: &str) -> (r: Option<String>)
    ensures
        match r {
            Some(k) => permission_for(method@) == Some(k@),
            None => permission_for(method@) is None,
        },
{
    if str_starts_with(method, "fs.write") {
        Some("$.fs.write".to_owned())
    } else if str_starts_with(method, "fs.") {
        Some("$.fs.read".to_owned())
    } else if str_starts_with(method, "net.request") {
        Some("$.net.request".to_owned())
    } else if str_starts_with(method, "db.write") {
        Some("$.db.write".to_owned())
    } else if str_starts_with(method, "db.") {
        Some("$.db.query".to_owned())
    } else if str_starts_with(method, "ai.invoke") {
        Some("$.ai.invoke".to_owned())
    } else if str_starts_with(method, "scanner.register") {
        Some("$.scanner.register".to_owned())
    } else {
        None
    }
}

/// The host of a URL: after the first `//`, up to the next `/`, without a `:port`;
/// a text without `//` is taken whole.
pub open spec fn url_host_spec(url: Seq<char>) -> Seq<char> {
    let k = find_pair_from(url, '/', '/', 0);
    if k < 0 {
        url
    } else {
        prefix_before(prefix_before(url.skip(k + 2), '/'), ':')
    }
}

/// The host a plugin's network request is addressed to (see `url_host_spec`).
pub fn url_host(url: &str) -> (r: String)
    ensures
        r@ == url_host_spec(url@),
{
    let v = chars_of(url);
    match find_pair(&v, '/', '/', 0) {
        None => url.to_owned(),
        Some(k) => {
            assert(k + 1 < v.len());
            let rest = slice_vec(&v, k + 2, v.len());
            assert(rest@ =~= v@.skip(k + 2));
            let a = match find_char(&rest, '/', 0) {
                Some(j) => slice_vec(&rest, 0, j),
                None => slice_vec(&rest, 0, rest.len()),
            };
            assert(a@ =~= prefix_before(rest@, '/'));
            let b = match find_char(&a, ':', 0) {
                Some(j) => slice_vec(&a, 0, j),
                None => slice_vec(&a, 0, a.len()),
            };
            assert(b@ =~= prefix_before(a@, ':'));
            string_of(&b)
        },
    }
}

/// Whether an allowed domain admits a host: the same name up to ASCII case, or
/// a `.suffix` domain that the host ends with.
pub open spec fn domain_admits(host: Seq<char>, dom: Seq<char>) -> bool {
    eq_ignore_case(host, dom) || (dom.len() > 0 && dom[0] == '.' && has_suffix(host, dom))
}

/// Whether an allowed domain admits a host (see `domain_admits`).
pub fn domain_allows(host: &str, dom: &str) -> (b: bool)
    ensures
        b == domain_admits(host@, dom@),
{
    if str_eq_ignore_ascii_case(host, dom) {
        return true;
    }
    let d = chars_of(dom);
    d.len() > 0 && d[0] == '.' && str_ends_with(host, dom)
}

/// The parts of a JSON-RPC request line that the capability check reads:
/// `jsonrpc`, whether an `id` is present, `method`, `params.url` and
/// `params.path`; each text is empty when missing or not a string.
pub struct CallEnvelope {
    pub jsonrpc: String,
    pub has_id: bool,
    pub method: String,
    pub url: String,
    pub path: String,
}

/// What `serde_json::from_str::<Value>` makes of a request line, read as
/// `(jsonrpc, has id, method, params.url, params.path)`: `None` when the line is
/// not JSON.
pub uninterp spec fn json_call_fields(line: Seq<char>) -> Option<(Seq<char>, bool, Seq<char>, Seq<char>, Seq<char>)>;

/// `serde_json::from_str::<serde_json::Value>(line)`, then the string members
/// `jsonrpc`, `method`, `params.url`, `params.path` (empty when missing or not
/// strings) and whether `id` is present. The contract names the result.
#[verifier::external_body]
fn parse_call_envelope(line: &str) -> (r: Option<CallEnvelope>)
    ensures
        envelope_view(r) == json_call_fields(line@),
{
    serde_json::from_str::<serde_json::Value>(line).ok().map(|v| {
        let text = |x: Option<&serde_json::Value>| x.and_then(|s| s.as_str()).unwrap_or("").to_string();
        let params = v.get("params");
        CallEnvelope {
            jsonrpc: text(v.get("jsonrpc")),
            has_id: v.get("id").is_some(),
            method: text(v.get("method")),
            url: text(params.and_then(|p| p.get("url"))),
            path: text(params.and_then(|p| p.get("path"))),
        }
    })
}

/// The envelope of a request line (see `json_call_fields`); `None` when the line
/// is not JSON.
pub fn call_envelope_of(line: &str) -> (r: Option<CallEnvelope>)
    ensures
        envelope_view(r) == json_call_fields(line@),
{
    parse_call_envelope(line)
}

/// What the capability check of a plugin call knows besides the request.
pub struct CallGrants {
    /// The plugin is enabled and its permissions hold `core.call = 1`.
    pub core_call: bool,
    /// The plugin is enabled and the permission the method needs is 1
    /// (read only when the method needs one).
    pub method_allowed: bool,
    /// The string entries of the plugin's `net.domains`.
    pub net_domains: Vec<String>,
    /// The plugin's `fs.roots`, canonicalized where possible (`..` is
    /// resolved lexically before the test in any case).
    pub fs_roots: Vec<String>,
    /// The requested path, canonicalized where possible (`..` is resolved
    /// lexically before the test in any case).
    pub fs_target: String,
}

/// The decision on a plugin call: the first refusal that applies, in the order
/// `forbidden` (no `core.call`), `invalid_request` (not JSON, `jsonrpc` other
/// than `2.0`, no `id`, or no method),
/// `forbidden` (method permission), `forbidden_net_domain`, `forbidden_fs_root`.
/// The path test compares the target with each root after `..` and `.` are
/// resolved lexically in both (see `normalized_path`).
pub open spec fn call_decision(
    core_call: bool,
    env: Option<(Seq<char>, bool, Seq<char>, Seq<char>, Seq<char>)>,
    method_allowed: bool,
    domains: Seq<Seq<char>>,
    roots: Seq<Seq<char>>,
    target: Seq<char>,
) -> Result<(), Seq<char>> {
    if !core_call {
        Err("forbidden"@)
    } else {
        match env {
            None => Err("invalid_request"@),
            Some((jsonrpc, has_id, method, url, path)) => if jsonrpc != "2.0"@ || !has_id
                || method.len() == 0 {
                Err("invalid_request"@)
            } else if permission_for(method) is Some && !method_allowed {
                Err("forbidden"@)
            } else if has_prefix(method, "net.request"@) && url.len() > 0 && !(exists|i: int|
                0 <= i < domains.len() && domain_admits(url_host_spec(url), domains[i])) {
                Err("forbidden_net_domain"@)
            } else if has_prefix(method, "fs."@) && path.len() > 0 && !(exists|i: int|
                0 <= i < roots.len() && path_starts_with_result(
                    normalized_path(target),
                    normalized_path(roots[i]),
                )) {
                Err("forbidden_fs_root"@)
            } else {
                Ok(())
            },
        }
    }
}

/// The views of a list of strings.
pub open spec fn string_views(v: Seq<String>) -> Seq<Seq<char>> {
    v.map_values(|s: String| s@)
}

/// The view of an envelope.
pub open spec fn envelope_view(e: Option<CallEnvelope>) -> Option<(Seq<char>, bool, Seq<char>, Seq<char>, Seq<char>)> {
    match e {
        Some(x) => Some((x.jsonrpc@, x.has_id, x.method@, x.url@, x.path@)),
        None => None,
    }
}

/// Decides whether a plugin call may go through (see `call_decision`);
/// `envelope` is `None` when the request line is not JSON.
pub fn check_plugin_call(envelope: &Option<CallEnvelope>, grants: &CallGrants) -> (r: Result<
    (),
    String,
>)
    ensures
        match r {
            Ok(()) => call_decision(
                grants.core_call,
                envelope_view(*envelope),
                grants.method_allowed,
                string_views(grants.net_domains@),
                string_views(grants.fs_roots@),
                grants.fs_target@,
            ) is Ok,
            Err(m) => call_decision(
                grants.core_call,
                envelope_view(*envelope),
                grants.method_allowed,
                string_views(grants.net_domains@),
                string_views(grants.fs_roots@),
                grants.fs_target@,
            ) == Err::<(), Seq<char>>(m@),
        },
{
    if !grants.core_call {
        return Err("forbidden".to_owned());
    }
    let env = match envelope {
        None => {
            return Err("invalid_request".to_owned());
        },
        Some(e) => e,
    };
    if !str_eq(env.jsonrpc.as_str(), "2.0") || !env.has_id || env.method.as_str().is_empty() {
        return Err("invalid_request".to_owned());
    }
    let needs = required_permission(env.method.as_str());
    if needs.is_some() && !grants.method_allowed {
        return Err("forbidden".to_owned());
    }
    if str_starts_with(env.method.as_str(), "net.request") && !env.url.as_str().is_empty() {
        let host = url_host(env.url.as_str());
        let mut allowed = false;
        let mut i: usize = 0;
        while i < grants.net_domains.len()
            invariant
                i <= grants.net_domains.len(),
                host@ == url_host_spec(env.url@),
                allowed == (exists|k: int|
                    0 <= k < i && domain_admits(
                        url_host_spec(env.url@),
                        string_views(grants.net_domains@)[k],
                    )),
            decreases grants.net_domains.len() - i,
        {
            if domain_allows(host.as_str(), grants.net_domains[i].as_str()) {
                allowed = true;
            }
            assert(string_views(grants.net_domains@)[i as int] == grants.net_domains@[i as int]@);
            i += 1;
        }
        if !allowed {
            return Err("forbidden_net_domain".to_owned());
        }
    }
    if str_starts_with(env.method.as_str(), "fs.") && !env.path.as_str().is_empty() {
        let target = normalize_path(grants.fs_target.as_str());
        let mut allowed = false;
        let mut i: usize = 0;
        while i < grants.fs_roots.len()
            invariant
                i <= grants.fs_roots.len(),
                target@ == normalized_path(grants.fs_target@),
                allowed == (exists|k: int|
                    0 <= k < i && path_starts_with_result(
                        normalized_path(grants.fs_target@),
                        normalized_path(string_views(grants.fs_roots@)[k]),
                    )),
            decreases grants.fs_roots.len() - i,
        {
            let root = normalize_path(grants.fs_roots[i].as_str());
            if path_starts_with(target.as_str(), root.as_str()) {
                allowed = true;
            }
            assert(string_views(grants.fs_roots@)[i as int] == grants.fs_roots@[i as int]@);
            i += 1;
        }
        if !allowed {
            return Err("forbidden_fs_root".to_owned());
        }
    }
    Ok(())
}

/// Decides whether a plugin call given as a request line may go through: the
/// line is read as JSON (see `json_call_fields`) and judged by `call_decision`.
pub fn check_plugin_call_line(line: &str, grants: &CallGrants) -> (r: Result<(), String>)
    ensures
        match r {
            Ok(()) => call_decision(
                grants.core_call,
                json_call_fields(line@),
                grants.method_allowed,
                string_views(grants.net_domains@),
                string_views(grants.fs_roots@),
                grants.fs_target@,
            ) is Ok,
            Err(m) => call_decision(
                grants.core_call,
                json_call_fields(line@),
                grants.method_allowed,
                string_views(grants.net_domains@),
                string_views(grants.fs_roots@),
                grants.fs_target@,
            ) == Err::<(), Seq<char>>(m@),
        },
{
    let env = parse_call_envelope(line);
    check_plugin_call(&env, grants)
}

/// What `serde_json::from_str::<Value>` makes of a plugin's permissions: the
/// entries of the array at `section.field`, each as a text when it is a string;
/// `None` when the permissions are not JSON or hold no such array.
pub uninterp spec fn json_permission_entries(permissions: Seq<char>, section: Seq<char>, field: Seq<char>) -> Option<Seq<Option<Seq<char>>>>;

/// The view of a list of optional strings.
pub open spec fn opt_views(v: Seq<Option<String>>) -> Seq<Option<Seq<char>>> {
    v.map_values(|o: Option<String>| match o {
        Some(s) => Some(s@),
        None => None,
    })
}

/// `serde_json::from_str::<serde_json::Value>(permissions)`, then the array at
/// `section.field` with each entry as a string when it is one. The contract
/// names the result.
#[verifier::external_body]
fn permission_entries(permissions: &str, section: &str, field: &str) -> (r: Option<Vec<Option<String>>>)
    ensures
        match r {
            Some(v) => json_permission_entries(permissions@, section@, field@) == Some(opt_views(v@)),
            None => json_permission_entries(permissions@, section@, field@) is None,
        },
{
    serde_json::from_str::<serde_json::Value>(permissions).ok().and_then(|v| {
        v.get(section).and_then(|s| s.get(field)).and_then(|a| a.as_array()).map(|a| {
            a.iter().map(|d| d.as_str().map(|x| x.to_string())).collect()
        })
    })
}

/// The string entries, in order.
pub open spec fn kept_strings(es: Seq<Option<Seq<char>>>) -> Seq<Seq<char>>
    decreases es.len(),
{
    if es.len() == 0 {
        seq![]
    } else {
        kept_strings(es.drop_last()) + match es.last() {
            Some(x) => seq![x],
            None => Seq::<Seq<char>>::empty(),
        }
    }
}

/// The string entries of the array at `section.field` of a plugin's permissions
/// (such as `net.domains` or `fs.roots`); none when there is no such array.
pub fn permission_strings(permissions: &str, section: &str, field: &str) -> (r: Vec<String>)
    ensures
        string_views(r@) == (match json_permission_entries(permissions@, section@, field@) {
            Some(es) => kept_strings(es),
            None => Seq::<Seq<char>>::empty(),
        }),
{
    let mut out: Vec<String> = Vec::new();
    match permission_entries(permissions, section, field) {
        None => {
            assert(string_views(out@) =~= Seq::<Seq<char>>::empty());
            out
        },
        Some(entries) => {
            let ghost es = opt_views(entries@);
            let mut i: usize = 0;
            assert(es.take(0) =~= Seq::<Option<Seq<char>>>::empty());
            assert(string_views(out@) =~= Seq::<Seq<char>>::empty());
            while i < entries.len()
                invariant
                    i <= entries.len(),
                    es == opt_views(entries@),
                    string_views(out@) == kept_strings(es.take(i as int)),
                decreases entries.len() - i,
            {
                let ghost before = string_views(out@);
                assert(es.take(i + 1).drop_last() =~= es.take(i as int));
                assert(es.take(i + 1).last() == es[i as int]);
                match &entries[i] {
                    Some(x) => {
                        out.push(x.clone());
                        assert(string_views(out@) =~= before + seq![x@]);
                    },
                    None => {
                        assert(string_views(out@) =~= before + Seq::<Seq<char>>::empty());
                    },
                }
                i += 1;
            }
            assert(es.take(entries.len() as int) =~= es);
            out
        },
    }
}

// ===== Registry of running core plugins =====

/// How many times a plugin that exited is restarted before calls give up.
pub const MAX_RESTARTS: u32 = 3;

/// The delay before the first restart; each further restart doubles it.
pub const BACKOFF_MS: u64 = 200;

/// The delay before restart number `count + 1`: `BACKOFF_MS * 2^count`.
pub open spec fn restart_backoff(count: nat) -> int
    decreases count,
{
    if count == 0 {
        BACKOFF_MS as int
    } else {
        2 * restart_backoff((count - 1) as nat)
    }
}

/// A running core plugin process as the registry records it.
pub struct PluginProcessInfo {
    pub name: String,
    pub pid: u32,
    pub executable: String,
    pub args: Vec<String>,
    pub restart_count: u32,
}

/// The running core plugins, each name at most once.
pub struct PluginRegistry {
    entries: Vec<PluginProcessInfo>,
}

/// A registry entry seen as `(name, pid, restart_count, executable, args)`.
pub type PluginView = (Seq<char>, u32, u32, Seq<char>, Seq<Seq<char>>);

/// Whether a plugin of this name is registered.
pub open spec fn registered(v: Seq<PluginView>, name: Seq<char>) -> bool {
    exists|i: int| 0 <= i < v.len() && v[i].0 == name
}

/// The entry of a registered plugin.
pub open spec fn entry_of(v: Seq<PluginView>, name: Seq<char>) -> PluginView {
    v[choose|i: int| 0 <= i < v.len() && v[i].0 == name]
}

/// The entries of a registry view other than the one named `name`, in order.
pub open spec fn without(v: Seq<PluginView>, name: Seq<char>) -> Seq<PluginView>
    decreases v.len(),
{
    if v.len() == 0 {
        v
    } else if v.last().0 == name {
        without(v.drop_last(), name)
    } else {
        without(v.drop_last(), name).push(v.last())
    }
}

/// Whether the names of a registry view are distinct.
pub open spec fn distinct_names(v: Seq<PluginView>) -> bool {
    forall|i: int, j: int| 0 <= i < j < v.len() ==> v[i].0 != v[j].0
}

proof fn lemma_without_absent(v: Seq<PluginView>, name: Seq<char>)
    requires
        !registered(v, name),
    ensures
        without(v, name) == v,
    decreases v.len(),
{
    if v.len() > 0 {
        assert(!registered(v.drop_last(), name)) by {
            if registered(v.drop_last(), name) {
                let k = choose|k: int| 0 <= k < v.drop_last().len() && v.drop_last()[k].0 == name;
                assert(v[k].0 == name);
            }
        }
        assert(v.last().0 != name) by {
            assert(v[v.len() - 1].0 == v.last().0);
        }
        lemma_without_absent(v.drop_last(), name);
        assert(v.drop_last().push(v.last()) =~= v);
    }
}

proof fn lemma_without_at(v: Seq<PluginView>, name: Seq<char>, i: int)
    requires
        distinct_names(v),
        0 <= i < v.len(),
        v[i].0 == name,
    ensures
        without(v, name) == v.remove(i),
    decreases v.len(),
{
    let n = v.len() - 1;
    if i == n {
        assert(!registered(v.drop_last(), name)) by {
            if registered(v.drop_last(), name) {
                let k = choose|k: int| 0 <= k < v.drop_last().len() && v.drop_last()[k].0 == name;
                assert(v[k].0 != v[n].0);
            }
        }
        lemma_without_absent(v.drop_last(), name);
        assert(v.remove(i) =~= v.drop_last());
    } else {
        assert(v.last().0 != name) by {
            assert(v[i].0 != v[n].0);
        }
        lemma_without_at(v.drop_last(), name, i);
        assert(v.drop_last().remove(i).push(v.last()) =~= v.remove(i));
    }
}

/// Stopping a plugin undoes starting it: when a plugin that was not registered
/// is started with process id `pid`, stopping it by name answers `pid` and leaves
/// the registry as it was before the start.
pub proof fn law_shutdown_undoes_spawn(
    v: Seq<PluginView>,
    name: Seq<char>,
    pid: u32,
    executable: Seq<char>,
    args: Seq<Seq<char>>,
)
    requires
        !registered(v, name),
    ensures
        registered(v.push((name, pid, 0u32, executable, args)), name),
        entry_of(v.push((name, pid, 0u32, executable, args)), name).1 == pid,
        without(v.push((name, pid, 0u32, executable, args)), name) == v,
{
    let w = v.push((name, pid, 0u32, executable, args));
    assert(w[v.len() as int].0 == name);
    let c = choose|k: int| 0 <= k < w.len() && w[k].0 == name;
    if c != v.len() {
        assert(v[c].0 == name);
    }
    lemma_without_absent(v, name);
    assert(w.drop_last() =~= v);
}

impl View for PluginRegistry {
    type V = Seq<PluginView>;

    closed spec fn view(&self) -> Seq<PluginView> {
        self.entries@.map_values(
            |e: PluginProcessInfo| (e.name@, e.pid, e.restart_count, e.executable@, string_views(e.args@)),
        )
    }
}

impl PluginRegistry {
    #[verifier::type_invariant]
    spec fn inv(self) -> bool {
        &&& forall|i: int, j: int|
            0 <= i < j < self.entries@.len() ==> self.entries@[i].name@ != self.entries@[j].name@
        &&& forall|i: int|
            0 <= i < self.entries@.len() ==> self.entries@[i].restart_count <= MAX_RESTARTS
    }

    /// An empty registry.
    pub fn new() -> (r: PluginRegistry)
        ensures
            r@ == Seq::<PluginView>::empty(),
    {
        let r = PluginRegistry { entries: Vec::new() };
        assert(r@ =~= Seq::<PluginView>::empty());
        r
    }

    /// The position of a plugin in the registry.
    fn position(&self, name: &str) -> (r: Option<usize>)
        ensures
            match r {
                Some(i) => i < self@.len() && self@[i as int].0 == name@,
                None => !registered(self@, name@),
            },
    {
        let mut i: usize = 0;
        while i < self.entries.len()
            invariant
                i <= self.entries.len(),
                forall|k: int| 0 <= k < i ==> self@[k].0 != name@,
            decreases self.entries.len() - i,
        {
            if str_eq(self.entries[i].name.as_str(), name) {
                return Some(i);
            }
            i += 1;
        }
        None
    }

    /// The executable and arguments a registered plugin was started with, which
    /// a restart uses again; `None` when no plugin of this name is registered.
    pub fn command_of(&self, name: &str) -> (r: Option<(String, Vec<String>)>)
        ensures
            match r {
                Some((exe, args)) => registered(self@, name@) && exe@ == entry_of(self@, name@).3
                    && string_views(args@) == entry_of(self@, name@).4,
                None => !registered(self@, name@),
            },
    {
        proof {
            use_type_invariant(self);
        }
        match self.position(name) {
            None => None,
            Some(i) => {
                proof {
                    let c = choose|k: int| 0 <= k < self@.len() && self@[k].0 == name@;
                    if c != i {
                        if c < i {
                            assert(self.entries@[c].name@ != self.entries@[i as int].name@);
                        } else {
                            assert(self.entries@[i as int].name@ != self.entries@[c].name@);
                        }
                    }
                }
                let e = &self.entries[i];
                let args = e.args.clone();
                assert(args@ =~= e.args@);
                Some((e.executable.clone(), args))
            },
        }
    }

    /// Whether a plugin of this name is running.
    pub fn is_running(&self, name: &str) -> (b: bool)
        ensures
            b == registered(self@, name@),
    {
        self.position(name).is_some()
    }

    /// The registry entries in order: name, pid and restart count.
    pub fn entries(&self) -> (r: Vec<(String, u32)>)
        ensures
            r@.len() == self@.len(),
            forall|i: int| 0 <= i < r@.len() ==> r@[i].0@ == self@[i].0 && r@[i].1 == self@[i].1,
    {
        let mut r: Vec<(String, u32)> = Vec::new();
        let mut i: usize = 0;
        while i < self.entries.len()
            invariant
                i <= self.entries.len(),
                r@.len() == i,
                forall|k: int| 0 <= k < i ==> r@[k].0@ == self@[k].0 && r@[k].1 == self@[k].1,
            decreases self.entries.len() - i,
        {
            r.push((self.entries[i].name.clone(), self.entries[i].pid));
            i += 1;
        }
        r
    }
}

/// Registers a core plugin whose process was started (`spawned` is its pid, or
/// the error of starting it). A name already running is refused with
/// `already_running`; a failed start changes nothing.
pub fn spawn_core_plugin(
    registry: &mut PluginRegistry,
    spec: &CorePluginSpec,
    spawned: Result<u32, String>,
) -> (r: Result<CorePluginHandle, String>)
    ensures
        registered(old(registry)@, spec.name@) ==> {
            &&& r matches Err(m) && m@ == "already_running"@
            &&& final(registry)@ == old(registry)@
        },
        !registered(old(registry)@, spec.name@) ==> match spawned {
            Err(e) => r matches Err(m) && m@ == e@ && final(registry)@ == old(registry)@,
            Ok(pid) => {
                &&& r matches Ok(h) && h.name@ == spec.name@
                &&& final(registry)@ == old(registry)@.push(
                    (spec.name@, pid, 0u32, spec.executable@, string_views(spec.args@)),
                )
            },
        },
{
    proof {
        use_type_invariant(&*registry);
    }
    if registry.is_running(spec.name.as_str()) {
        return Err("already_running".to_owned());
    }
    match spawned {
        Err(e) => Err(e),
        Ok(pid) => {
            let ghost before = registry@;
            let info = PluginProcessInfo {
                name: spec.name.clone(),
                pid,
                executable: spec.executable.clone(),
                args: spec.args.clone(),
                restart_count: 0,
            };
            let mut entries: Vec<PluginProcessInfo> = Vec::new();
            std::mem::swap(&mut entries, &mut registry.entries);
            proof {
                assert forall|i: int| 0 <= i < entries@.len() implies entries@[i].name@
                    != spec.name@ by {
                    assert(before[i].0 == entries@[i].name@);
                }
            }
            entries.push(info);
            registry.entries = entries;
            assert(registry@ =~= before.push(
                (spec.name@, pid, 0u32, spec.executable@, string_views(spec.args@)),
            ));
            Ok(CorePluginHandle { name: spec.name.clone() })
        },
    }
}

/// Removes a core plugin from the registry so its process can be stopped;
/// gives its pid, or `not_found` when no plugin of that name is running.
pub fn shutdown_core_plugin(registry: &mut PluginRegistry, name: &str) -> (r: Result<u32, String>)
    ensures
        !registered(old(registry)@, name@) ==> {
            &&& r matches Err(m) && m@ == "not_found"@
            &&& final(registry)@ == old(registry)@
        },
        final(registry)@ == without(old(registry)@, name@),
        registered(old(registry)@, name@) ==> {
            &&& r matches Ok(pid) && pid == entry_of(old(registry)@, name@).1
            &&& !registered(final(registry)@, name@)
            &&& forall|n: Seq<char>|
                n != name@ ==> (registered(final(registry)@, n) == registered(old(registry)@, n))
        },
{
    proof {
        use_type_invariant(&*registry);
    }
    let ghost before = registry@;
    match registry.position(name) {
        None => {
            proof {
                lemma_without_absent(before, name@);
            }
            Err("not_found".to_owned())
        },
        Some(i) => {
            let mut entries: Vec<PluginProcessInfo> = Vec::new();
            std::mem::swap(&mut entries, &mut registry.entries);
            let ghost old_entries = entries@;
            let removed = entries.remove(i);
            proof {
                assert forall|a: int, b: int|
                    0 <= a < b < entries@.len() implies entries@[a].name@ != entries@[b].name@ by {
                    let a0 = if a < i { a } else { a + 1 };
                    let b0 = if b < i { b } else { b + 1 };
                    assert(entries@[a] == old_entries[a0]);
                    assert(entries@[b] == old_entries[b0]);
                }
            }
            registry.entries = entries;
            let ghost after = registry@;
            proof {
                assert(after =~= before.remove(i as int));
                assert(distinct_names(before)) by {
                    assert forall|a: int, b: int| 0 <= a < b < before.len() implies before[a].0
                        != before[b].0 by {
                        assert(old_entries[a].name@ != old_entries[b].name@);
                    }
                }
                lemma_without_at(before, name@, i as int);
                let c = choose|k: int| 0 <= k < before.len() && before[k].0 == name@;
                assert(c == i) by {
                    if c != i {
                        if c < i {
                            assert(old_entries[c].name@ != old_entries[i as int].name@);
                        } else {
                            assert(old_entries[i as int].name@ != old_entries[c].name@);
                        }
                    }
                }
                assert forall|k: int| 0 <= k < after.len() implies after[k].0 != name@ by {
                    let k0 = if k < i { k } else { k + 1 };
                    assert(after[k] == before[k0]);
                    if k0 < i {
                        assert(old_entries[k0].name@ != old_entries[i as int].name@);
                    } else {
                        assert(old_entries[i as int].name@ != old_entries[k0].name@);
                    }
                }
                assert forall|n: Seq<char>| n != name@ implies (registered(after, n) == registered(
                    before,
                    n,
                )) by {
                    if registered(before, n) {
                        let k0 = choose|k: int| 0 <= k < before.len() && before[k].0 == n;
                        let k = if k0 < i { k0 } else { k0 - 1 };
                        assert(after[k] == before[k0]);
                    }
                    if registered(after, n) {
                        let k = choose|k: int| 0 <= k < after.len() && after[k].0 == n;
                        let k0 = if k < i { k } else { k + 1 };
                        assert(after[k] == before[k0]);
                    }
                }
            }
            Ok(removed.pid)
        },
    }
}

/// Whether a listed plugin shows a registry entry and its liveness.
pub open spec fn listed(item: (String, u32, bool), entry: PluginView, exited: bool) -> bool {
    item.0@ == entry.0 && item.1 == entry.1 && item.2 == !exited
}

/// The running core plugins as `(name, pid, running)`; `exited[i]` tells whether
/// the process of the `i`-th entry has exited.
pub fn list_core_plugins(registry: &PluginRegistry, exited: &Vec<bool>) -> (r: Vec<
    (String, u32, bool),
>)
    requires
        exited@.len() == registry@.len(),
    ensures
        r@.len() == registry@.len(),
        forall|i: int| 0 <= i < r@.len() ==> listed(r@[i], registry@[i], exited@[i]),
{
    let entries = registry.entries();
    let mut r: Vec<(String, u32, bool)> = Vec::new();
    let mut i: usize = 0;
    while i < entries.len()
        invariant
            i <= entries.len(),
            entries@.len() == registry@.len(),
            exited@.len() == registry@.len(),
            forall|k: int|
                0 <= k < entries@.len() ==> entries@[k].0@ == registry@[k].0 && entries@[k].1
                    == registry@[k].1,
            r@.len() == i,
            forall|k: int| 0 <= k < i ==> listed(r@[k], registry@[k], exited@[k]),
        decreases entries.len() - i,
    {
        let name = entries[i].0.clone();
        let running = !exited[i];
        let ghost before = r@;
        r.push((name, entries[i].1, running));
        assert(r@ == before.push((name, entries@[i as int].1, running)));
        assert(listed(r@[i as int], registry@[i as int], exited@[i as int]));
        i += 1;
    }
    r
}

/// What a call to a core plugin does first.
#[derive(Debug)]
pub enum CallPlan {
    /// No plugin of that name is running: the call fails with `not_found`.
    NotFound,
    /// The process is alive: send the request.
    Proceed,
    /// The process exited: wait this long, start it again, then send the request.
    Restart { backoff_ms: u64 },
    /// The process exited too often: the call fails with `max_restarts_exceeded`.
    GiveUp,
}

/// Plans a call to a core plugin whose process has (`exited`) or has not exited:
/// an exited process is restarted while it has been restarted fewer than
/// `MAX_RESTARTS` times, after `BACKOFF_MS * 2^restarts` milliseconds.
pub fn plan_call(registry: &PluginRegistry, name: &str, exited: bool) -> (p: CallPlan)
    ensures
        !registered(registry@, name@) ==> p is NotFound,
        registered(registry@, name@) ==> {
            let count = entry_of(registry@, name@).2;
            if !exited {
                p is Proceed
            } else if count < MAX_RESTARTS {
                p matches CallPlan::Restart { backoff_ms } && backoff_ms == restart_backoff(
                    count as nat,
                )
            } else {
                p is GiveUp
            }
        },
{
    proof {
        use_type_invariant(registry);
    }
    match registry.position(name) {
        None => CallPlan::NotFound,
        Some(i) => {
            let ghost c = choose|k: int| 0 <= k < registry@.len() && registry@[k].0 == name@;
            proof {
                if c != i {
                    if c < i {
                        assert(registry.entries@[c].name@ != registry.entries@[i as int].name@);
                    } else {
                        assert(registry.entries@[i as int].name@ != registry.entries@[c].name@);
                    }
                }
            }
            if !exited {
                return CallPlan::Proceed;
            }
            let count = registry.entries[i].restart_count;
            if count < MAX_RESTARTS {
                let mut backoff: u64 = BACKOFF_MS;
                let mut k: u32 = 0;
                while k < count
                    invariant
                        k <= count < MAX_RESTARTS,
                        backoff == restart_backoff(k as nat),
                        backoff <= BACKOFF_MS * 4,
                    decreases count - k,
                {
                    backoff = backoff * 2;
                    k += 1;
                    assert(restart_backoff(k as nat) == 2 * restart_backoff((k - 1) as nat));
                    assert(backoff <= BACKOFF_MS * 4) by {
                        assert(k <= 2);
                        lemma_backoff_small(k as nat);
                    }
                }
                CallPlan::Restart { backoff_ms: backoff }
            } else {
                CallPlan::GiveUp
            }
        },
    }
}

proof fn lemma_backoff_small(k: nat)
    requires
        k <= 2,
    ensures
        restart_backoff(k) <= BACKOFF_MS * 4,
{
    reveal_with_fuel(restart_backoff, 3);
}

/// Records that the process of a running plugin was started again with a new pid.
pub fn record_restart(registry: &mut PluginRegistry, name: &str, pid: u32)
    requires
        registered(old(registry)@, name@),
        entry_of(old(registry)@, name@).2 < MAX_RESTARTS,
    ensures
        final(registry)@.len() == old(registry)@.len(),
        forall|n: Seq<char>| registered(final(registry)@, n) == registered(old(registry)@, n),
        entry_of(final(registry)@, name@) == (
            name@,
            pid,
            (entry_of(old(registry)@, name@).2 + 1) as u32,
            entry_of(old(registry)@, name@).3,
            entry_of(old(registry)@, name@).4,
        ),
        forall|n: Seq<char>|
            n != name@ && registered(old(registry)@, n) ==> entry_of(final(registry)@, n)
                == entry_of(old(registry)@, n),
{
    proof {
        use_type_invariant(&*registry);
    }
    let ghost before = registry@;
    let i = match registry.position(name) {
        Some(i) => i,
        None => {
            return;
        },
    };
    let mut entries: Vec<PluginProcessInfo> = Vec::new();
    std::mem::swap(&mut entries, &mut registry.entries);
    let ghost old_entries = entries@;
    proof {
        let c = choose|k: int| 0 <= k < before.len() && before[k].0 == name@;
        if c != i {
            if c < i {
                assert(old_entries[c].name@ != old_entries[i as int].name@);
            } else {
                assert(old_entries[i as int].name@ != old_entries[c].name@);
            }
        }
    }
    let mut e = entries.remove(i);
    e.pid = pid;
    e.restart_count = e.restart_count + 1;
    entries.insert(i, e);
    proof {
        assert forall|a: int, b: int|
            0 <= a < b < entries@.len() implies entries@[a].name@ != entries@[b].name@ by {
            assert(entries@[a].name@ == old_entries[a].name@);
            assert(entries@[b].name@ == old_entries[b].name@);
        }
    }
    registry.entries = entries;
    proof {
        let after = registry@;
        assert(after =~= before.update(
            i as int,
            (name@, pid, (before[i as int].2 + 1) as u32, before[i as int].3, before[i as int].4),
        ));
        assert forall|n: Seq<char>| registered(after, n) == registered(before, n) by {
            if registered(before, n) {
                let k = choose|k: int| 0 <= k < before.len() && before[k].0 == n;
                assert(after[k].0 == before[k].0);
            }
            if registered(after, n) {
                let k = choose|k: int| 0 <= k < after.len() && after[k].0 == n;
                assert(after[k].0 == before[k].0);
            }
        }
        let c2 = choose|k: int| 0 <= k < after.len() && after[k].0 == name@;
        if c2 != i {
            if c2 < i {
                assert(old_entries[c2].name@ != old_entries[i as int].name@);
            } else {
                assert(old_entries[i as int].name@ != old_entries[c2].name@);
            }
        }
        assert forall|n: Seq<char>|
            n != name@ && registered(before, n) implies entry_of(after, n) == entry_of(before, n) by {
            let k1 = choose|k: int| 0 <= k < before.len() && before[k].0 == n;
            let k2 = choose|k: int| 0 <= k < after.len() && after[k].0 == n;
            assert(k1 != i);
            assert(after[k1] == before[k1]);
            if k1 != k2 {
                assert(k2 != i);
                if k1 < k2 {
                    assert(old_entries[k1].name@ != old_entries[k2].name@);
                } else {
                    assert(old_entries[k2].name@ != old_entries[k1].name@);
                }
            }
        }
    }
}

/// The answer to a request to stop a plugin: `Ok(true)` when it was stopped,
/// `Ok(false)` when it was not running, the error otherwise.
pub fn shutdown_outcome(r: Result<(), String>) -> (o: Result<bool, String>)
    ensures
        match r {
            Ok(()) => o == Ok::<bool, String>(true),
            Err(e) => if e@ == "not_found"@ {
                o == Ok::<bool, String>(false)
            } else {
                o matches Err(m) && m@ == e@
            },
        },
{
    match r {
        Ok(()) => Ok(true),
        Err(e) => {
            if str_eq(e.as_str(), "not_found") {
                Ok(false)
            } else {
                Err(e)
            }
        },
    }
}

/// The pid of the first listed plugin with this name, or 0.
pub fn pid_of(list: &Vec<(String, u32, bool)>, name: &str) -> (pid: u32)
    ensures
        (exists|i: int| 0 <= i < list@.len() && list@[i].0@ == name@) ==> exists|i: int|
            0 <= i < list@.len() && list@[i].0@ == name@ && pid == list@[i].1 && forall|k: int|
                0 <= k < i ==> list@[k].0@ != name@,
        !(exists|i: int| 0 <= i < list@.len() && list@[i].0@ == name@) ==> pid == 0,
{
    let mut i: usize = 0;
    while i < list.len()
        invariant
            i <= list.len(),
            forall|k: int| 0 <= k < i ==> list@[k].0@ != name@,
        decreases list.len() - i,
    {
        if str_eq(list[i].0.as_str(), name) {
            return list[i].1;
        }
        i += 1;
    }
    0
}

/// A plugin registration with its defaults filled in.
pub struct PluginUpsert {
    pub name: String,
    pub kind: String,
    pub version: String,
    pub permissions: String,
    pub enabled: bool,
}

/// Fills in the defaults of a plugin registration: kind `core`, version `dev`,
/// permissions `{}`, enabled.
pub fn plugin_upsert_request(
    name: String,
    kind: Option<String>,
    version: Option<String>,
    permissions: Option<String>,
    enabled: Option<bool>,
) -> (r: PluginUpsert)
    ensures
        r.name@ == name@,
        r.kind@ == (match kind {
            Some(k) => k@,
            None => "core"@,
        }),
        r.version@ == (match version {
            Some(v) => v@,
            None => "dev"@,
        }),
        r.permissions@ == (match permissions {
            Some(p) => p@,
            None => "{}"@,
        }),
        r.enabled == (match enabled {
            Some(e) => e,
            None => true,
        }),
{
    PluginUpsert {
        name,
        kind: match kind {
            Some(k) => k,
            None => "core".to_owned(),
        },
        version: match version {
            Some(v) => v,
            None => "dev".to_owned(),
        },
        permissions: match permissions {
            Some(p) => p,
            None => "{}".to_owned(),
        },
        enabled: match enabled {
            Some(e) => e,
            None => true,
        },
    }
}

/// The default time a plugin call waits for its answer, in milliseconds.
pub const DEFAULT_CALL_TIMEOUT_MS: u64 = 5000;

/// The timeout of a plugin call from its configured value (`PLUGIN_CALL_TIMEOUT_MS`):
/// the value when it parses as a `u64`, else `DEFAULT_CALL_TIMEOUT_MS`.
pub fn call_timeout_ms(setting: &Option<String>) -> (ms: u64)
    ensures
        ms == (match setting {
            Some(s) => match parse_unsigned(s@, u64::MAX as int) {
                Some(n) => n as int,
                None => DEFAULT_CALL_TIMEOUT_MS as int,
            },
            None => DEFAULT_CALL_TIMEOUT_MS as int,
        }),
{
    match setting {
        Some(s) => match parse_u64(s.as_str()) {
            Some(n) => n,
            None => DEFAULT_CALL_TIMEOUT_MS,
        },
        None => DEFAULT_CALL_TIMEOUT_MS,
    }
}

/// The payload of a reply line from a plugin: the line without surrounding
/// whitespace, or `None` for an empty reply (which answers `{"ok": true}`).
pub fn reply_payload(line: &str) -> (r: Option<String>)
    ensures
        match r {
            Some(p) => p@ == trim(line@) && p@.len() > 0,
            None => trim(line@).len() == 0,
        },
{
    let v = chars_of(line);
    let t = trim_vec(&v);
    if t.len() == 0 {
        None
    } else {
        Some(string_of(&t))
    }
}

/// What `serde_json::from_str::<Value>` makes of a reply payload: `Ok` with the
/// reply's `error` member as JSON text (when present), or `Err` with the parser's
/// message.
pub uninterp spec fn json_reply_fields(payload: Seq<char>) -> Result<Option<Seq<char>>, Seq<char>>;

/// The view of a parsed reply.
pub open spec fn reply_view(r: Result<Option<String>, String>) -> Result<Option<Seq<char>>, Seq<char>> {
    match r {
        Ok(Some(e)) => Ok(Some(e@)),
        Ok(None) => Ok(None),
        Err(m) => Err(m@),
    }
}

/// `serde_json::from_str::<serde_json::Value>(payload)`, keeping only its `error`
/// member as JSON text; the parse error as its message. The contract names the
/// result.
#[verifier::external_body]
fn parse_reply(payload: &str) -> (r: Result<Option<String>, String>)
    ensures
        reply_view(r) == json_reply_fields(payload@),
{
    serde_json::from_str::<serde_json::Value>(payload)
        .map(|v| v.get("error").map(|e| e.to_string()))
        .map_err(|e| e.to_string())
}

/// What a non-empty reply payload answers, given how it parsed: the payload
/// itself, `rpc_error: <error>` when it carries an error member, or
/// `json_parse_error: <message>` when it is not JSON.
pub fn reply_outcome(payload: String, parsed: Result<Option<String>, String>) -> (r: Result<String, String>)
    ensures
        match parsed {
            Err(m) => r matches Err(e) && e@ == "json_parse_error: "@ + m@,
            Ok(Some(err)) => r matches Err(e) && e@ == "rpc_error: "@ + err@,
            Ok(None) => r matches Ok(p) && p == payload,
        },
{
    match parsed {
        Err(m) => {
            let mut e = "json_parse_error: ".to_owned();
            e.append(m.as_str());
            Err(e)
        },
        Ok(Some(err)) => {
            let mut e = "rpc_error: ".to_owned();
            e.append(err.as_str());
            Err(e)
        },
        Ok(None) => Ok(payload),
    }
}

/// The answer of a plugin's reply line: `{"ok":true}` for an empty line, else
/// the trimmed payload, `rpc_error: <error>` or `json_parse_error: <message>`
/// (see `reply_outcome` and `json_reply_fields`).
pub fn plugin_reply(line: &str) -> (r: Result<String, String>)
    ensures
        trim(line@).len() == 0 ==> (r matches Ok(s) && s@ == "{\"ok\":true}"@),
        trim(line@).len() > 0 ==> match json_reply_fields(trim(line@)) {
            Err(m) => r matches Err(e) && e@ == "json_parse_error: "@ + m,
            Ok(Some(err)) => r matches Err(e) && e@ == "rpc_error: "@ + err,
            Ok(None) => r matches Ok(s) && s@ == trim(line@),
        },
{
    match reply_payload(line) {
        None => Ok("{\"ok\":true}".to_owned()),
        Some(p) => {
            let parsed = parse_reply(p.as_str());
            reply_outcome(p, parsed)
        },
    }
}

} // verus!
