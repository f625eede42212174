//! The verified core of agent-editor, a local-first Markdown knowledge base:
//! wiki-link extraction, scan slugs and dedupe, document versions, export and
//! import of document archives, AI run context and redaction, provider gating,
//! the capability check and restart policy of core plugins, and the JSON-RPC
//! surface of the sidecar server.
use vstd::prelude::*;

pub mod text;
pub mod num;
pub mod keyed;
pub mod paths;
pub mod graph;
pub mod scan;
pub mod docs;
pub mod ai;
pub mod plugins;
pub mod export;
pub mod import;
pub mod archive;
pub mod rpc;

verus! {

} // verus!
