//! The parameters of the `initialize` request, rendered as canonical
//! JSON: the client's capabilities for workspace configuration and
//! watched files, text-document synchronization with `didSave`,
//! completion with snippet support, hover, and code actions with the
//! quick-fix, refactor and source kinds, plus the `codelenses` options a
//! particular language server reads and others ignore.

use vstd::prelude::*;
use vstd::string::*;

use crate::protocol::{json_string, push_json_string};
use crate::text::{dec_chars, dec_chars_exec, extend_chars, push_str_chars, string_of};

verus! {

/// The fixed head of the parameters, before the process ID.
pub open spec fn init_head() -> Seq<char> {
    "{\"processId\":"@
}

/// The capabilities and options between the root URI and the workspace
/// folder entry.
pub open spec fn init_capabilities() -> Seq<char> {
    ",\"initializationOptions\":{\"codelenses\":{\"generate\":true,\"regenerate_cgo\":true,\"test\":true,\"tidy\":true,\"upgrade_dependency\":true,\"vendor\":true,\"vulncheck\":false}},\"capabilities\":{\"workspace\":{\"configuration\":true,\"didChangeConfiguration\":{\"dynamicRegistration\":true},\"didChangeWatchedFiles\":{\"dynamicRegistration\":true,\"relativePatternSupport\":true},\"workspaceFolders\":true},\"textDocument\":{\"synchronization\":{\"dynamicRegistration\":true,\"didSave\":true},\"completion\":{\"dynamicRegistration\":true,\"completionItem\":{\"snippetSupport\":true}},\"hover\":{\"dynamicRegistration\":true},\"codeAction\":{\"dynamicRegistration\":true,\"codeActionLiteralSupport\":{\"codeActionKind\":{\"valueSet\":[\"quickfix\",\"refactor\",\"source\"]}}}}},\"trace\":\"off\",\"workspaceFolders\":[{\"uri\":"@
}

/// The tail after the workspace folder's name.
pub open spec fn init_tail() -> Seq<char> {
    "}],\"clientInfo\":{\"name\":\"mcp-language-server-rust\"}}"@
}

/// The whole `initialize` parameter object for a workspace.
pub open spec fn initialize_params_spec(
    root_uri: Seq<char>,
    process_id: nat,
    workspace_name: Seq<char>,
) -> Seq<char> {
    init_head() + dec_chars(process_id) + ",\"rootUri\":"@ + json_string(root_uri)
        + init_capabilities() + json_string(root_uri) + ",\"name\":"@ + json_string(workspace_name)
        + init_tail()
}

/// Renders the `initialize` parameters for the given workspace root URI,
/// process ID, and workspace folder name.
pub fn initialize_params_json(root_uri: &str, process_id: u32, workspace_name: &str) -> (r: String)
    ensures
        r@ == initialize_params_spec(root_uri@, process_id as nat, workspace_name@),
{
    let mut out: Vec<char> = Vec::new();
    push_str_chars(&mut out, "{\"processId\":");
    let d = dec_chars_exec(process_id as u64);
    extend_chars(&mut out, &d);
    push_str_chars(&mut out, ",\"rootUri\":");
    push_json_string(&mut out, root_uri);
    push_str_chars(
        &mut out,
        ",\"initializationOptions\":{\"codelenses\":{\"generate\":true,\"regenerate_cgo\":true,\"test\":true,\"tidy\":true,\"upgrade_dependency\":true,\"vendor\":true,\"vulncheck\":false}},\"capabilities\":{\"workspace\":{\"configuration\":true,\"didChangeConfiguration\":{\"dynamicRegistration\":true},\"didChangeWatchedFiles\":{\"dynamicRegistration\":true,\"relativePatternSupport\":true},\"workspaceFolders\":true},\"textDocument\":{\"synchronization\":{\"dynamicRegistration\":true,\"didSave\":true},\"completion\":{\"dynamicRegistration\":true,\"completionItem\":{\"snippetSupport\":true}},\"hover\":{\"dynamicRegistration\":true},\"codeAction\":{\"dynamicRegistration\":true,\"codeActionLiteralSupport\":{\"codeActionKind\":{\"valueSet\":[\"quickfix\",\"refactor\",\"source\"]}}}}},\"trace\":\"off\",\"workspaceFolders\":[{\"uri\":",
    );
    push_json_string(&mut out, root_uri);
    push_str_chars(&mut out, ",\"name\":");
    push_json_string(&mut out, workspace_name);
    push_str_chars(&mut out, "}],\"clientInfo\":{\"name\":\"mcp-language-server-rust\"}}");
    proof {
        assert(out@ =~= initialize_params_spec(root_uri@, process_id as nat, workspace_name@));
    }
    string_of(out)
}

} // verus!
