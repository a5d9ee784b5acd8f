//! The tool-contract surface the MCP peer sees: one request record per
//! tool, the defaults the tools fill in, and the shape of tool-level
//! error text. The MCP framing itself is the rim's business; these
//! records are what the tools consume.

use vstd::prelude::*;
use vstd::string::*;

use crate::edits::TextEditParams;

verus! {

/// `edit_file`: a file and the whole-line edits to apply to it.
pub struct EditFileRequest {
    pub file_path: String,
    pub edits: Vec<TextEditParams>,
}

/// `definition`: the symbol to look up, as `path:line:column`.
pub struct DefinitionRequest {
    pub symbol_name: String,
}

/// `references`: the symbol to look up, as `path:line:column`.
pub struct ReferencesRequest {
    pub symbol_name: String,
}

/// `diagnostics`: the file to report on, with optional rendering knobs.
pub struct DiagnosticsRequest {
    pub file_path: String,
    pub context_lines: Option<u32>,
    pub show_line_numbers: Option<bool>,
}

impl DiagnosticsRequest {
    /// The context width to render with: as asked, or five lines.
    pub fn effective_context_lines(&self) -> (r: u32)
        ensures
            self.context_lines matches Some(n) ==> r == n,
            self.context_lines is None ==> r == 5,
    {
        match self.context_lines {
            Some(n) => n,
            None => 5,
        }
    }

    /// Whether to render line-number gutters: as asked, or yes.
    pub fn effective_show_line_numbers(&self) -> (r: bool)
        ensures
            self.show_line_numbers matches Some(b) ==> r == b,
            self.show_line_numbers is None ==> r == true,
    {
        match self.show_line_numbers {
            Some(b) => b,
            None => true,
        }
    }
}

/// `hover`: a file and a position in it.
pub struct HoverRequest {
    pub file_path: String,
    pub line: u32,
    pub column: u32,
}

/// `rename_symbol`: a file, a position, and the new name.
pub struct RenameRequest {
    pub file_path: String,
    pub line: u32,
    pub column: u32,
    pub new_name: String,
}

/// The tool server's state: the workspace every tool works against. The
/// rim holds the live runtime beside it.
pub struct McpLanguageServer {
    pub workspace_dir: String,
}

impl McpLanguageServer {
    pub fn new(workspace_dir: String) -> (r: McpLanguageServer)
        ensures
            r.workspace_dir@ == workspace_dir@,
    {
        McpLanguageServer { workspace_dir }
    }
}

/// Tool-level error text, as the MCP peer sees it: `Error <doing what>:
/// <why>`, plain data rather than a protocol error.
pub fn tool_error_text(action: &str, message: &str) -> (r: String)
    ensures
        r@ == "Error "@ + action@ + ": "@ + message@,
{
    let mut s = String::new();
    s.append("Error ");
    s.append(action);
    s.append(": ");
    s.append(message);
    s
}

} // verus!
