//! The pure logic of the high-level tools: the `path:line:column` symbol
//! locations, the extension-to-language table, fenced code blocks, hover
//! rendering, and the fixed messages the tools answer with.

use vstd::prelude::*;
use vstd::string::*;

use crate::edits::find_char;
use crate::text::{all_digit_chars, chars_of, dec_val, eq_chars, extend_chars, occurs_at,
    parse_u32_chars, push_str_chars, string_of, subrange_chars};

verus! {

/// Why a symbol location string is rejected.
#[derive(Debug)]
pub enum LocationError {
    /// Fewer than three colon-separated fields.
    BadFormat,
    /// The second field is not a line number.
    BadLine,
    /// The third field is not a column number.
    BadColumn,
}

impl LocationError {
    /// The message shown to the caller.
    pub fn message(&self) -> (r: String)
        ensures
            (self is BadFormat ==> r@
                == "Symbol location must be in the format 'path:line:column'"@),
            (self is BadLine ==> r@ == "Failed to parse line number"@),
            (self is BadColumn ==> r@ == "Failed to parse column number"@),
    {
        let mut s = String::new();
        match self {
            LocationError::BadFormat => {
                s.append("Symbol location must be in the format 'path:line:column'");
            },
            LocationError::BadLine => {
                s.append("Failed to parse line number");
            },
            LocationError::BadColumn => {
                s.append("Failed to parse column number");
            },
        }
        s
    }
}

/// Where the first three colon-separated fields of `s` end: the first
/// colon, the second, and the end of the third (a further colon or the
/// end of the string).
pub open spec fn colon_cuts(s: Seq<char>) -> (int, int, int) {
    let c1 = find_char(s, 0, ':');
    let c2 = find_char(s, c1 + 1, ':');
    let c3 = find_char(s, c2 + 1, ':');
    (c1, c2, c3)
}

/// Whether `s` has the `path:line:column` shape: at least three fields,
/// the second and third all digits and in `u32` range.
pub open spec fn location_well_formed(s: Seq<char>) -> bool {
    let (c1, c2, c3) = colon_cuts(s);
    &&& c1 < s.len()
    &&& c2 < s.len()
    &&& all_digit_chars(s.subrange(c1 + 1, c2))
    &&& dec_val(s.subrange(c1 + 1, c2)) <= u32::MAX
    &&& all_digit_chars(s.subrange(c2 + 1, c3))
    &&& dec_val(s.subrange(c2 + 1, c3)) <= u32::MAX
}

/// The parsed location: the path field, and the line and column made
/// 0-indexed (1 is subtracted, stopping at 0).
pub open spec fn location_parsed(s: Seq<char>) -> (Seq<char>, int, int) {
    let (c1, c2, c3) = colon_cuts(s);
    let line = dec_val(s.subrange(c1 + 1, c2)) as int;
    let col = dec_val(s.subrange(c2 + 1, c3)) as int;
    (
        s.subrange(0, c1),
        if line > 0 {
            line - 1
        } else {
            0
        },
        if col > 0 {
            col - 1
        } else {
            0
        },
    )
}

/// Parses a `path:line:column` symbol location (1-indexed), yielding the
/// path with the 0-indexed line and column. Fails exactly on a string
/// with fewer than three fields, or a line or column field that is not a
/// number in range.
pub fn parse_symbol_location(s: &str) -> (r: Result<(String, u32, u32), LocationError>)
    ensures
        r is Ok <==> location_well_formed(s@),
        r matches Ok((path, line, col)) ==> path@ == location_parsed(s@).0 && line as int
            == location_parsed(s@).1 && col as int == location_parsed(s@).2,
        r matches Err(e) ==> !location_well_formed(s@) && (e is BadFormat ==> (colon_cuts(s@).0
            >= s@.len() || colon_cuts(s@).1 >= s@.len())),
{
    let v = chars_of(s);
    let c1 = find_char_vec(&v, 0, ':');
    if c1 == v.len() {
        proof {
            crate::edits::lemma_find_char_props(v@, 0, ':');
        }
        return Err(LocationError::BadFormat);
    }
    let c2 = find_char_vec(&v, c1 + 1, ':');
    if c2 == v.len() {
        return Err(LocationError::BadFormat);
    }
    let c3 = find_char_vec(&v, c2 + 1, ':');
    proof {
        crate::edits::lemma_find_char_props(v@, 0, ':');
        crate::edits::lemma_find_char_props(v@, c1 + 1, ':');
        crate::edits::lemma_find_char_props(v@, c2 + 1, ':');
    }
    let line = match parse_u32_chars(&v, c1 + 1, c2) {
        Some(n) => n,
        None => {
            return Err(LocationError::BadLine);
        },
    };
    let col = match parse_u32_chars(&v, c2 + 1, c3) {
        Some(n) => n,
        None => {
            return Err(LocationError::BadColumn);
        },
    };
    let path_chars = subrange_chars(&v, 0, c1);
    let path = string_of(path_chars);
    let line0 = if line > 0 {
        line - 1
    } else {
        0
    };
    let col0 = if col > 0 {
        col - 1
    } else {
        0
    };
    Ok((path, line0, col0))
}

fn find_char_vec(v: &Vec<char>, from: usize, c: char) -> (r: usize)
    requires
        from <= v@.len(),
    ensures
        r == find_char(v@, from as int, c),
        from <= r <= v@.len(),
{
    proof {
        crate::edits::lemma_find_char_props(v@, from as int, c);
    }
    let n = v.len();
    let mut i: usize = from;
    loop
        invariant
            from <= i <= n,
            n == v@.len(),
            find_char(v@, from as int, c) == find_char(v@, i as int, c),
        decreases n - i,
    {
        if i == n {
            return i;
        }
        if v[i] == c {
            return i;
        }
        i = i + 1;
    }
}

/// The index after the last `/` of `p`; 0 when there is none.
pub open spec fn basename_start(p: Seq<char>) -> int
    decreases p.len(),
{
    if p.len() == 0 {
        0
    } else if p.last() == '/' {
        p.len() as int
    } else {
        basename_start(p.drop_last())
    }
}

/// The extension of the file named by `p`: what follows the last dot of
/// the base name, provided that dot is neither its first character nor
/// absent.
pub open spec fn extension_of(p: Seq<char>) -> Option<Seq<char>>
    decreases p.len(),
{
    let name = p.subrange(basename_start(p), p.len() as int);
    extension_of_name(name)
}

/// The extension within a bare file name.
pub open spec fn extension_of_name(name: Seq<char>) -> Option<Seq<char>>
    decreases name.len(),
{
    if name.len() <= 1 {
        None
    } else if name.last() == '.' {
        None
    } else {
        let dot = last_dot(name);
        if dot <= 0 {
            None
        } else {
            Some(name.subrange(dot + 1, name.len() as int))
        }
    }
}

/// The index of the last `.` of `name`; -1 when there is none.
pub open spec fn last_dot(name: Seq<char>) -> int
    decreases name.len(),
{
    if name.len() == 0 {
        -1
    } else if name.last() == '.' {
        name.len() - 1
    } else {
        last_dot(name.drop_last())
    }
}

/// The language identifier for an extension.
pub open spec fn language_for_extension(ext: Seq<char>) -> Seq<char> {
    if ext == "rs"@ {
        "rust"@
    } else if ext == "go"@ {
        "go"@
    } else if ext == "js"@ {
        "javascript"@
    } else if ext == "ts"@ {
        "typescript"@
    } else if ext == "jsx"@ {
        "jsx"@
    } else if ext == "tsx"@ {
        "tsx"@
    } else if ext == "py"@ {
        "python"@
    } else if ext == "java"@ {
        "java"@
    } else if ext == "c"@ || ext == "h"@ {
        "c"@
    } else if ext == "cpp"@ || ext == "hpp"@ || ext == "cc"@ {
        "cpp"@
    } else if ext == "json"@ {
        "json"@
    } else if ext == "md"@ {
        "markdown"@
    } else if ext == "html"@ {
        "html"@
    } else if ext == "css"@ {
        "css"@
    } else {
        "plaintext"@
    }
}

/// The language identifier for a path: by its extension, or `plaintext`.
pub open spec fn language_of(p: Seq<char>) -> Seq<char> {
    match extension_of(p) {
        Some(ext) => language_for_extension(ext),
        None => "plaintext"@,
    }
}

fn basename_start_exec(v: &Vec<char>) -> (r: usize)
    ensures
        r == basename_start(v@),
{
    let mut i: usize = v.len();
    proof {
        assert(v@.subrange(0, v@.len() as int) =~= v@);
    }
    loop
        invariant
            i <= v@.len(),
            basename_start(v@) == basename_start(v@.subrange(0, i as int)),
        decreases i,
    {
        if i == 0 {
            proof {
                assert(v@.subrange(0, 0) =~= Seq::<char>::empty());
            }
            return 0;
        }
        if v[i - 1] == '/' {
            proof {
                let pre = v@.subrange(0, i as int);
                assert(pre.last() == v@[i - 1]);
            }
            return i;
        }
        i = i - 1;
        proof {
            let pre = v@.subrange(0, i + 1);
            assert(pre.last() == v@[i as int]);
            assert(pre.drop_last() =~= v@.subrange(0, i as int));
        }
    }
}

fn last_dot_exec(v: &Vec<char>) -> (r: Option<usize>)
    ensures
        match r {
            Some(i) => last_dot(v@) == i,
            None => last_dot(v@) == -1,
        },
{
    let mut i: usize = v.len();
    proof {
        assert(v@.subrange(0, v@.len() as int) =~= v@);
    }
    loop
        invariant
            i <= v@.len(),
            last_dot(v@) == last_dot(v@.subrange(0, i as int)),
        decreases i,
    {
        if i == 0 {
            proof {
                assert(v@.subrange(0, 0) =~= Seq::<char>::empty());
            }
            return None;
        }
        if v[i - 1] == '.' {
            proof {
                let pre = v@.subrange(0, i as int);
                assert(pre.last() == v@[i - 1]);
            }
            return Some(i - 1);
        }
        i = i - 1;
        proof {
            let pre = v@.subrange(0, i + 1);
            assert(pre.last() == v@[i as int]);
            assert(pre.drop_last() =~= v@.subrange(0, i as int));
        }
    }
}

/// The extension of the file the path names, per `extension_of`.
fn extension_exec(path: &str) -> (r: Option<Vec<char>>)
    ensures
        match r {
            Some(v) => extension_of(path@) == Some(v@),
            None => extension_of(path@) is None,
        },
{
    let v = chars_of(path);
    let base = basename_start_exec(&v);
    proof {
        lemma_basename_start_bounds(v@);
    }
    let name = subrange_chars(&v, base, v.len());
    if name.len() <= 1 {
        return None;
    }
    if name[name.len() - 1] == '.' {
        proof {
            assert(name@.last() == '.');
        }
        return None;
    }
    proof {
        assert(name@.last() != '.');
    }
    match last_dot_exec(&name) {
        None => None,
        Some(dot) => {
            if dot == 0 {
                None
            } else {
                proof {
                    crate::tools::lemma_last_dot_bounds(name@);
                }
                Some(subrange_chars(&name, dot + 1, name.len()))
            }
        },
    }
}

proof fn lemma_basename_start_bounds(p: Seq<char>)
    ensures
        0 <= basename_start(p) <= p.len(),
    decreases p.len(),
{
    if p.len() > 0 && p.last() != '/' {
        lemma_basename_start_bounds(p.drop_last());
    }
}

proof fn lemma_last_dot_bounds(name: Seq<char>)
    ensures
        -1 <= last_dot(name) < name.len(),
    decreases name.len(),
{
    if name.len() > 0 && name.last() != '.' {
        lemma_last_dot_bounds(name.drop_last());
    }
}

/// The language identifier for a path, from its extension.
pub fn get_language_from_path(path: &str) -> (r: String)
    ensures
        r@ == language_of(path@),
{
    let ext = extension_exec(path);
    let mut s = String::new();
    match ext {
        None => {
            s.append("plaintext");
        },
        Some(e) => {
            if eq_lit(&e, "rs") {
                s.append("rust");
            } else if eq_lit(&e, "go") {
                s.append("go");
            } else if eq_lit(&e, "js") {
                s.append("javascript");
            } else if eq_lit(&e, "ts") {
                s.append("typescript");
            } else if eq_lit(&e, "jsx") {
                s.append("jsx");
            } else if eq_lit(&e, "tsx") {
                s.append("tsx");
            } else if eq_lit(&e, "py") {
                s.append("python");
            } else if eq_lit(&e, "java") {
                s.append("java");
            } else if eq_lit(&e, "c") || eq_lit(&e, "h") {
                s.append("c");
            } else if eq_lit(&e, "cpp") || eq_lit(&e, "hpp") || eq_lit(&e, "cc") {
                s.append("cpp");
            } else if eq_lit(&e, "json") {
                s.append("json");
            } else if eq_lit(&e, "md") {
                s.append("markdown");
            } else if eq_lit(&e, "html") {
                s.append("html");
            } else if eq_lit(&e, "css") {
                s.append("css");
            } else {
                s.append("plaintext");
            }
        },
    }
    s
}

/// The language identifier a `didOpen` announces for a path: the same
/// table as the rendering side uses.
pub fn detect_language_id(path: &str) -> (r: String)
    ensures
        r@ == language_of(path@),
{
    get_language_from_path(path)
}

fn eq_lit(v: &Vec<char>, lit: &str) -> (r: bool)
    ensures
        r == (v@ == lit@),
{
    let l = chars_of(lit);
    eq_chars(v, &l)
}

/// A fenced code block: the language tag, the code, and the closing
/// fence, each on its own line.
pub fn format_code(code: &str, language: &str) -> (r: String)
    ensures
        r@ == "```"@ + language@ + "\n"@ + code@ + "\n```"@,
{
    let mut s = String::new();
    s.append("```");
    s.append(language);
    s.append("\n");
    s.append(code);
    s.append("\n```");
    s
}

/// An error message for the MCP peer.
pub fn format_error(message: &str) -> (r: String)
    ensures
        r@ == "Error: "@ + message@,
{
    let mut s = String::new();
    s.append("Error: ");
    s.append(message);
    s
}

/// One block of hover contents: a bare string, or one tagged with a
/// language.
pub enum MarkedString {
    Plain(String),
    WithLanguage { language: String, value: String },
}

/// What a hover reply carries: one block, several, or a markup block.
pub enum HoverContents {
    Scalar(MarkedString),
    Array(Vec<MarkedString>),
    Markup(String),
}

/// The rendering of one block: the string itself, or a fenced code block
/// in its language.
pub open spec fn marked_string_spec(ms: &MarkedString) -> Seq<char> {
    match ms {
        MarkedString::Plain(s) => s@,
        MarkedString::WithLanguage { language, value } => "```"@ + language@ + "\n"@ + value@
            + "\n```"@,
    }
}

/// Renders one hover block.
pub fn format_marked_string(ms: &MarkedString) -> (r: String)
    ensures
        r@ == marked_string_spec(ms),
{
    match ms {
        MarkedString::Plain(s) => s.clone(),
        MarkedString::WithLanguage { language, value } => format_code(
            value.as_str(),
            language.as_str(),
        ),
    }
}

/// The rendering of a whole hover reply body.
pub open spec fn hover_blocks_spec(blocks: Seq<MarkedString>) -> Seq<char>
    decreases blocks.len(),
{
    if blocks.len() == 0 {
        Seq::<char>::empty()
    } else {
        hover_blocks_spec(blocks.drop_last()) + marked_string_spec(&blocks.last()) + "\n\n"@
    }
}

/// The fixed answer when the server has nothing to show.
pub open spec fn no_hover_message() -> Seq<char> {
    "No hover information available at this position."@
}

/// The rendering of a hover reply: its contents as markdown, or the
/// fixed no-information message when the reply is absent or empty.
pub open spec fn hover_spec(h: &Option<HoverContents>) -> Seq<char> {
    match h {
        None => no_hover_message(),
        Some(HoverContents::Scalar(ms)) => {
            if marked_string_spec(ms).len() == 0 {
                no_hover_message()
            } else {
                marked_string_spec(ms)
            }
        },
        Some(HoverContents::Array(blocks)) => {
            if hover_blocks_spec(blocks@).len() == 0 {
                no_hover_message()
            } else {
                hover_blocks_spec(blocks@)
            }
        },
        Some(HoverContents::Markup(value)) => {
            if value@.len() == 0 {
                no_hover_message()
            } else {
                value@
            }
        },
    }
}

/// Renders a hover reply as plain markdown; absent or empty contents
/// become the fixed no-information message.
pub fn render_hover(h: &Option<HoverContents>) -> (r: String)
    ensures
        r@ == hover_spec(h),
{
    let mut no_info = String::new();
    no_info.append("No hover information available at this position.");
    match h {
        None => no_info,
        Some(HoverContents::Scalar(ms)) => {
            let s = format_marked_string(ms);
            if s.as_str().is_empty() {
                no_info
            } else {
                s
            }
        },
        Some(HoverContents::Array(blocks)) => {
            let mut out: Vec<char> = Vec::new();
            let mut i: usize = 0;
            while i < blocks.len()
                invariant
                    i <= blocks@.len(),
                    out@ == hover_blocks_spec(blocks@.subrange(0, i as int)),
                decreases blocks@.len() - i,
            {
                let s = format_marked_string(&blocks[i]);
                push_str_chars(&mut out, s.as_str());
                push_str_chars(&mut out, "\n\n");
                i = i + 1;
                proof {
                    let pre = blocks@.subrange(0, i as int);
                    assert(pre.drop_last() =~= blocks@.subrange(0, i - 1));
                    assert(pre.last() == blocks@[i - 1]);
                    assert(out@ =~= hover_blocks_spec(pre));
                }
            }
            proof {
                assert(blocks@.subrange(0, blocks@.len() as int) =~= blocks@);
            }
            if out.len() == 0 {
                no_info
            } else {
                string_of(out)
            }
        },
        Some(HoverContents::Markup(value)) => {
            if value.as_str().is_empty() {
                no_info
            } else {
                value.clone()
            }
        },
    }
}

/// The error for a definition lookup that found nothing; the symbol
/// string stands in it, right after the fixed prefix.
pub fn definition_not_found(symbol: &str) -> (r: String)
    ensures
        r@ == "Definition not found for symbol: "@ + symbol@,
        occurs_at(r@, symbol@, "Definition not found for symbol: "@.len() as int),
{
    let mut s = String::new();
    s.append("Definition not found for symbol: ");
    s.append(symbol);
    proof {
        let at = "Definition not found for symbol: "@.len() as int;
        assert(s@.subrange(at, at + symbol@.len()) =~= symbol@);
    }
    s
}

/// The error for a references lookup that found nothing; the symbol
/// string stands in it, right after the fixed prefix.
pub fn references_not_found(symbol: &str) -> (r: String)
    ensures
        r@ == "No references found for symbol: "@ + symbol@,
        occurs_at(r@, symbol@, "No references found for symbol: "@.len() as int),
{
    let mut s = String::new();
    s.append("No references found for symbol: ");
    s.append(symbol);
    proof {
        let at = "No references found for symbol: "@.len() as int;
        assert(s@.subrange(at, at + symbol@.len()) =~= symbol@);
    }
    s
}

} // verus!
