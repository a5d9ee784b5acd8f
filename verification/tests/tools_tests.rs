use mcp_language_server::tools::{
    HoverContents, LocationError, MarkedString, definition_not_found, detect_language_id,
    format_code, format_error, format_marked_string, get_language_from_path,
    parse_symbol_location, references_not_found, render_hover,
};

#[test]
fn parse_symbol_location_full_form() {
    let (path, line, col) = parse_symbol_location("/w/src/main.rs:10:5").expect("parses");
    assert_eq!(path, "/w/src/main.rs");
    assert_eq!(line, 9);
    assert_eq!(col, 4);
}

#[test]
fn parse_symbol_location_zero_stays_zero() {
    let (_, line, col) = parse_symbol_location("f:0:0").expect("parses");
    assert_eq!(line, 0);
    assert_eq!(col, 0);
}

#[test]
fn parse_symbol_location_rejects_short_form() {
    let r = parse_symbol_location("just_a_symbol");
    assert!(matches!(r, Err(LocationError::BadFormat)));
    let msg = LocationError::BadFormat.message();
    assert_eq!(msg, "Symbol location must be in the format 'path:line:column'");
}

#[test]
fn parse_symbol_location_rejects_bad_numbers() {
    assert!(matches!(parse_symbol_location("f:ten:5"), Err(LocationError::BadLine)));
    assert!(matches!(parse_symbol_location("f:10:five"), Err(LocationError::BadColumn)));
}

#[test]
fn language_table() {
    assert_eq!(get_language_from_path("/w/a.rs"), "rust");
    assert_eq!(get_language_from_path("b.go"), "go");
    assert_eq!(get_language_from_path("c.js"), "javascript");
    assert_eq!(get_language_from_path("c.ts"), "typescript");
    assert_eq!(get_language_from_path("c.jsx"), "jsx");
    assert_eq!(get_language_from_path("c.tsx"), "tsx");
    assert_eq!(get_language_from_path("d.py"), "python");
    assert_eq!(get_language_from_path("e.java"), "java");
    assert_eq!(get_language_from_path("f.c"), "c");
    assert_eq!(get_language_from_path("f.h"), "c");
    assert_eq!(get_language_from_path("g.cpp"), "cpp");
    assert_eq!(get_language_from_path("g.hpp"), "cpp");
    assert_eq!(get_language_from_path("g.cc"), "cpp");
    assert_eq!(get_language_from_path("h.json"), "json");
    assert_eq!(get_language_from_path("i.md"), "markdown");
    assert_eq!(get_language_from_path("j.html"), "html");
    assert_eq!(get_language_from_path("k.css"), "css");
    assert_eq!(get_language_from_path("Makefile"), "plaintext");
    assert_eq!(get_language_from_path("/w/.gitignore"), "plaintext");
    assert_eq!(detect_language_id("/w/src/lib.rs"), "rust");
}

#[test]
fn fenced_code_and_error_text() {
    assert_eq!(format_code("let x = 1;", "rust"), "```rust\nlet x = 1;\n```");
    assert_eq!(format_error("it broke"), "Error: it broke");
}

#[test]
fn marked_strings_render() {
    assert_eq!(format_marked_string(&MarkedString::Plain(String::from("doc"))), "doc");
    assert_eq!(
        format_marked_string(&MarkedString::WithLanguage {
            language: String::from("rust"),
            value: String::from("fn f()"),
        }),
        "```rust\nfn f()\n```"
    );
}

#[test]
fn hover_without_information_is_fixed_message() {
    assert_eq!(render_hover(&None), "No hover information available at this position.");
    let empty = Some(HoverContents::Markup(String::new()));
    assert_eq!(render_hover(&empty), "No hover information available at this position.");
    let empty_scalar = Some(HoverContents::Scalar(MarkedString::Plain(String::new())));
    assert_eq!(render_hover(&empty_scalar), "No hover information available at this position.");
}

#[test]
fn hover_renders_blocks() {
    let one = Some(HoverContents::Scalar(MarkedString::Plain(String::from("a type"))));
    assert_eq!(render_hover(&one), "a type");
    let many = Some(HoverContents::Array(vec![
        MarkedString::Plain(String::from("first")),
        MarkedString::WithLanguage { language: String::from("go"), value: String::from("func") },
    ]));
    assert_eq!(render_hover(&many), "first\n\n```go\nfunc\n```\n\n");
    let markup = Some(HoverContents::Markup(String::from("# heading")));
    assert_eq!(render_hover(&markup), "# heading");
}

#[test]
fn not_found_errors_contain_the_symbol() {
    let d = definition_not_found("my::symbol:3:4");
    assert!(d.contains("my::symbol:3:4"));
    assert_eq!(d, "Definition not found for symbol: my::symbol:3:4");
    let r = references_not_found("other:1:2");
    assert!(r.contains("other:1:2"));
    assert_eq!(r, "No references found for symbol: other:1:2");
}
