use mcp_language_server::renders::{
    Diagnostic, DefinitionSite, FileReferences, Location, RefLoc, group_references,
    render_definition, render_diagnostics, render_references,
};

fn fourteen_lines() -> String {
    let mut s = String::new();
    for i in 0..14 {
        s.push_str(&format!("l{}\n", i));
    }
    s
}

#[test]
fn diagnostics_window_with_gutters_and_carets() {
    let content = fourteen_lines();
    let diags = vec![Diagnostic {
        start_line: 10,
        start_char: 5,
        end_line: 10,
        end_char: 10,
        severity: Some(1),
        message: String::from("mismatched types"),
        source: None,
    }];
    let out = render_diagnostics("/w/file.rs", &content, &diags, 2, true);
    let expected = "Diagnostics for /w/file.rs:\n\nError: mismatched types\n\nCode context:\n    9 | l8\n   10 | l9\n   11 | l10\n      |      ^^^^^\n   12 | l11\n   13 | l12\n";
    assert_eq!(out, expected);
    assert!(out.contains("Error:"));
    assert!(out.contains("mismatched types"));
    assert!(out.contains("      |      ^^^^^"));
}

#[test]
fn diagnostics_without_line_numbers() {
    let content = String::from("abc\ndefgh\nxyz\n");
    let diags = vec![Diagnostic {
        start_line: 1,
        start_char: 1,
        end_line: 1,
        end_char: 3,
        severity: Some(2),
        message: String::from("unused"),
        source: Some(String::from("linter")),
    }];
    let out = render_diagnostics("f", &content, &diags, 0, false);
    let expected = "Diagnostics for f:\n\nWarning: unused\n\nCode context:\ndefgh\n ^^\n";
    assert_eq!(out, expected);
}

#[test]
fn diagnostics_empty_list_reports_none() {
    let out = render_diagnostics("/w/a.rs", "", &Vec::new(), 2, true);
    assert_eq!(out, "No diagnostics found for /w/a.rs");
}

#[test]
fn diagnostics_caret_is_at_least_one_wide() {
    let content = String::from("a\nb\n");
    let diags = vec![Diagnostic {
        start_line: 0,
        start_char: 0,
        end_line: 0,
        end_char: 0,
        severity: None,
        message: String::from("odd"),
        source: None,
    }];
    let out = render_diagnostics("f", &content, &diags, 0, false);
    assert_eq!(out, "Diagnostics for f:\n\nUnknown: odd\n\nCode context:\na\n^\n");
}

#[test]
fn diagnostics_are_separated_by_rules() {
    let content = String::from("x\ny\n");
    let d = |line: u32, msg: &str| Diagnostic {
        start_line: line,
        start_char: 0,
        end_line: line,
        end_char: 1,
        severity: Some(4),
        message: String::from(msg),
        source: None,
    };
    let out = render_diagnostics("f", &content, &vec![d(0, "one"), d(1, "two")], 0, false);
    assert!(out.contains("\n---\n\n"));
    assert!(out.contains("Hint: one"));
    assert!(out.contains("Hint: two"));
}

#[test]
fn references_grouped_and_rendered() {
    let locs = vec![
        Location { uri: String::from("file:///w/a.rs"), line: 0, character: 3 },
        Location { uri: String::from("file:///w/b.rs"), line: 1, character: 0 },
        Location { uri: String::from("file:///w/a.rs"), line: 1, character: 5 },
    ];
    let groups = group_references(&locs);
    assert_eq!(groups.len(), 2);
    assert_eq!(groups[0].uri, "file:///w/a.rs");
    assert_eq!(groups[0].locs.len(), 2);
    assert_eq!(groups[1].uri, "file:///w/b.rs");
    assert_eq!(groups[1].locs.len(), 1);

    let files = vec![FileReferences {
        path: String::from("/w/a.rs"),
        content: String::from("use thing;\nthing();\n"),
        locs: vec![RefLoc { line: 0, character: 4 }, RefLoc { line: 1, character: 0 }],
    }];
    let out = render_references("thing:1:5", &files).expect("non-empty renders");
    let expected = "Found 2 references to 'thing:1:5' in 1 files:\n\nFile: /w/a.rs\n  Line 1: use thing;\n             ^\n  Line 2: thing();\n         ^\n\n";
    assert_eq!(out, expected);
}

#[test]
fn references_empty_is_an_error_naming_the_symbol() {
    let r = render_references("gone:1:1", &Vec::new());
    let e = r.expect_err("empty result errors");
    assert!(e.contains("gone:1:1"));
}

#[test]
fn definition_rendered_as_fenced_block() {
    let sites = vec![DefinitionSite {
        path: String::from("/w/src/lib.rs"),
        content: String::from("pub fn f() {\n    1\n}\n"),
        start_line: 0,
        start_char: 7,
        end_line: 2,
    }];
    let out = render_definition("f:1:8", &sites).expect("non-empty renders");
    let expected = "Definition found in /w/src/lib.rs:1:8\n\n```rust\npub fn f() {\n    1\n}\n\n```\n\n";
    assert_eq!(out, expected);
}

#[test]
fn definition_empty_is_an_error_naming_the_symbol() {
    let r = render_definition("missing:2:2", &Vec::new());
    let e = r.expect_err("empty result errors");
    assert!(e.contains("missing:2:2"));
    assert_eq!(e, "Definition not found for symbol: missing:2:2");
}
