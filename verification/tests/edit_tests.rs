use mcp_language_server::edits::{
    LspTextEdit, TextEditParams, apply_lsp_edits_content, apply_text_edits_content, edit_summary,
    edits_well_formed, workspace_edit_summary,
};

fn chars(s: &str) -> Vec<char> {
    s.chars().collect()
}

fn text(v: &[char]) -> String {
    v.iter().collect()
}

#[test]
fn replace_middle_line() {
    let content = chars("L1\nL2\nL3\n");
    let edits = vec![TextEditParams { start_line: 2, end_line: 2, new_text: String::from("X\n") }];
    let out = apply_text_edits_content(&content, &edits);
    assert_eq!(text(&out), "L1\nX\nL3\n");
}

#[test]
fn end_line_beyond_file_replaces_through_eof() {
    let content = chars("L1\nL2\nL3\n");
    let edits = vec![TextEditParams { start_line: 2, end_line: 9, new_text: String::from("Z\n") }];
    let out = apply_text_edits_content(&content, &edits);
    assert_eq!(text(&out), "L1\nZ\n");
}

#[test]
fn multiple_edits_apply_descending() {
    let content = chars("a\nb\nc\nd\n");
    let edits = vec![
        TextEditParams { start_line: 1, end_line: 1, new_text: String::from("A\n") },
        TextEditParams { start_line: 3, end_line: 4, new_text: String::from("CD\n") },
    ];
    let out = apply_text_edits_content(&content, &edits);
    assert_eq!(text(&out), "A\nb\nCD\n");
}

#[test]
fn edit_on_file_without_trailing_newline() {
    let content = chars("one\ntwo");
    let edits = vec![TextEditParams { start_line: 2, end_line: 2, new_text: String::from("2") }];
    let out = apply_text_edits_content(&content, &edits);
    assert_eq!(text(&out), "one\n2");
}

#[test]
fn well_formed_check_rejects_zero_or_inverted_ranges() {
    let good = vec![TextEditParams { start_line: 1, end_line: 2, new_text: String::new() }];
    assert!(edits_well_formed(&good));
    let zero = vec![TextEditParams { start_line: 0, end_line: 2, new_text: String::new() }];
    assert!(!edits_well_formed(&zero));
    let inverted = vec![TextEditParams { start_line: 3, end_line: 2, new_text: String::new() }];
    assert!(!edits_well_formed(&inverted));
}

#[test]
fn edit_summary_text() {
    assert_eq!(edit_summary(3, "/w/a.rs"), "Successfully applied 3 edits to /w/a.rs");
}

#[test]
fn rename_edit_rewrites_prefix() {
    // The server's workspace edit: replace characters 0..3 of line 0.
    let content = chars("foo_bar()\nfoo_bar()\n");
    let edits = vec![LspTextEdit {
        start_line: 0,
        start_char: 0,
        end_line: 0,
        end_char: 3,
        new_text: String::from("bar"),
    }];
    let out = apply_lsp_edits_content(&content, &edits);
    assert_eq!(text(&out), "bar_bar()\nfoo_bar()\n");
    assert_eq!(workspace_edit_summary(1, 1), "Applied 1 edits across 1 files");
}

#[test]
fn lsp_edits_apply_in_reverse_order_given() {
    let content = chars("alpha beta\n");
    let edits = vec![
        LspTextEdit {
            start_line: 0,
            start_char: 0,
            end_line: 0,
            end_char: 5,
            new_text: String::from("A"),
        },
        LspTextEdit {
            start_line: 0,
            start_char: 6,
            end_line: 0,
            end_char: 10,
            new_text: String::from("B"),
        },
    ];
    let out = apply_lsp_edits_content(&content, &edits);
    assert_eq!(text(&out), "A B\n");
}

#[test]
fn lsp_edit_range_clamped_to_content() {
    let content = chars("ab\n");
    let edits = vec![LspTextEdit {
        start_line: 0,
        start_char: 0,
        end_line: 9,
        end_char: 9,
        new_text: String::from("x"),
    }];
    let out = apply_lsp_edits_content(&content, &edits);
    assert_eq!(text(&out), "x");
}

#[test]
fn lsp_edit_character_clamped_to_line_end() {
    // A character offset past the line's length stops at the end of that
    // line; it never spills into the next one.
    let content = chars("ab\ncd\n");
    let edits = vec![LspTextEdit {
        start_line: 0,
        start_char: 0,
        end_line: 0,
        end_char: 99,
        new_text: String::from("X"),
    }];
    let out = apply_lsp_edits_content(&content, &edits);
    assert_eq!(text(&out), "X\ncd\n");
}
