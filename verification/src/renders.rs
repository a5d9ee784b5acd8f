//! Rendering of tool results as plain text: diagnostic reports with code
//! windows and caret underlines, reference listings grouped by file, and
//! definition sites as fenced code blocks.

use vstd::prelude::*;
use vstd::string::*;

use crate::edits::{find_char, lemma_find_char_props, lemma_line_start_bounds, line_start,
    line_start_exec};
use crate::text::{chars_of, dec_chars, dec_chars_exec, extend_chars, push_str_chars, string_of,
    subrange_chars};
use crate::tools::{definition_not_found, language_of, references_not_found};

verus! {

/// `n` copies of one character.
pub open spec fn repeated(c: char, n: int) -> Seq<char> {
    if n <= 0 {
        Seq::<char>::empty()
    } else {
        Seq::new(n as nat, |i: int| c)
    }
}

/// Builds `n` copies of one character.
pub fn repeat_char(c: char, n: u64) -> (r: Vec<char>)
    ensures
        r@ == repeated(c, n as int),
{
    let mut r: Vec<char> = Vec::new();
    let mut i: u64 = 0;
    while i < n
        invariant
            i <= n,
            r@.len() == i,
            forall|j: int| 0 <= j < i ==> r@[j] == c,
        decreases n - i,
    {
        r.push(c);
        i = i + 1;
    }
    proof {
        assert(r@ =~= repeated(c, n as int));
    }
    r
}

/// Where line `k` ends: the index of its newline, or the content length.
pub open spec fn line_end(s: Seq<char>, k: nat) -> int {
    find_char(s, line_start(s, k), '\n')
}

/// The text of line `k`, newline excluded.
pub open spec fn line_of(s: Seq<char>, k: nat) -> Seq<char> {
    s.subrange(line_start(s, k), line_end(s, k))
}

/// Copies line `k` out of `v`.
pub fn line_of_exec(v: &Vec<char>, k: u64) -> (r: Vec<char>)
    ensures
        r@ == line_of(v@, k as nat),
{
    let a = line_start_exec(v, k);
    proof {
        lemma_line_start_bounds(v@, k as nat);
        lemma_find_char_props(v@, a as int, '\n');
    }
    let b = crate::edits::find_char_in(v, a, '\n');
    subrange_chars(v, a, b)
}

/// How many lines the content has: the number of line starts strictly
/// before its end.
pub open spec fn count_lines(s: Seq<char>) -> nat {
    count_lines_from(s, 0)
}

/// The number of lines beginning at or after `p`.
pub open spec fn count_lines_from(s: Seq<char>, p: int) -> nat
    decreases s.len() - p
        when 0 <= p <= s.len()
        via count_lines_from_dec
{
    if p >= s.len() {
        0
    } else {
        1 + count_lines_from(s, crate::edits::next_line_start(s, p))
    }
}

#[via_fn]
proof fn count_lines_from_dec(s: Seq<char>, p: int) {
    lemma_find_char_props(s, p, '\n');
}

/// Counts the lines of `v`.
pub fn count_lines_exec(v: &Vec<char>) -> (r: u64)
    ensures
        r == count_lines(v@),
{
    let mut pos: usize = 0;
    let mut n: u64 = 0;
    let len = v.len();
    while pos < len
        invariant
            pos <= len,
            len == v@.len(),
            n <= pos,
            count_lines(v@) == n + count_lines_from(v@, pos as int),
        decreases len - pos,
    {
        proof {
            lemma_find_char_props(v@, pos as int, '\n');
        }
        let nl = crate::edits::find_char_in(v, pos, '\n');
        if nl < len {
            pos = nl + 1;
        } else {
            pos = len;
        }
        n = n + 1;
    }
    n
}

/// The label for a diagnostic severity code.
pub open spec fn severity_label(sev: Option<u32>) -> Seq<char> {
    match sev {
        Some(1u32) => "Error"@,
        Some(2u32) => "Warning"@,
        Some(3u32) => "Info"@,
        Some(4u32) => "Hint"@,
        _ => "Unknown"@,
    }
}

fn severity_label_exec(sev: &Option<u32>) -> (r: &'static str)
    ensures
        r@ == severity_label(*sev),
{
    match sev {
        Some(1u32) => "Error",
        Some(2u32) => "Warning",
        Some(3u32) => "Info",
        Some(4u32) => "Hint",
        _ => "Unknown",
    }
}

/// A line number right-aligned in a five-column gutter.
pub open spec fn gutter_number(n: nat) -> Seq<char> {
    repeated(' ', 5 - dec_chars(n).len()) + dec_chars(n)
}

fn push_gutter_number(out: &mut Vec<char>, n: u64)
    ensures
        final(out)@ == old(out)@ + gutter_number(n as nat),
{
    let d = dec_chars_exec(n);
    let pad: u64 = if d.len() < 5 {
        5 - (d.len() as u64)
    } else {
        0
    };
    let sp = repeat_char(' ', pad);
    extend_chars(out, &sp);
    extend_chars(out, &d);
    proof {
        assert(out@ =~= old(out)@ + gutter_number(n as nat));
    }
}

/// One diagnostic as the cache holds it: a 0-indexed range, a severity
/// code, the message, and the reporting source.
pub struct Diagnostic {
    pub start_line: u32,
    pub start_char: u32,
    pub end_line: u32,
    pub end_char: u32,
    pub severity: Option<u32>,
    pub message: String,
    pub source: Option<String>,
}

/// The caret underline for one line of a diagnostic: indentation as far
/// as the range's first column, then a caret per column, one at least.
pub open spec fn caret_line(sc: int, ec: int, nums: bool) -> Seq<char> {
    (if nums {
        "      | "@
    } else {
        Seq::<char>::empty()
    }) + repeated(' ', sc) + repeated('^', if ec - sc >= 1 {
        ec - sc
    } else {
        1
    }) + "\n"@
}

/// One line of the code window: the line itself behind its optional
/// gutter, then a caret underline when the diagnostic covers the line.
pub open spec fn window_line(s: Seq<char>, d: &Diagnostic, ln: nat, nums: bool) -> Seq<char> {
    (if nums {
        gutter_number((ln + 1) as nat) + " | "@
    } else {
        Seq::<char>::empty()
    }) + line_of(s, ln) + "\n"@ + (if d.start_line <= ln <= d.end_line {
        let sc: int = if ln == d.start_line {
            d.start_char as int
        } else {
            0
        };
        let ec: int = if ln == d.end_line {
            d.end_char as int
        } else {
            line_of(s, ln).len() as int
        };
        caret_line(sc, ec, nums)
    } else {
        Seq::<char>::empty()
    })
}

/// The code window: every existing line from `a` through `b`.
pub open spec fn window(s: Seq<char>, d: &Diagnostic, a: int, b: int, nums: bool) -> Seq<char>
    decreases b + 1 - a when a <= b + 1
{
    if a > b {
        Seq::<char>::empty()
    } else {
        window(s, d, a, b - 1, nums) + (if 0 <= b < count_lines(s) {
            window_line(s, d, b as nat, nums)
        } else {
            Seq::<char>::empty()
        })
    }
}

/// Where a diagnostic's code window begins and ends: `context` lines each
/// side, cut to the existing lines.
pub open spec fn window_bounds(d: &Diagnostic, context: nat, count: nat) -> (int, int) {
    (
        if d.start_line >= context {
            d.start_line - context
        } else {
            0
        },
        if d.end_line + context < count - 1 {
            (d.end_line + context) as int
        } else {
            count - 1
        },
    )
}

/// One diagnostic's report: its severity label and message, then the
/// code window around its range.
pub open spec fn diagnostic_block(
    s: Seq<char>,
    d: &Diagnostic,
    context: nat,
    nums: bool,
) -> Seq<char> {
    let a = window_bounds(d, context, count_lines(s)).0;
    let b = window_bounds(d, context, count_lines(s)).1;
    severity_label(d.severity) + ": "@ + d.message@ + "\n"@ + "\nCode context:\n"@ + window(
        s,
        d,
        if a > b {
            b + 1
        } else {
            a
        },
        b,
        nums,
    )
}

/// All diagnostics' reports, separated by rules.
pub open spec fn diagnostic_blocks(
    s: Seq<char>,
    ds: Seq<Diagnostic>,
    context: nat,
    nums: bool,
) -> Seq<char>
    decreases ds.len(),
{
    if ds.len() == 0 {
        Seq::<char>::empty()
    } else {
        diagnostic_blocks(s, ds.drop_last(), context, nums) + (if ds.len() > 1 {
            "\n---\n\n"@
        } else {
            Seq::<char>::empty()
        }) + diagnostic_block(s, &ds.last(), context, nums)
    }
}

/// The whole report for a file.
pub open spec fn diagnostics_report(
    path: Seq<char>,
    s: Seq<char>,
    ds: Seq<Diagnostic>,
    context: nat,
    nums: bool,
) -> Seq<char> {
    if ds.len() == 0 {
        "No diagnostics found for "@ + path
    } else {
        "Diagnostics for "@ + path + ":\n\n"@ + diagnostic_blocks(s, ds, context, nums)
    }
}

#[verifier::rlimit(100)]
fn push_window_line(out: &mut Vec<char>, v: &Vec<char>, d: &Diagnostic, ln: u64, nums: bool)
    requires
        ln < u64::MAX,
    ensures
        final(out)@ == old(out)@ + window_line(v@, d, ln as nat, nums),
{
    if nums {
        push_gutter_number(out, ln + 1);
        push_str_chars(out, " | ");
    }
    let line = line_of_exec(v, ln);
    extend_chars(out, &line);
    push_str_chars(out, "\n");
    let ghost head = out@;
    proof {
        assert(head =~= old(out)@ + (if nums {
            gutter_number((ln + 1) as nat) + " | "@
        } else {
            Seq::<char>::empty()
        }) + line_of(v@, ln as nat) + "\n"@);
    }
    if d.start_line as u64 <= ln && ln <= d.end_line as u64 {
        let sc: u64 = if ln == d.start_line as u64 {
            d.start_char as u64
        } else {
            0
        };
        let ec: u64 = if ln == d.end_line as u64 {
            d.end_char as u64
        } else {
            line.len() as u64
        };
        if nums {
            push_str_chars(out, "      | ");
        }
        let sp = repeat_char(' ', sc);
        extend_chars(out, &sp);
        let width: u64 = if ec > sc {
            ec - sc
        } else {
            1
        };
        let ca = repeat_char('^', width);
        extend_chars(out, &ca);
        push_str_chars(out, "\n");
        proof {
            assert(out@ =~= head + caret_line(
                if ln == d.start_line as u64 {
                    d.start_char as int
                } else {
                    0
                },
                if ln == d.end_line as u64 {
                    d.end_char as int
                } else {
                    line_of(v@, ln as nat).len() as int
                },
                nums,
            ));
            assert(out@ =~= old(out)@ + window_line(v@, d, ln as nat, nums));
        }
    } else {
        proof {
            assert(out@ =~= old(out)@ + window_line(v@, d, ln as nat, nums));
        }
    }
}

fn push_window(
    out: &mut Vec<char>,
    v: &Vec<char>,
    count: u64,
    d: &Diagnostic,
    a: u64,
    b: u64,
    nums: bool,
)
    requires
        count == count_lines(v@),
        a <= b + 1,
        b < count,
    ensures
        final(out)@ == old(out)@ + window(v@, d, a as int, b as int, nums),
{
    let ghost base = out@;
    let mut ln: u64 = a;
    proof {
        assert(window(v@, d, a as int, a as int - 1, nums) =~= Seq::<char>::empty());
        assert(out@ =~= base + window(v@, d, a as int, a as int - 1, nums));
    }
    while ln <= b
        invariant
            a <= ln <= b + 1,
            b < count,
            count == count_lines(v@),
            out@ == base + window(v@, d, a as int, ln as int - 1, nums),
        decreases b + 1 - ln,
    {
        push_window_line(out, v, d, ln, nums);
        ln = ln + 1;
        proof {
            assert(out@ =~= base + window(v@, d, a as int, ln as int - 1, nums));
        }
    }
}

fn push_diagnostic_block(
    out: &mut Vec<char>,
    v: &Vec<char>,
    count: u64,
    d: &Diagnostic,
    context: u32,
    nums: bool,
)
    requires
        count == count_lines(v@),
        count >= 1,
    ensures
        final(out)@ == old(out)@ + diagnostic_block(v@, d, context as nat, nums),
{
    push_str_chars(out, severity_label_exec(&d.severity));
    push_str_chars(out, ": ");
    push_str_chars(out, d.message.as_str());
    push_str_chars(out, "\n");
    push_str_chars(out, "\nCode context:\n");
    let a: u64 = if d.start_line as u64 >= context as u64 {
        d.start_line as u64 - context as u64
    } else {
        0
    };
    let b: u64 = if (d.end_line as u64) + (context as u64) < count - 1 {
        (d.end_line as u64) + (context as u64)
    } else {
        count - 1
    };
    proof {
        assert(a as int == window_bounds(d, context as nat, count as nat).0);
        assert(b as int == window_bounds(d, context as nat, count as nat).1);
    }
    let aa: u64 = if a > b {
        b + 1
    } else {
        a
    };
    push_window(out, v, count, d, aa, b, nums);
    proof {
        assert(out@ =~= old(out)@ + diagnostic_block(v@, d, context as nat, nums));
    }
}

/// Renders the diagnostics of a file: a header naming the file, then per
/// diagnostic its severity and message with a code window `context_lines`
/// wide on each side, optional line-number gutters, and caret underlines
/// beneath the diagnosed range. With no diagnostics the report just says
/// so.
pub fn render_diagnostics(
    path: &str,
    content: &str,
    diags: &Vec<Diagnostic>,
    context_lines: u32,
    show_line_numbers: bool,
) -> (r: String)
    requires
        diags@.len() > 0 ==> content@.len() > 0,
    ensures
        r@ == diagnostics_report(
            path@,
            content@,
            diags@,
            context_lines as nat,
            show_line_numbers,
        ),
{
    if diags.len() == 0 {
        let mut s = String::new();
        s.append("No diagnostics found for ");
        s.append(path);
        return s;
    }
    let v = chars_of(content);
    let count = count_lines_exec(&v);
    proof {
        lemma_find_char_props(v@, 0, '\n');
        assert(count_lines_from(v@, 0) >= 1);
    }
    let mut out: Vec<char> = Vec::new();
    push_str_chars(&mut out, "Diagnostics for ");
    push_str_chars(&mut out, path);
    push_str_chars(&mut out, ":\n\n");
    let ghost base = out@;
    let mut i: usize = 0;
    proof {
        assert(diags@.subrange(0, 0) =~= Seq::<Diagnostic>::empty());
        assert(out@ =~= base + diagnostic_blocks(
            v@,
            diags@.subrange(0, 0),
            context_lines as nat,
            show_line_numbers,
        ));
    }
    while i < diags.len()
        invariant
            i <= diags@.len(),
            count == count_lines(v@),
            count >= 1,
            v@ == content@,
            out@ == base + diagnostic_blocks(
                v@,
                diags@.subrange(0, i as int),
                context_lines as nat,
                show_line_numbers,
            ),
        decreases diags@.len() - i,
    {
        if i > 0 {
            push_str_chars(&mut out, "\n---\n\n");
        }
        push_diagnostic_block(&mut out, &v, count, &diags[i], context_lines, show_line_numbers);
        i = i + 1;
        proof {
            let pre = diags@.subrange(0, i as int);
            assert(pre.drop_last() =~= diags@.subrange(0, i - 1));
            assert(pre.last() == diags@[i - 1]);
            assert(out@ =~= base + diagnostic_blocks(
                v@,
                pre,
                context_lines as nat,
                show_line_numbers,
            ));
        }
    }
    proof {
        assert(diags@.subrange(0, diags@.len() as int) =~= diags@);
        assert(out@ =~= diagnostics_report(
            path@,
            content@,
            diags@,
            context_lines as nat,
            show_line_numbers,
        ));
    }
    string_of(out)
}

/// One reference site within a known file.
pub struct RefLoc {
    pub line: u32,
    pub character: u32,
}

/// A location as the server reports it: a file URI and a position.
pub struct Location {
    pub uri: String,
    pub line: u32,
    pub character: u32,
}

/// The references with the given URI, in order.
pub open spec fn refs_for(locs: Seq<Location>, u: Seq<char>) -> Seq<RefLoc>
    decreases locs.len(),
{
    if locs.len() == 0 {
        Seq::<RefLoc>::empty()
    } else if locs.last().uri@ == u {
        refs_for(locs.drop_last(), u).push(
            RefLoc { line: locs.last().line, character: locs.last().character },
        )
    } else {
        refs_for(locs.drop_last(), u)
    }
}

proof fn lemma_refs_for_nonempty(locs: Seq<Location>, u: Seq<char>)
    requires
        refs_for(locs, u).len() > 0,
    ensures
        exists|i: int| 0 <= i < locs.len() && locs[i].uri@ == u,
    decreases locs.len(),
{
    if locs.len() > 0 {
        if locs.last().uri@ == u {
            assert(locs[locs.len() - 1].uri@ == u);
        } else {
            lemma_refs_for_nonempty(locs.drop_last(), u);
            let i = choose|i: int| 0 <= i < locs.drop_last().len() && locs.drop_last()[i].uri@ == u;
            assert(locs[i].uri@ == u);
        }
    }
}

/// The references of one file.
pub struct UriGroup {
    pub uri: String,
    pub locs: Vec<RefLoc>,
}

fn find_group(r: &Vec<UriGroup>, uri: &String) -> (res: Option<usize>)
    ensures
        match res {
            Some(f) => f < r@.len() && r@[f as int].uri@ == uri@,
            None => forall|j: int| 0 <= j < r@.len() ==> r@[j].uri@ != uri@,
        },
{
    let mut k: usize = 0;
    while k < r.len()
        invariant
            k <= r@.len(),
            forall|j: int| 0 <= j < k ==> r@[j].uri@ != uri@,
        decreases r@.len() - k,
    {
        if r[k].uri == *uri {
            return Some(k);
        }
        k = k + 1;
    }
    None
}

/// Groups reported locations by their URI, in order of first sight; each
/// group carries exactly the references of its URI, in report order.
pub fn group_references(locs: &Vec<Location>) -> (r: Vec<UriGroup>)
    ensures
        forall|k1: int, k2: int| 0 <= k1 < k2 < r@.len() ==> r@[k1].uri@ != r@[k2].uri@,
        forall|k: int| 0 <= k < r@.len() ==> (#[trigger] r@[k]).locs@ == refs_for(
            locs@,
            r@[k].uri@,
        ),
        forall|i: int|
            0 <= i < locs@.len() ==> exists|k: int|
                0 <= k < r@.len() && (#[trigger] r@[k]).uri@ == (#[trigger] locs@[i]).uri@,
        forall|k: int| 0 <= k < r@.len() ==> (#[trigger] r@[k]).locs@.len() > 0,
{
    let mut r: Vec<UriGroup> = Vec::new();
    let mut i: usize = 0;
    proof {
        assert(locs@.subrange(0, 0) =~= Seq::<Location>::empty());
    }
    while i < locs.len()
        invariant
            i <= locs@.len(),
            forall|k1: int, k2: int| 0 <= k1 < k2 < r@.len() ==> r@[k1].uri@ != r@[k2].uri@,
            forall|k: int| 0 <= k < r@.len() ==> (#[trigger] r@[k]).locs@ == refs_for(
                locs@.subrange(0, i as int),
                r@[k].uri@,
            ),
            forall|j: int|
                0 <= j < i ==> exists|k: int|
                    0 <= k < r@.len() && (#[trigger] r@[k]).uri@ == (#[trigger] locs@[j]).uri@,
            forall|k: int| 0 <= k < r@.len() ==> (#[trigger] r@[k]).locs@.len() > 0,
        decreases locs@.len() - i,
    {
        let ghost pre = locs@.subrange(0, i as int);
        let ghost post = locs@.subrange(0, i + 1 as int);
        let ghost r_before = r@;
        proof {
            assert(post.drop_last() =~= pre);
            assert(post.last() == locs@[i as int]);
        }
        let loc = &locs[i];
        match find_group(&r, &loc.uri) {
            Some(f) => {
                let mut g = r.remove(f);
                g.locs.push(RefLoc { line: loc.line, character: loc.character });
                r.insert(f, g);
                proof {
                    assert(r@.len() == r_before.len());
                    assert(forall|k: int|
                        0 <= k < r@.len() ==> (#[trigger] r@[k]).uri@ == r_before[k].uri@);
                    assert forall|k2: int| 0 <= k2 < r@.len() implies (#[trigger] r@[k2]).locs@
                        == refs_for(post, r@[k2].uri@) by {
                        if k2 == f {
                            assert(r@[k2].locs@ == r_before[k2].locs@.push(
                                RefLoc {
                                    line: locs@[i as int].line,
                                    character: locs@[i as int].character,
                                },
                            ));
                            assert(refs_for(post, r@[k2].uri@) =~= refs_for(
                                pre,
                                r@[k2].uri@,
                            ).push(
                                RefLoc {
                                    line: locs@[i as int].line,
                                    character: locs@[i as int].character,
                                },
                            ));
                        } else {
                            assert(r@[k2].locs@ == r_before[k2].locs@);
                            assert(r@[k2].uri@ != locs@[i as int].uri@) by {
                                if k2 < f {
                                    assert(r_before[k2].uri@ != r_before[f as int].uri@);
                                } else {
                                    assert(r_before[f as int].uri@ != r_before[k2].uri@);
                                }
                            }
                            assert(refs_for(post, r@[k2].uri@) =~= refs_for(pre, r@[k2].uri@));
                        }
                    }
                    assert forall|j: int| 0 <= j < i + 1 implies exists|k: int|
                        0 <= k < r@.len() && (#[trigger] r@[k]).uri@ == (#[trigger] locs@[j]).uri@ by {
                        if j < i {
                            let kw = choose|kw: int|
                                0 <= kw < r_before.len() && r_before[kw].uri@ == locs@[j].uri@;
                            assert(r@[kw].uri@ == locs@[j].uri@);
                        } else {
                            assert(r@[f as int].uri@ == locs@[j].uri@);
                        }
                    }
                }
            },
            None => {
                proof {
                    if refs_for(pre, locs@[i as int].uri@).len() > 0 {
                        lemma_refs_for_nonempty(pre, locs@[i as int].uri@);
                        let j = choose|j: int|
                            0 <= j < pre.len() && pre[j].uri@ == locs@[i as int].uri@;
                        assert(locs@[j].uri@ == locs@[i as int].uri@);
                        let kx = choose|kx: int|
                            0 <= kx < r_before.len() && r_before[kx].uri@ == locs@[j].uri@;
                        assert(false);
                    }
                    assert(refs_for(pre, locs@[i as int].uri@) =~= Seq::<RefLoc>::empty());
                }
                let mut g_locs: Vec<RefLoc> = Vec::new();
                g_locs.push(RefLoc { line: loc.line, character: loc.character });
                let g = UriGroup { uri: loc.uri.clone(), locs: g_locs };
                r.push(g);
                proof {
                    assert(forall|k: int|
                        0 <= k < r_before.len() ==> (#[trigger] r@[k]).uri@ == r_before[k].uri@
                            && r@[k].locs@ == r_before[k].locs@);
                    assert forall|k2: int| 0 <= k2 < r@.len() implies (#[trigger] r@[k2]).locs@
                        == refs_for(post, r@[k2].uri@) by {
                        if k2 == r@.len() - 1 {
                            assert(refs_for(post, r@[k2].uri@) =~= refs_for(
                                pre,
                                r@[k2].uri@,
                            ).push(
                                RefLoc {
                                    line: locs@[i as int].line,
                                    character: locs@[i as int].character,
                                },
                            ));
                            assert(r@[k2].locs@ =~= refs_for(post, r@[k2].uri@));
                        } else {
                            assert(r@[k2].uri@ != locs@[i as int].uri@);
                            assert(refs_for(post, r@[k2].uri@) =~= refs_for(pre, r@[k2].uri@));
                        }
                    }
                    assert forall|j: int| 0 <= j < i + 1 implies exists|k: int|
                        0 <= k < r@.len() && (#[trigger] r@[k]).uri@ == (#[trigger] locs@[j]).uri@ by {
                        if j < i {
                            let kw = choose|kw: int|
                                0 <= kw < r_before.len() && r_before[kw].uri@ == locs@[j].uri@;
                            assert(r@[kw].uri@ == locs@[j].uri@);
                        } else {
                            assert(r@[r@.len() - 1].uri@ == locs@[j].uri@);
                        }
                    }
                }
            },
        }
        i = i + 1;
    }
    proof {
        assert(locs@.subrange(0, locs@.len() as int) =~= locs@);
    }
    r
}

/// One reference listing: the line, its text, and a caret at the column.
pub open spec fn ref_block(s: Seq<char>, l: &RefLoc) -> Seq<char> {
    if l.line < count_lines(s) {
        "  Line "@ + dec_chars((l.line + 1) as nat) + ": "@ + line_of(s, l.line as nat) + "\n"@
            + "  "@ + repeated(' ', l.character + 7) + "^\n"@
    } else {
        Seq::<char>::empty()
    }
}

/// The listings of one file's references, in order.
pub open spec fn ref_blocks(s: Seq<char>, locs: Seq<RefLoc>) -> Seq<char>
    decreases locs.len(),
{
    if locs.len() == 0 {
        Seq::<char>::empty()
    } else {
        ref_blocks(s, locs.drop_last()) + ref_block(s, &locs.last())
    }
}

/// One file's section of a references report.
pub open spec fn file_section(path: Seq<char>, s: Seq<char>, locs: Seq<RefLoc>) -> Seq<char> {
    "File: "@ + path + "\n"@ + ref_blocks(s, locs) + "\n"@
}

/// The references of one file, with its display path and content.
pub struct FileReferences {
    pub path: String,
    pub content: String,
    pub locs: Vec<RefLoc>,
}

/// All file sections, in order.
pub open spec fn file_sections(files: Seq<FileReferences>) -> Seq<char>
    decreases files.len(),
{
    if files.len() == 0 {
        Seq::<char>::empty()
    } else {
        file_sections(files.drop_last()) + file_section(
            files.last().path@,
            files.last().content@,
            files.last().locs@,
        )
    }
}

/// The total number of references over all files.
pub open spec fn total_refs(files: Seq<FileReferences>) -> nat
    decreases files.len(),
{
    if files.len() == 0 {
        0
    } else {
        total_refs(files.drop_last()) + files.last().locs@.len()
    }
}

/// The report's opening line.
pub open spec fn references_header(symbol: Seq<char>, n: nat, m: nat) -> Seq<char> {
    "Found "@ + dec_chars(n) + " references to '"@ + symbol + "' in "@ + dec_chars(m)
        + " files:\n\n"@
}

fn push_ref_block(out: &mut Vec<char>, v: &Vec<char>, count: u64, l: &RefLoc)
    requires
        count == count_lines(v@),
    ensures
        final(out)@ == old(out)@ + ref_block(v@, l),
{
    if (l.line as u64) < count {
        push_str_chars(out, "  Line ");
        let d = dec_chars_exec(l.line as u64 + 1);
        extend_chars(out, &d);
        push_str_chars(out, ": ");
        let line = line_of_exec(v, l.line as u64);
        extend_chars(out, &line);
        push_str_chars(out, "\n");
        push_str_chars(out, "  ");
        let sp = repeat_char(' ', l.character as u64 + 7);
        extend_chars(out, &sp);
        push_str_chars(out, "^\n");
        proof {
            assert(out@ =~= old(out)@ + ref_block(v@, l));
        }
    } else {
        proof {
            assert(out@ =~= old(out)@ + ref_block(v@, l));
        }
    }
}

fn push_file_section(out: &mut Vec<char>, f: &FileReferences)
    ensures
        final(out)@ == old(out)@ + file_section(f.path@, f.content@, f.locs@),
{
    push_str_chars(out, "File: ");
    push_str_chars(out, f.path.as_str());
    push_str_chars(out, "\n");
    let v = chars_of(f.content.as_str());
    let count = count_lines_exec(&v);
    let ghost base = out@;
    let mut i: usize = 0;
    proof {
        assert(f.locs@.subrange(0, 0) =~= Seq::<RefLoc>::empty());
        assert(out@ =~= base + ref_blocks(v@, f.locs@.subrange(0, 0)));
    }
    while i < f.locs.len()
        invariant
            i <= f.locs@.len(),
            count == count_lines(v@),
            v@ == f.content@,
            out@ == base + ref_blocks(v@, f.locs@.subrange(0, i as int)),
        decreases f.locs@.len() - i,
    {
        push_ref_block(out, &v, count, &f.locs[i]);
        i = i + 1;
        proof {
            let pre = f.locs@.subrange(0, i as int);
            assert(pre.drop_last() =~= f.locs@.subrange(0, i - 1));
            assert(pre.last() == f.locs@[i - 1]);
            assert(out@ =~= base + ref_blocks(v@, pre));
        }
    }
    push_str_chars(out, "\n");
    proof {
        assert(f.locs@.subrange(0, f.locs@.len() as int) =~= f.locs@);
        assert(out@ =~= old(out)@ + file_section(f.path@, f.content@, f.locs@));
    }
}

/// Renders a references report: the count of references and files, then
/// per file each reference's line with a caret under its column. With no
/// files at all the result is the not-found error, the symbol named in
/// it.
pub fn render_references(symbol: &str, files: &Vec<FileReferences>) -> (r: Result<String, String>)
    requires
        total_refs(files@) <= u64::MAX,
    ensures
        files@.len() == 0 <==> r is Err,
        r matches Err(e) ==> e@ == "No references found for symbol: "@ + symbol@,
        r matches Ok(out) ==> out@ == references_header(
            symbol@,
            total_refs(files@),
            files@.len() as nat,
        ) + file_sections(files@),
{
    if files.len() == 0 {
        return Err(references_not_found(symbol));
    }
    let mut total: u64 = 0;
    let mut i: usize = 0;
    proof {
        assert(files@.subrange(0, 0) =~= Seq::<FileReferences>::empty());
    }
    while i < files.len()
        invariant
            i <= files@.len(),
            total == total_refs(files@.subrange(0, i as int)),
            total_refs(files@) <= u64::MAX,
        decreases files@.len() - i,
    {
        proof {
            lemma_total_refs_prefix(files@, i + 1);
            let pre = files@.subrange(0, i + 1 as int);
            assert(pre.drop_last() =~= files@.subrange(0, i as int));
            assert(pre.last() == files@[i as int]);
        }
        total = total + (files[i].locs.len() as u64);
        i = i + 1;
    }
    proof {
        assert(files@.subrange(0, files@.len() as int) =~= files@);
    }
    let mut out: Vec<char> = Vec::new();
    push_str_chars(&mut out, "Found ");
    let d = dec_chars_exec(total);
    extend_chars(&mut out, &d);
    push_str_chars(&mut out, " references to '");
    push_str_chars(&mut out, symbol);
    push_str_chars(&mut out, "' in ");
    let m = dec_chars_exec(files.len() as u64);
    extend_chars(&mut out, &m);
    push_str_chars(&mut out, " files:\n\n");
    let ghost base = out@;
    proof {
        assert(out@ =~= references_header(symbol@, total_refs(files@), files@.len() as nat));
        assert(files@.subrange(0, 0) =~= Seq::<FileReferences>::empty());
        assert(out@ =~= base + file_sections(files@.subrange(0, 0)));
    }
    let mut i: usize = 0;
    while i < files.len()
        invariant
            i <= files@.len(),
            out@ == base + file_sections(files@.subrange(0, i as int)),
        decreases files@.len() - i,
    {
        push_file_section(&mut out, &files[i]);
        i = i + 1;
        proof {
            let pre = files@.subrange(0, i as int);
            assert(pre.drop_last() =~= files@.subrange(0, i - 1));
            assert(pre.last() == files@[i - 1]);
            assert(out@ =~= base + file_sections(pre));
        }
    }
    proof {
        assert(files@.subrange(0, files@.len() as int) =~= files@);
    }
    Ok(string_of(out))
}

/// A prefix never counts more references than the whole.
proof fn lemma_total_refs_prefix(files: Seq<FileReferences>, k: int)
    requires
        0 <= k <= files.len(),
    ensures
        total_refs(files.subrange(0, k)) <= total_refs(files),
    decreases files.len() - k,
{
    if k < files.len() {
        lemma_total_refs_prefix(files, k + 1);
        assert(files.subrange(0, k + 1).drop_last() =~= files.subrange(0, k));
        assert(files.subrange(0, k + 1).last() == files[k]);
    } else {
        assert(files.subrange(0, k) =~= files);
    }
}

/// A definition site: the file it is in, that file's content, and the
/// reported range.
pub struct DefinitionSite {
    pub path: String,
    pub content: String,
    pub start_line: u32,
    pub start_char: u32,
    pub end_line: u32,
}

/// The lines `a..=b` of `s` that exist, each with its newline.
pub open spec fn snippet(s: Seq<char>, a: int, b: int) -> Seq<char>
    decreases b + 1 - a when a <= b + 1
{
    if a > b {
        Seq::<char>::empty()
    } else {
        snippet(s, a, b - 1) + (if 0 <= b < count_lines(s) {
            line_of(s, b as nat) + "\n"@
        } else {
            Seq::<char>::empty()
        })
    }
}

/// One definition site's section: where it was found, then the named
/// lines as a fenced code block in the file's language.
pub open spec fn definition_section(site: &DefinitionSite) -> Seq<char> {
    "Definition found in "@ + site.path@ + ":"@ + dec_chars((site.start_line + 1) as nat) + ":"@
        + dec_chars((site.start_char + 1) as nat) + "\n\n"@ + "```"@ + language_of(site.path@)
        + "\n"@ + snippet(
        site.content@,
        if site.start_line > site.end_line {
            site.end_line + 1
        } else {
            site.start_line as int
        },
        site.end_line as int,
    ) + "\n```"@ + "\n\n"@
}

/// All definition sections, in order.
pub open spec fn definition_sections(sites: Seq<DefinitionSite>) -> Seq<char>
    decreases sites.len(),
{
    if sites.len() == 0 {
        Seq::<char>::empty()
    } else {
        definition_sections(sites.drop_last()) + definition_section(&sites.last())
    }
}

fn push_snippet(out: &mut Vec<char>, v: &Vec<char>, count: u64, a: u64, b: u64)
    requires
        count == count_lines(v@),
        a <= b + 1,
        b < u64::MAX,
    ensures
        final(out)@ == old(out)@ + snippet(v@, a as int, b as int),
{
    let ghost base = out@;
    let mut ln: u64 = a;
    proof {
        assert(snippet(v@, a as int, a as int - 1) =~= Seq::<char>::empty());
        assert(out@ =~= base + snippet(v@, a as int, a as int - 1));
    }
    while ln <= b
        invariant
            a <= ln <= b + 1,
            b < u64::MAX,
            count == count_lines(v@),
            out@ == base + snippet(v@, a as int, ln as int - 1),
        decreases b + 1 - ln,
    {
        if ln < count {
            let line = line_of_exec(v, ln);
            extend_chars(out, &line);
            push_str_chars(out, "\n");
        }
        ln = ln + 1;
        proof {
            assert(out@ =~= base + snippet(v@, a as int, ln as int - 1));
        }
    }
}

fn push_definition_section(out: &mut Vec<char>, site: &DefinitionSite)
    ensures
        final(out)@ == old(out)@ + definition_section(site),
{
    push_str_chars(out, "Definition found in ");
    push_str_chars(out, site.path.as_str());
    push_str_chars(out, ":");
    let d1 = dec_chars_exec(site.start_line as u64 + 1);
    extend_chars(out, &d1);
    push_str_chars(out, ":");
    let d2 = dec_chars_exec(site.start_char as u64 + 1);
    extend_chars(out, &d2);
    push_str_chars(out, "\n\n");
    push_str_chars(out, "```");
    let lang = crate::tools::get_language_from_path(site.path.as_str());
    push_str_chars(out, lang.as_str());
    push_str_chars(out, "\n");
    let v = chars_of(site.content.as_str());
    let count = count_lines_exec(&v);
    let a: u64 = if site.start_line > site.end_line {
        site.end_line as u64 + 1
    } else {
        site.start_line as u64
    };
    push_snippet(out, &v, count, a, site.end_line as u64);
    push_str_chars(out, "\n```");
    push_str_chars(out, "\n\n");
    proof {
        assert(out@ =~= old(out)@ + definition_section(site));
    }
}

/// Renders a definition report: each site's location and a fenced code
/// block of its lines. With no sites at all the result is the not-found
/// error, the symbol named in it.
pub fn render_definition(symbol: &str, sites: &Vec<DefinitionSite>) -> (r: Result<String, String>)
    ensures
        sites@.len() == 0 <==> r is Err,
        r matches Err(e) ==> e@ == "Definition not found for symbol: "@ + symbol@,
        r matches Ok(out) ==> out@ == definition_sections(sites@),
{
    if sites.len() == 0 {
        return Err(definition_not_found(symbol));
    }
    let mut out: Vec<char> = Vec::new();
    let mut i: usize = 0;
    proof {
        assert(sites@.subrange(0, 0) =~= Seq::<DefinitionSite>::empty());
        assert(out@ =~= definition_sections(sites@.subrange(0, 0)));
    }
    while i < sites.len()
        invariant
            i <= sites@.len(),
            out@ == definition_sections(sites@.subrange(0, i as int)),
        decreases sites@.len() - i,
    {
        push_definition_section(&mut out, &sites[i]);
        i = i + 1;
        proof {
            let pre = sites@.subrange(0, i as int);
            assert(pre.drop_last() =~= sites@.subrange(0, i - 1));
            assert(pre.last() == sites@[i - 1]);
            assert(out@ =~= definition_sections(pre));
        }
    }
    proof {
        assert(sites@.subrange(0, sites@.len() as int) =~= sites@);
    }
    Ok(string_of(out))
}

} // verus!