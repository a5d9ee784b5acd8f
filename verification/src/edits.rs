//! Whole-line text edits: each edit names a 1-indexed inclusive range of
//! lines and replacement text. The replaced region runs from the start of
//! the first named line through the end of the last named line, its
//! terminating newline included; a range past the last line replaces
//! through end-of-file. Edits are applied in descending start order, so
//! the positions of the edits still to come stay valid.

use vstd::prelude::*;
use vstd::string::*;

use crate::text::{extend_chars, subrange_chars};

verus! {

/// One whole-line edit: replace lines `start_line..=end_line` (1-indexed)
/// with `new_text`.
pub struct TextEditParams {
    pub start_line: u32,
    pub end_line: u32,
    pub new_text: String,
}

impl TextEditParams {
    /// Lines are 1-indexed and the range is inclusive, so it must not be
    /// empty or start at zero.
    pub open spec fn wf(&self) -> bool {
        1 <= self.start_line <= self.end_line
    }
}

/// The first index at or after `from` holding `c`, or the length when
/// there is none.
pub open spec fn find_char(s: Seq<char>, from: int, c: char) -> int
    decreases s.len() - from when 0 <= from <= s.len()
{
    if from >= s.len() {
        s.len() as int
    } else if s[from] == c {
        from
    } else {
        find_char(s, from + 1, c)
    }
}

pub proof fn lemma_find_char_props(s: Seq<char>, from: int, c: char)
    requires
        0 <= from <= s.len(),
    ensures
        from <= find_char(s, from, c) <= s.len(),
        find_char(s, from, c) < s.len() ==> s[find_char(s, from, c)] == c,
        forall|j: int| from <= j < find_char(s, from, c) ==> s[j] != c,
    decreases s.len() - from,
{
    if from < s.len() && s[from] != c {
        lemma_find_char_props(s, from + 1, c);
    }
}

/// The index just past the newline that ends the line beginning at `p`,
/// or the content length when that line runs to end-of-file.
pub open spec fn next_line_start(s: Seq<char>, p: int) -> int {
    if find_char(s, p, '\n') < s.len() {
        find_char(s, p, '\n') + 1
    } else {
        s.len() as int
    }
}

/// The index where line `k` (0-indexed) begins; the content length when
/// there is no such line.
pub open spec fn line_start(s: Seq<char>, k: nat) -> int
    decreases k,
{
    if k == 0 {
        0
    } else {
        next_line_start(s, line_start(s, (k - 1) as nat))
    }
}

pub proof fn lemma_line_start_bounds(s: Seq<char>, k: nat)
    ensures
        0 <= line_start(s, k) <= s.len(),
    decreases k,
{
    if k > 0 {
        lemma_line_start_bounds(s, (k - 1) as nat);
        lemma_find_char_props(s, line_start(s, (k - 1) as nat), '\n');
    }
}

pub proof fn lemma_line_start_monotone(s: Seq<char>, j: nat, k: nat)
    requires
        j <= k,
    ensures
        line_start(s, j) <= line_start(s, k),
    decreases k,
{
    if j < k {
        lemma_line_start_monotone(s, j, (k - 1) as nat);
        lemma_line_start_bounds(s, (k - 1) as nat);
        lemma_find_char_props(s, line_start(s, (k - 1) as nat), '\n');
    }
}

/// `s` with `s[a..b]` replaced by `t`.
pub open spec fn splice(s: Seq<char>, a: int, b: int, t: Seq<char>) -> Seq<char> {
    s.subrange(0, a) + t + s.subrange(b, s.len() as int)
}

/// The first index an edit replaces: the start of its first line.
pub open spec fn edit_start(s: Seq<char>, e: &TextEditParams) -> int {
    line_start(s, (e.start_line - 1) as nat)
}

/// The index just past what an edit replaces: the start of the line after
/// its last line, which is the content length when the range runs past
/// the last line.
pub open spec fn edit_end(s: Seq<char>, e: &TextEditParams) -> int {
    line_start(s, e.end_line as nat)
}

/// One edit applied to `s`.
pub open spec fn apply_line_edit(s: Seq<char>, e: &TextEditParams) -> Seq<char> {
    splice(s, edit_start(s, e), edit_end(s, e), e.new_text@)
}

/// All edits applied in descending start order: the last edit of the
/// (ascending) sequence first.
pub open spec fn apply_edits_desc(s: Seq<char>, edits: Seq<TextEditParams>) -> Seq<char>
    decreases edits.len(),
{
    if edits.len() == 0 {
        s
    } else {
        apply_edits_desc(apply_line_edit(s, &edits.last()), edits.drop_last())
    }
}

/// Finds the first `c` at or after `from`, or the length.
pub fn find_char_in(v: &Vec<char>, from: usize, c: char) -> (r: usize)
    requires
        from <= v@.len(),
    ensures
        r == find_char(v@, from as int, c),
{
    let n = v.len();
    let mut i: usize = from;
    loop
        invariant
            from <= i <= n,
            n == v@.len(),
            find_char(v@, from as int, c) == find_char(v@, i as int, c),
        decreases n - i,
    {
        if i == n {
            return i;
        }
        if v[i] == c {
            return i;
        }
        i = i + 1;
    }
}

/// Computes where line `k` begins.
pub fn line_start_exec(v: &Vec<char>, k: u64) -> (r: usize)
    ensures
        r == line_start(v@, k as nat),
{
    let mut i: u64 = 0;
    let mut pos: usize = 0;
    proof {
        lemma_line_start_bounds(v@, 0);
    }
    while i < k
        invariant
            i <= k,
            pos == line_start(v@, i as nat),
            pos <= v@.len(),
        decreases k - i,
    {
        let nl = find_char_in(v, pos, '\n');
        if nl < v.len() {
            pos = nl + 1;
        } else {
            pos = v.len();
        }
        i = i + 1;
        proof {
            lemma_find_char_props(v@, line_start(v@, (i - 1) as nat), '\n');
        }
    }
    pos
}

/// Builds `v` with `v[a..b]` replaced by the characters of `t`.
pub fn splice_exec(v: &Vec<char>, a: usize, b: usize, t: &str) -> (r: Vec<char>)
    requires
        a <= b <= v@.len(),
    ensures
        r@ == splice(v@, a as int, b as int, t@),
{
    let mut r = subrange_chars(v, 0, a);
    let tail = subrange_chars(v, b, v.len());
    let tv = crate::text::chars_of(t);
    extend_chars(&mut r, &tv);
    extend_chars(&mut r, &tail);
    proof {
        assert(r@ =~= splice(v@, a as int, b as int, t@));
    }
    r
}

/// Applies one whole-line edit.
pub fn apply_line_edit_exec(v: &Vec<char>, e: &TextEditParams) -> (r: Vec<char>)
    requires
        e.wf(),
    ensures
        r@ == apply_line_edit(v@, e),
{
    let a = line_start_exec(v, (e.start_line - 1) as u64);
    let b = line_start_exec(v, e.end_line as u64);
    proof {
        lemma_line_start_monotone(v@, (e.start_line - 1) as nat, e.end_line as nat);
        lemma_line_start_bounds(v@, e.end_line as nat);
    }
    splice_exec(v, a, b, e.new_text.as_str())
}

/// Applies the edits in descending start order: the last edit given is
/// applied first, so the positions of those before it stay valid.
pub fn apply_text_edits_content(content: &Vec<char>, edits: &Vec<TextEditParams>) -> (r: Vec<
    char,
>)
    requires
        forall|i: int| 0 <= i < edits@.len() ==> (#[trigger] edits@[i]).wf(),
    ensures
        r@ == apply_edits_desc(content@, edits@),
{
    let mut cur = subrange_chars(content, 0, content.len());
    proof {
        assert(cur@ =~= content@);
    }
    let mut i: usize = edits.len();
    proof {
        assert(edits@.subrange(0, edits@.len() as int) =~= edits@);
    }
    while i > 0
        invariant
            i <= edits@.len(),
            forall|j: int| 0 <= j < edits@.len() ==> (#[trigger] edits@[j]).wf(),
            apply_edits_desc(content@, edits@) == apply_edits_desc(
                cur@,
                edits@.subrange(0, i as int),
            ),
        decreases i,
    {
        let next = apply_line_edit_exec(&cur, &edits[i - 1]);
        cur = next;
        i = i - 1;
        proof {
            let pre = edits@.subrange(0, i + 1);
            assert(pre.last() == edits@[i as int]);
            assert(pre.drop_last() =~= edits@.subrange(0, i as int));
        }
    }
    proof {
        assert(edits@.subrange(0, 0) =~= Seq::<TextEditParams>::empty());
    }
    cur
}

/// Checks that every edit names a well-formed 1-indexed line range.
pub fn edits_well_formed(edits: &Vec<TextEditParams>) -> (r: bool)
    ensures
        r == forall|i: int| 0 <= i < edits@.len() ==> (#[trigger] edits@[i]).wf(),
{
    let mut i: usize = 0;
    while i < edits.len()
        invariant
            i <= edits@.len(),
            forall|j: int| 0 <= j < i ==> (#[trigger] edits@[j]).wf(),
        decreases edits@.len() - i,
    {
        if edits[i].start_line < 1 || edits[i].start_line > edits[i].end_line {
            return false;
        }
        i = i + 1;
    }
    true
}

/// Like `lemma_find_char_props` in the exact direction: where the first
/// `c` is known, `find_char` returns it.
proof fn lemma_find_char_exact(s: Seq<char>, from: int, c: char, at: int)
    requires
        0 <= from <= at < s.len(),
        s[at] == c,
        forall|j: int| from <= j < at ==> s[j] != c,
    ensures
        find_char(s, from, c) == at,
    decreases at - from,
{
    if from < at {
        lemma_find_char_exact(s, from + 1, c, at);
    }
}

/// A line that begins before the end of the content begins at 0 or right
/// after a newline.
proof fn lemma_line_start_anchor(s: Seq<char>, k: nat)
    requires
        line_start(s, k) < s.len() || (s.len() > 0 && s[s.len() - 1] == '\n'),
    ensures
        line_start(s, k) == 0 || s[line_start(s, k) - 1] == '\n',
{
    if k > 0 {
        let q = line_start(s, (k - 1) as nat);
        lemma_line_start_bounds(s, (k - 1) as nat);
        lemma_find_char_props(s, q, '\n');
        let f = find_char(s, q, '\n');
        if f < s.len() {
            assert(line_start(s, k) == f + 1);
        } else {
            assert(line_start(s, k) == s.len());
        }
    }
}

/// Line starts are determined by the prefix they lie in: content that
/// agrees with `s` on `s[0..p]` has the same start for any line that
/// begins at or before `p` behind a newline (or at the very front).
proof fn lemma_line_start_prefix(s: Seq<char>, s2: Seq<char>, p: int, k: nat)
    requires
        0 <= p <= s.len(),
        p <= s2.len(),
        s.subrange(0, p) == s2.subrange(0, p),
        line_start(s, k) <= p,
        k > 0 ==> line_start(s, (k - 1) as nat) < s.len(),
        k > 0 ==> line_start(s, k) < s.len() || (s.len() > 0 && s[s.len() - 1] == '\n'),
    ensures
        line_start(s2, k) == line_start(s, k),
    decreases k,
{
    if k > 0 {
        let q = line_start(s, (k - 1) as nat);
        let r = line_start(s, k);
        lemma_line_start_bounds(s, (k - 1) as nat);
        lemma_find_char_props(s, q, '\n');
        let f = find_char(s, q, '\n');
        if k == 1 {
        } else {
            lemma_line_start_monotone(s, (k - 2) as nat, (k - 1) as nat);
            lemma_line_start_bounds(s, (k - 2) as nat);
        }
        lemma_line_start_prefix(s, s2, p, (k - 1) as nat);
        assert forall|j: int| 0 <= j < p implies s2[j] == s[j] by {
            assert(s.subrange(0, p)[j] == s[j]);
            assert(s2.subrange(0, p)[j] == s2[j]);
        }
        if f < s.len() {
            assert(r == f + 1);
            assert(f < p);
            assert(s2[f] == '\n');
            assert(forall|j: int| q <= j < f ==> s2[j] != '\n');
            lemma_find_char_exact(s2, q, '\n', f);
            assert(line_start(s2, k) == f + 1);
        } else {
            // The line at `q` runs to the end of the content without a
            // newline: the last character is not one, which the
            // requirements rule out.
            assert(r == s.len());
            assert(s.len() > 0 && s[s.len() - 1] == '\n');
            assert(q <= s.len() - 1 < s.len());
            assert(s[s.len() - 1] != '\n');
            assert(false);
        }
    }
}

/// The character ranges the edits name against `s` itself.
pub open spec fn edit_ranges(s: Seq<char>, edits: Seq<TextEditParams>) -> Seq<(int, int, Seq<
    char,
>)> {
    edits.map(|i: int, e: TextEditParams| (edit_start(s, &e), edit_end(s, &e), e.new_text@))
}

/// Fixed character ranges spliced in descending order: each splice uses
/// the positions as given, never recomputing them.
pub open spec fn splice_ranges_desc(s: Seq<char>, rs: Seq<(int, int, Seq<char>)>) -> Seq<char>
    decreases rs.len(),
{
    if rs.len() == 0 {
        s
    } else {
        splice_ranges_desc(splice(s, rs.last().0, rs.last().1, rs.last().2), rs.drop_last())
    }
}

/// The edits are sorted and line-disjoint: each ends strictly before the
/// next begins.
pub open spec fn edits_sorted_disjoint(edits: Seq<TextEditParams>) -> bool {
    &&& forall|i: int| 0 <= i < edits.len() ==> (#[trigger] edits[i]).wf()
    &&& forall|i: int, j: int|
        0 <= i < j < edits.len() ==> (#[trigger] edits[i]).end_line < (#[trigger] edits[j]).start_line
}

/// Every edit but the last names lines that exist, and ends either before
/// end-of-file or at an end-of-file that a newline closes.
pub open spec fn edits_within(s: Seq<char>, edits: Seq<TextEditParams>) -> bool {
    forall|i: int|
        0 <= i < edits.len() - 1 ==> line_start(s, ((#[trigger] edits[i]).end_line - 1) as nat)
            < s.len() && (line_start(s, edits[i].end_line as nat) == s.len() ==> s.len() > 0
            && s[s.len() - 1] == '\n')
}

/// Applying sorted, line-disjoint, in-file edits in descending start
/// order replaces in each step exactly the character range the edit named
/// against the original content: the edits act independently, and any
/// application order that respects the descending-start discipline yields
/// this same result.
pub proof fn lemma_edits_independent(s: Seq<char>, edits: Seq<TextEditParams>)
    requires
        edits_sorted_disjoint(edits),
        edits_within(s, edits),
    ensures
        apply_edits_desc(s, edits) == splice_ranges_desc(s, edit_ranges(s, edits)),
    decreases edits.len(),
{
    if edits.len() == 0 {
    } else {
        let n = edits.len() as int;
        let e_n = edits.last();
        assert(e_n == edits[n - 1]);
        let a_n = edit_start(s, &e_n);
        let b_n = edit_end(s, &e_n);
        let s1 = apply_line_edit(s, &e_n);
        let edits2 = edits.drop_last();
        lemma_line_start_monotone(s, (e_n.start_line - 1) as nat, e_n.end_line as nat);
        lemma_line_start_bounds(s, e_n.end_line as nat);
        lemma_line_start_bounds(s, (e_n.start_line - 1) as nat);
        assert(s1.subrange(0, a_n) =~= s.subrange(0, a_n));
        // Each earlier edit keeps its positions in the spliced content,
        // and its lines and anchors survive into it.
        assert forall|i: int| 0 <= i < edits2.len() implies {
            &&& edit_start(s1, &edits2[i]) == edit_start(s, &edits2[i])
            &&& edit_end(s1, &edits2[i]) == edit_end(s, &edits2[i])
            &&& line_start(s1, ((#[trigger] edits2[i]).end_line - 1) as nat) < s1.len()
            &&& (line_start(s1, edits2[i].end_line as nat) == s1.len() ==> s1.len() > 0
                && s1[s1.len() - 1] == '\n')
        } by {
            assert(edits2[i] == edits[i]);
            let e = edits[i];
            assert(e.end_line < e_n.start_line && e.wf() && e_n.wf()) by {
                lemma_edit_le(s, edits, i, n - 1);
            }
            let a_i = line_start(s, (e.start_line - 1) as nat);
            let q_i = line_start(s, (e.end_line - 1) as nat);
            let b_i = line_start(s, e.end_line as nat);
            lemma_line_start_bounds(s, (e.start_line - 1) as nat);
            lemma_line_start_bounds(s, (e.end_line - 1) as nat);
            lemma_line_start_bounds(s, e.end_line as nat);
            assert(q_i < s.len() && (b_i == s.len() ==> s.len() > 0 && s[s.len() - 1] == '\n'));
            assert(q_i < b_i) by {
                lemma_find_char_props(s, q_i, '\n');
                lemma_line_start_monotone(s, (e.end_line - 1) as nat, e.end_line as nat);
            }
            assert(b_i <= a_n) by {
                lemma_line_start_monotone(s, e.end_line as nat, (e_n.start_line - 1) as nat);
            }
            assert(a_i <= q_i) by {
                lemma_line_start_monotone(s, (e.start_line - 1) as nat, (e.end_line - 1) as nat);
            }
            assert(a_n <= s1.len()) by {
                assert(s1.len() == a_n + e_n.new_text@.len() + (s.len() - b_n));
            }
            if e.start_line - 1 > 0 {
                lemma_line_start_monotone(s, (e.start_line - 2) as nat, (e.start_line - 1) as nat);
            }
            if e.end_line - 1 > 0 {
                lemma_line_start_monotone(s, (e.end_line - 2) as nat, (e.end_line - 1) as nat);
            }
            lemma_line_start_prefix(s, s1, a_n, (e.start_line - 1) as nat);
            lemma_line_start_prefix(s, s1, a_n, (e.end_line - 1) as nat);
            lemma_line_start_prefix(s, s1, a_n, e.end_line as nat);
            if b_i == s1.len() {
                lemma_line_start_anchor(s, e.end_line as nat);
                assert(b_i >= 1);
                assert(s1[b_i - 1] == s[b_i - 1]) by {
                    assert(s1.subrange(0, a_n)[b_i - 1] == s.subrange(0, a_n)[b_i - 1]);
                    assert(s1.subrange(0, a_n)[b_i - 1] == s1[b_i - 1]);
                    assert(s.subrange(0, a_n)[b_i - 1] == s[b_i - 1]);
                }
            }
        }
        assert(edits_within(s1, edits2));
        assert(edits_sorted_disjoint(edits2)) by {
            assert(forall|i: int| 0 <= i < edits2.len() ==> edits2[i] == edits[i]);
        }
        lemma_edits_independent(s1, edits2);
        assert(edit_ranges(s1, edits2) =~= edit_ranges(s, edits2));
        assert(edit_ranges(s, edits).drop_last() =~= edit_ranges(s, edits2));
        assert(edit_ranges(s, edits).last() == (a_n, b_n, e_n.new_text@));
        assert(splice_ranges_desc(s, edit_ranges(s, edits)) == splice_ranges_desc(
            s1,
            edit_ranges(s, edits2),
        ));
    }
}

/// Sorted, disjoint edits: an earlier edit ends on a line strictly before
/// a later edit's first line.
proof fn lemma_edit_le(s: Seq<char>, edits: Seq<TextEditParams>, i: int, j: int)
    requires
        edits_sorted_disjoint(edits),
        0 <= i < j < edits.len(),
    ensures
        edits[i].end_line < edits[j].start_line,
        edits[i].wf(),
        edits[j].wf(),
{
}

/// One positional edit as an LSP server supplies it: a 0-indexed
/// line/character range and replacement text.
pub struct LspTextEdit {
    pub start_line: u32,
    pub start_char: u32,
    pub end_line: u32,
    pub end_char: u32,
    pub new_text: String,
}

/// The character index of an LSP position: the start of its line plus
/// the character offset, stopping at the end of that line (a position on
/// a line past the content collapses to the content's end).
pub open spec fn lsp_index(s: Seq<char>, line: nat, ch: nat) -> int {
    let ls = line_start(s, line);
    let le = find_char(s, ls, '\n');
    if ls + ch <= le {
        ls + ch
    } else {
        le
    }
}

/// One positional edit applied to `s`; a range whose start falls after
/// its end is skipped.
pub open spec fn apply_lsp_edit(s: Seq<char>, e: &LspTextEdit) -> Seq<char> {
    let a = lsp_index(s, e.start_line as nat, e.start_char as nat);
    let b = lsp_index(s, e.end_line as nat, e.end_char as nat);
    if a <= b {
        splice(s, a, b, e.new_text@)
    } else {
        s
    }
}

/// All positional edits applied in descending start order: the last edit
/// given first.
pub open spec fn apply_lsp_edits_desc(s: Seq<char>, edits: Seq<LspTextEdit>) -> Seq<char>
    decreases edits.len(),
{
    if edits.len() == 0 {
        s
    } else {
        apply_lsp_edits_desc(apply_lsp_edit(s, &edits.last()), edits.drop_last())
    }
}

/// Computes the character index of an LSP position in `v`.
pub fn lsp_index_exec(v: &Vec<char>, line: u32, ch: u32) -> (r: usize)
    ensures
        r == lsp_index(v@, line as nat, ch as nat),
        r <= v@.len(),
{
    let ls = line_start_exec(v, line as u64);
    proof {
        lemma_line_start_bounds(v@, line as nat);
        lemma_find_char_props(v@, ls as int, '\n');
    }
    let le = find_char_in(v, ls, '\n');
    if ch as usize <= le - ls {
        ls + (ch as usize)
    } else {
        le
    }
}

/// Applies one positional edit.
pub fn apply_lsp_edit_exec(v: &Vec<char>, e: &LspTextEdit) -> (r: Vec<char>)
    ensures
        r@ == apply_lsp_edit(v@, e),
{
    let a = lsp_index_exec(v, e.start_line, e.start_char);
    let b = lsp_index_exec(v, e.end_line, e.end_char);
    proof {
        lemma_line_start_bounds(v@, e.end_line as nat);
    }
    if a <= b {
        splice_exec(v, a, b, e.new_text.as_str())
    } else {
        subrange_chars(v, 0, v.len())
    }
}

/// Applies the positional edits in descending start order: the last edit
/// given is applied first.
pub fn apply_lsp_edits_content(content: &Vec<char>, edits: &Vec<LspTextEdit>) -> (r: Vec<char>)
    ensures
        r@ == apply_lsp_edits_desc(content@, edits@),
{
    let mut cur = subrange_chars(content, 0, content.len());
    proof {
        assert(cur@ =~= content@);
        assert(edits@.subrange(0, edits@.len() as int) =~= edits@);
    }
    let mut i: usize = edits.len();
    while i > 0
        invariant
            i <= edits@.len(),
            apply_lsp_edits_desc(content@, edits@) == apply_lsp_edits_desc(
                cur@,
                edits@.subrange(0, i as int),
            ),
        decreases i,
    {
        let next = apply_lsp_edit_exec(&cur, &edits[i - 1]);
        cur = next;
        i = i - 1;
        proof {
            let pre = edits@.subrange(0, i + 1);
            assert(pre.last() == edits@[i as int]);
            assert(pre.drop_last() =~= edits@.subrange(0, i as int));
        }
    }
    proof {
        assert(edits@.subrange(0, 0) =~= Seq::<LspTextEdit>::empty());
    }
    cur
}

/// The confirmation for a batch of whole-line edits.
pub fn edit_summary(count: usize, path: &str) -> (r: String)
    ensures
        r@ == "Successfully applied "@ + crate::text::dec_chars(count as nat) + " edits to "@
            + path@,
{
    let mut out: Vec<char> = Vec::new();
    crate::text::push_str_chars(&mut out, "Successfully applied ");
    let d = crate::text::dec_chars_exec(count as u64);
    extend_chars(&mut out, &d);
    crate::text::push_str_chars(&mut out, " edits to ");
    crate::text::push_str_chars(&mut out, path);
    crate::text::string_of(out)
}

/// The summary for an applied workspace edit.
pub fn workspace_edit_summary(edits: usize, files: usize) -> (r: String)
    ensures
        r@ == "Applied "@ + crate::text::dec_chars(edits as nat) + " edits across "@
            + crate::text::dec_chars(files as nat) + " files"@,
{
    let mut out: Vec<char> = Vec::new();
    crate::text::push_str_chars(&mut out, "Applied ");
    let d = crate::text::dec_chars_exec(edits as u64);
    extend_chars(&mut out, &d);
    crate::text::push_str_chars(&mut out, " edits across ");
    let f = crate::text::dec_chars_exec(files as u64);
    extend_chars(&mut out, &f);
    crate::text::push_str_chars(&mut out, " files");
    crate::text::string_of(out)
}

} // verus!
