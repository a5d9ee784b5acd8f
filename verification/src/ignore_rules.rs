//! The ignore filter over workspace paths: a hard-coded list of always-
//! ignored names, and the rules of the workspace's `.gitignore`, compiled
//! and matched by the `ignore` crate behind trusted declarations. The
//! answer for a path is a pure function of the workspace root, the rule
//! lines, and the path, so repeated queries always agree.

use vstd::prelude::*;
use vstd::string::*;

use crate::text::{chars_of, contains_chars, contains_seq, ends_with_chars, ends_with_seq,
    starts_with_chars, starts_with_seq, string_of, subrange_chars};

verus! {

#[verifier::external_type_specification]
#[verifier::external_body]
pub struct ExGitignore(ignore::gitignore::Gitignore);

#[verifier::external_type_specification]
#[verifier::external_body]
pub struct ExGitignoreBuilder(ignore::gitignore::GitignoreBuilder);

/// The root path a rule builder was made with.
pub uninterp spec fn builder_root(b: ignore::gitignore::GitignoreBuilder) -> Seq<char>;

/// The rule lines fed to a builder so far, in order.
pub uninterp spec fn builder_lines(b: ignore::gitignore::GitignoreBuilder) -> Seq<Seq<char>>;

/// The root path a compiled matcher was built against.
pub uninterp spec fn gitignore_root(g: ignore::gitignore::Gitignore) -> Seq<char>;

/// The rule lines a compiled matcher holds, in order.
pub uninterp spec fn gitignore_lines(g: ignore::gitignore::Gitignore) -> Seq<Seq<char>>;

/// Whether the glob compiler accepts a `.gitignore` line, under the
/// options a fresh builder carries (nothing here toggles them): a
/// deterministic parse of the line alone.
pub uninterp spec fn glob_accepts(line: Seq<char>) -> bool;

/// Whether compiling the rule set of the given fed lines succeeds: a
/// function of the lines alone.
pub uninterp spec fn build_succeeds(lines: Seq<Seq<char>>) -> bool;

/// Whether every line of a rule set is accepted by the glob compiler.
pub open spec fn lines_accepted(lines: Seq<Seq<char>>) -> bool {
    forall|i: int| 0 <= i < lines.len() ==> glob_accepts(#[trigger] lines[i])
}

/// Whether, under the rules of `lines` taken relative to `root`, the
/// (root-relative) `path` is ignored. The `ignore` crate computes this
/// from its arguments alone: one value per `(root, lines, path, is_dir)`.
pub uninterp spec fn gitignore_says_ignore(
    root: Seq<char>,
    lines: Seq<Seq<char>>,
    path: Seq<char>,
    is_dir: bool,
) -> bool;

/// Relies on `ignore::gitignore::GitignoreBuilder::new`: a fresh builder
/// for the given root, holding no rules yet.
#[verifier::external_body]
fn builder_new(root: &str) -> (b: ignore::gitignore::GitignoreBuilder)
    ensures
        builder_root(b) == root@,
        builder_lines(b) == Seq::<Seq<char>>::empty(),
{
    ignore::gitignore::GitignoreBuilder::new(root)
}

/// Relies on `ignore::gitignore::GitignoreBuilder::add_line`: whether a
/// line is taken is a deterministic parse of the line; on success it
/// joins the builder's rules, and a refused line leaves the builder as
/// it was.
#[verifier::external_body]
fn builder_add_line(b: &mut ignore::gitignore::GitignoreBuilder, line: &str) -> (ok: bool)
    ensures
        ok == glob_accepts(line@),
        ok ==> builder_lines(*final(b)) == builder_lines(*old(b)).push(line@) && builder_root(
            *final(b),
        ) == builder_root(*old(b)),
        !ok ==> *final(b) == *old(b),
{
    b.add_line(None, line).is_ok()
}

/// Relies on `ignore::gitignore::GitignoreBuilder::build`: whether the
/// rule set compiles is a function of the fed lines, and the matcher it
/// yields holds exactly the root and rules of the builder.
#[verifier::external_body]
fn builder_build(b: &ignore::gitignore::GitignoreBuilder) -> (r: Option<
    ignore::gitignore::Gitignore,
>)
    ensures
        (r is Some) == build_succeeds(builder_lines(*b)),
        r matches Some(g) ==> gitignore_root(g) == builder_root(*b) && gitignore_lines(g)
            == builder_lines(*b),
{
    b.build().ok()
}

/// Relies on `ignore::gitignore::Gitignore::matched`: whether the path is
/// ignored under its rules, a function of the matcher's root and
/// rules, the path, and whether it is a directory.
#[verifier::external_body]
fn gitignore_matched_ignore(
    g: &ignore::gitignore::Gitignore,
    path: &str,
    is_dir: bool,
) -> (r: bool)
    ensures
        r == gitignore_says_ignore(gitignore_root(*g), gitignore_lines(*g), path@, is_dir),
{
    matches!(g.matched(path, is_dir), ignore::Match::Ignore(_))
}

/// Whether a path is unconditionally ignored: anything under `.git`,
/// `node_modules`, `.venv` or `__pycache__`, and backup or swap files.
pub open spec fn always_ignored(p: Seq<char>) -> bool {
    ||| contains_seq(p, "/.git/"@)
    ||| ends_with_seq(p, "/.git"@)
    ||| contains_seq(p, "/node_modules/"@)
    ||| contains_seq(p, "/.venv/"@)
    ||| contains_seq(p, "/__pycache__/"@)
    ||| ends_with_seq(p, "~"@)
    ||| contains_seq(p, ".bak"@)
    ||| contains_seq(p, ".swp"@)
}

/// The path made relative to the workspace root: the root prefix and one
/// following separator dropped; a path not under the root is untouched.
pub open spec fn rel_path(root: Seq<char>, p: Seq<char>) -> Seq<char> {
    if starts_with_seq(p, root) {
        let rest = p.subrange(root.len() as int, p.len() as int);
        if rest.len() > 0 && rest[0] == '/' {
            rest.subrange(1, rest.len() as int)
        } else {
            rest
        }
    } else {
        p
    }
}

/// The ignore filter: the workspace root and, when a `.gitignore` was
/// found and compiled, its rules.
pub struct GitignoreFilter {
    gitignore: Option<ignore::gitignore::Gitignore>,
    workspace_root: String,
}

impl GitignoreFilter {
    /// The workspace root the filter was made for.
    pub closed spec fn spec_root(&self) -> Seq<char> {
        self.workspace_root@
    }

    /// The compiled rules: the root they were built against and their
    /// lines, or nothing when no `.gitignore` is in force.
    pub closed spec fn spec_rules(&self) -> Option<(Seq<char>, Seq<Seq<char>>)> {
        match self.gitignore {
            Some(g) => Some((gitignore_root(g), gitignore_lines(g))),
            None => None,
        }
    }

    /// What `is_ignored` answers for a path: always-ignored names, or
    /// what the gitignore rules say of the root-relative path.
    pub open spec fn is_ignored_spec(&self, p: Seq<char>) -> bool {
        always_ignored(p) || (match self.spec_rules() {
            Some((root, lines)) => gitignore_says_ignore(
                root,
                lines,
                rel_path(self.spec_root(), p),
                false,
            ),
            None => false,
        })
    }

    /// Builds the filter for a workspace. `lines` are the lines of the
    /// workspace's `.gitignore`, or nothing when the file is absent; a
    /// file with any line the glob compiler refuses leaves the filter
    /// with no gitignore rules, as if the file were absent. When every
    /// line is accepted and the rule set compiles, the rules are owed:
    /// exactly the given lines, against the given root.
    pub fn new(workspace_root: String, lines: Option<&Vec<String>>) -> (r: GitignoreFilter)
        ensures
            r.spec_root() == workspace_root@,
            r.spec_rules() matches Some((root, ls)) ==> root == workspace_root@ && (
            lines matches Some(given) && ls == given.deep_view()),
            lines is None ==> r.spec_rules() is None,
            lines matches Some(given) ==> ((lines_accepted(given.deep_view()) && build_succeeds(
                given.deep_view(),
            )) ==> r.spec_rules() == Some((workspace_root@, given.deep_view()))),
    {
        match lines {
            None => GitignoreFilter { gitignore: None, workspace_root },
            Some(ls) => {
                let mut b = builder_new(workspace_root.as_str());
                let mut i: usize = 0;
                let mut failed = false;
                while i < ls.len()
                    invariant
                        i <= ls@.len(),
                        builder_root(b) == workspace_root@,
                        !failed ==> builder_lines(b) == ls.deep_view().subrange(0, i as int),
                        failed ==> !lines_accepted(ls.deep_view()),
                    decreases ls@.len() - i,
                {
                    if !failed {
                        let ok = builder_add_line(&mut b, ls[i].as_str());
                        if !ok {
                            failed = true;
                            proof {
                                assert(!glob_accepts(ls.deep_view()[i as int]));
                            }
                        }
                        proof {
                            if !failed {
                                assert(builder_lines(b) =~= ls.deep_view().subrange(
                                    0,
                                    i + 1 as int,
                                ));
                            }
                        }
                    }
                    i = i + 1;
                }
                if failed {
                    return GitignoreFilter { gitignore: None, workspace_root };
                }
                proof {
                    assert(ls.deep_view().subrange(0, ls@.len() as int) =~= ls.deep_view());
                }
                match builder_build(&b) {
                    Some(g) => GitignoreFilter { gitignore: Some(g), workspace_root },
                    None => GitignoreFilter { gitignore: None, workspace_root },
                }
            },
        }
    }

    /// A reference to the workspace root path.
    pub fn workspace_root(&self) -> (r: &String)
        ensures
            r@ == self.spec_root(),
    {
        &self.workspace_root
    }

    /// Whether the path should be ignored: always-ignored names first,
    /// then the gitignore rules against the root-relative path.
    pub fn is_ignored(&self, path: &str) -> (r: bool)
        ensures
            r == self.is_ignored_spec(path@),
    {
        let pv = chars_of(path);
        let git_dir = chars_of("/.git/");
        let git_tail = chars_of("/.git");
        let node_modules = chars_of("/node_modules/");
        let venv = chars_of("/.venv/");
        let pycache = chars_of("/__pycache__/");
        let tilde = chars_of("~");
        let bak = chars_of(".bak");
        let swp = chars_of(".swp");
        if contains_chars(&pv, &git_dir) || ends_with_chars(&pv, &git_tail) || contains_chars(
            &pv,
            &node_modules,
        ) || contains_chars(&pv, &venv) || contains_chars(&pv, &pycache) || ends_with_chars(
            &pv,
            &tilde,
        ) || contains_chars(&pv, &bak) || contains_chars(&pv, &swp) {
            return true;
        }
        match &self.gitignore {
            None => false,
            Some(g) => {
                let rootv = chars_of(self.workspace_root.as_str());
                let rel: Vec<char> = if starts_with_chars(&pv, &rootv) {
                    let rest = subrange_chars(&pv, rootv.len(), pv.len());
                    if rest.len() > 0 && rest[0] == '/' {
                        subrange_chars(&rest, 1, rest.len())
                    } else {
                        rest
                    }
                } else {
                    subrange_chars(&pv, 0, pv.len())
                };
                proof {
                    assert(rel@ =~= rel_path(self.spec_root(), path@));
                }
                let rel_s = string_of(rel);
                gitignore_matched_ignore(g, rel_s.as_str(), false)
            },
        }
    }
}

/// The ignore decision is deterministic: it is a function of the rule
/// set and the path, so two queries for the same path under the same
/// filter always agree.
pub proof fn lemma_is_ignored_deterministic(
    f1: &GitignoreFilter,
    f2: &GitignoreFilter,
    p1: Seq<char>,
    p2: Seq<char>,
)
    requires
        f1.spec_root() == f2.spec_root(),
        f1.spec_rules() == f2.spec_rules(),
        p1 == p2,
    ensures
        f1.is_ignored_spec(p1) == f2.is_ignored_spec(p2),
{
}

} // verus!
