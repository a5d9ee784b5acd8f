use mcp_language_server::ignore_rules::GitignoreFilter;
use mcp_language_server::watcher::{FileEventKind, WatcherAction, decide_event};

fn filter_with(lines: &[&str]) -> GitignoreFilter {
    let lines: Vec<String> = lines.iter().map(|l| String::from(*l)).collect();
    GitignoreFilter::new(String::from("/w"), Some(&lines))
}

#[test]
fn always_ignored_names() {
    let f = GitignoreFilter::new(String::from("/w"), None);
    assert!(f.is_ignored("/w/.git/config"));
    assert!(f.is_ignored("/w/.git"));
    assert!(f.is_ignored("/w/node_modules/pkg/index.js"));
    assert!(f.is_ignored("/w/.venv/bin/python"));
    assert!(f.is_ignored("/w/__pycache__/m.pyc"));
    assert!(f.is_ignored("/w/notes.txt~"));
    assert!(f.is_ignored("/w/old.bak"));
    assert!(f.is_ignored("/w/.file.swp"));
    assert!(!f.is_ignored("/w/src/main.rs"));
}

#[test]
fn gitignore_patterns_apply() {
    let f = filter_with(&["*.log", "temp/"]);
    assert!(f.is_ignored("/w/a.log"));
    assert!(f.is_ignored("/w/deep/dir/b.log"));
    assert!(!f.is_ignored("/w/a.rs"));
}

#[test]
fn no_gitignore_means_only_always_ignored() {
    let f = GitignoreFilter::new(String::from("/w"), None);
    assert!(!f.is_ignored("/w/a.log"));
    assert_eq!(f.workspace_root(), "/w");
}

#[test]
fn ignore_answers_are_deterministic_across_calls() {
    let f = filter_with(&["*.log"]);
    for path in ["/w/a.log", "/w/b.rs", "/w/.git/x"] {
        let first = f.is_ignored(path);
        for _ in 0..10 {
            assert_eq!(f.is_ignored(path), first);
        }
    }
}

#[test]
fn watcher_events_respect_ignores_and_openness() {
    let f = filter_with(&["*.log", "temp/"]);
    // An ignored file never produces traffic.
    assert!(matches!(
        decide_event(FileEventKind::Create, f.is_ignored("/w/a.log"), true, true),
        WatcherAction::Nothing
    ));
    // A file nobody has open produces no traffic either.
    assert!(matches!(
        decide_event(FileEventKind::Create, f.is_ignored("/w/temp/x.rs"), true, false),
        WatcherAction::Nothing
    ));
    // An open tracked file that changed is re-announced.
    assert!(matches!(
        decide_event(FileEventKind::Modify, f.is_ignored("/w/src/main.rs"), true, true),
        WatcherAction::NotifyChange
    ));
    // A removed open file is closed.
    assert!(matches!(
        decide_event(FileEventKind::Remove, f.is_ignored("/w/src/main.rs"), false, true),
        WatcherAction::CloseFile
    ));
    // Other event kinds do nothing.
    assert!(matches!(
        decide_event(FileEventKind::Other, false, true, true),
        WatcherAction::Nothing
    ));
}

#[test]
fn unparsable_gitignore_line_disables_rules() {
    // A lone "!" does not parse as a glob; the rules are dropped wholesale.
    let f = filter_with(&["!"]);
    assert!(!f.is_ignored("/w/a.log"));
}
