use codegraph::git::{history_limit, index_status, push_refspec, repo_status, worktree_status, StatusFlags};
use codegraph::text::text_eq;
use codegraph::workspace::is_ignored_entry;

fn flags() -> StatusFlags {
    StatusFlags {
        wt_new: false,
        wt_modified: false,
        wt_deleted: false,
        wt_renamed: false,
        wt_typechange: false,
        index_new: false,
        index_modified: false,
        index_deleted: false,
        index_renamed: false,
        index_typechange: false,
    }
}

#[test]
fn status_codes() {
    let mut f = flags();
    assert!(worktree_status("a", &f).is_none());
    assert!(index_status("a", &f).is_none());
    f.wt_new = true;
    assert_eq!(worktree_status("a", &f).unwrap().status, "U");
    f.wt_new = false;
    f.wt_modified = true;
    assert_eq!(worktree_status("a", &f).unwrap().status, "M");
    f.wt_modified = false;
    f.wt_renamed = true;
    assert_eq!(worktree_status("a", &f).unwrap().status, "?");
    let mut g = flags();
    g.index_new = true;
    assert_eq!(index_status("b", &g).unwrap().status, "A");
    g.index_new = false;
    g.index_deleted = true;
    let s = index_status("b", &g).unwrap();
    assert_eq!((s.path.as_str(), s.status.as_str()), ("b", "D"));
}

#[test]
fn repo_status_splits_changes_and_staged() {
    let mut both = flags();
    both.wt_modified = true;
    both.index_new = true;
    let mut only_wt = flags();
    only_wt.wt_deleted = true;
    let entries = vec![("x.rs".to_string(), both), ("y.rs".to_string(), only_wt), ("z.rs".to_string(), flags())];
    let st = repo_status(Some("main".to_string()), &entries);
    assert_eq!(st.branch, "main");
    let changes: Vec<(String, String)> = st.changes.iter().map(|c| (c.path.clone(), c.status.clone())).collect();
    assert_eq!(changes, vec![("x.rs".to_string(), "M".to_string()), ("y.rs".to_string(), "D".to_string())]);
    let staged: Vec<(String, String)> = st.staged.iter().map(|c| (c.path.clone(), c.status.clone())).collect();
    assert_eq!(staged, vec![("x.rs".to_string(), "A".to_string())]);
    assert_eq!(repo_status(None, &vec![]).branch, "DETACHED");
}

#[test]
fn history_and_refspec() {
    assert_eq!(history_limit(None), 50);
    assert_eq!(history_limit(Some(3)), 3);
    assert_eq!(push_refspec("dev"), "refs/heads/dev:refs/heads/dev");
}

#[test]
fn ignored_directory_entries() {
    for name in ["node_modules", "target", ".git", "dist", "build", ".idea", ".vscode", "out", ".env"] {
        assert!(is_ignored_entry(name), "{}", name);
    }
    for name in ["src", "output", "main.rs", ""] {
        assert!(!is_ignored_entry(name), "{}", name);
    }
}

#[test]
fn text_equality() {
    assert!(text_eq("abc", "abc"));
    assert!(!text_eq("abc", "abd"));
    assert!(!text_eq("ab", "abc"));
    assert!(text_eq("", ""));
}
