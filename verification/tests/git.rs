use fi::git::{
    branch_names_from_output, find_worktree_for_branch, has_conflict_markers, origin_ref,
    parse_worktree_list, unprotected_worktrees, WorktreeInfo,
};

const PORCELAIN: &str = "worktree /repo.git\nbare\n\nworktree /repo.git/work/fix/A-1-x\nHEAD abc\nbranch refs/heads/fix/A-1-x\n\nworktree /repo.git/master\nHEAD def\nbranch refs/heads/master\n\nworktree /repo.git/detached\nHEAD 123\ndetached\n\n";

#[test]
fn worktree_list_is_parsed() {
    let w = parse_worktree_list(PORCELAIN);
    assert_eq!(w.len(), 2);
    assert_eq!(w[0].path, "/repo.git/work/fix/A-1-x");
    assert_eq!(w[0].branch, "fix/A-1-x");
    assert_eq!(w[1].path, "/repo.git/master");
    assert_eq!(w[1].branch, "master");
    assert!(parse_worktree_list("").is_empty());
}

#[test]
fn worktree_lookup_by_branch() {
    let w = parse_worktree_list(PORCELAIN);
    assert_eq!(find_worktree_for_branch(&w, "master"), Some("/repo.git/master".to_string()));
    assert_eq!(find_worktree_for_branch(&w, "develop"), None);
}

#[test]
fn persistent_worktrees_are_left_out() {
    let w = vec![
        WorktreeInfo { path: "/a".into(), branch: "master".into() },
        WorktreeInfo { path: "/b".into(), branch: "fix/A-1-x".into() },
        WorktreeInfo { path: "/c".into(), branch: "develop".into() },
    ];
    let kept = unprotected_worktrees(&w, &vec!["master".to_string(), "develop".to_string()]);
    assert_eq!(kept.len(), 1);
    assert_eq!(kept[0].path, "/b");
}

#[test]
fn branch_list_output() {
    assert_eq!(
        branch_names_from_output("  main\n* fix/A-1-x\n\n  dev\r\n"),
        vec!["main".to_string(), "* fix/A-1-x".to_string(), "dev".to_string()]
    );
    assert!(branch_names_from_output("").is_empty());
}

#[test]
fn merge_tree_markers() {
    assert!(has_conflict_markers("a\n<<<<<<< .our\nx\n=======\n"));
    assert!(!has_conflict_markers("<<<<<< only six"));
}

#[test]
fn remote_ref_name() {
    assert_eq!(origin_ref("develop"), "origin/develop");
}

#[test]
fn lines_follow_str_lines() {
    let lines = |s: &str| -> Vec<String> {
        fi::text::lines_vec(&s.chars().collect()).into_iter().map(|l| l.into_iter().collect()).collect()
    };
    for s in ["a\r\nb\n", "a\nb\r", "a\r\n\r\n", "", "\n", "x", "a\n\nb\r\n"] {
        let expected: Vec<String> = s.lines().map(|l| l.to_string()).collect();
        assert_eq!(lines(s), expected, "{:?}", s);
    }
}

#[test]
fn current_branch_output() {
    assert_eq!(fi::git::shown_branch("fix/A-1-x\n"), Some("fix/A-1-x".to_string()));
    assert_eq!(fi::git::shown_branch(" \n"), None);
    assert_eq!(fi::git::detached_label("abc1234\n"), "(detached) abc1234");
}
