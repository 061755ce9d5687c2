use fi::commands::pr::{
    assess_target, next_check, unresolved_path, Check, Gathered,
    assessment_for_conflict_base, blocked_default_target, build_pr_vars, conflict_branch_name,
    conflict_worktree_dir, extract_json_str, feature_branch_of, git_dir_path, parse_branch,
    planned_conflict_worktree, pr_branches, pr_status_from_output, render_pr_text, repo_for_git_dir,
    targets_needing, to_title_case, BranchRefusal, PrStatus, Span, Style, TargetAssessment, TargetNeed,
};
use fi::config::{CommonConfig, RepoConfig, RepoType};

const FMT: &str = "{branchPrefix}/{ticket.key}{conflictBase: '-$1'}-{slug}";
const FMT_PLAIN: &str = "{branchPrefix}/{ticket.key}-{slug}";

#[test]
fn parse_normal_branch() {
    let b = parse_branch("fix/CAPY-1234-some-feature", FMT).unwrap();
    assert_eq!(b.prefix, "fix");
    assert_eq!(b.ticket, "CAPY-1234");
    assert_eq!(b.slug, "some-feature");
    assert!(b.conflict_base.is_none());
}

#[test]
fn parse_conflict_branch() {
    let b = parse_branch("fix/CAPY-1234-DEVELOP-some-feature", FMT).unwrap();
    assert_eq!(b.ticket, "CAPY-1234");
    assert_eq!(b.slug, "some-feature");
    assert_eq!(b.conflict_base, Some("DEVELOP".into()));
}

#[test]
fn parse_conflict_branch_staging() {
    let b = parse_branch("fix/CAPY-1234-STAGING-fix-wy-claim", FMT).unwrap();
    assert_eq!(b.conflict_base, Some("STAGING".into()));
    assert_eq!(b.slug, "fix-wy-claim");
}

#[test]
fn no_conflict_base_when_format_lacks_it() {
    // If branchFormat has no {conflictBase}, never detect conflict branches.
    let b = parse_branch("fix/CAPY-1234-DEVELOP-some-feature", FMT_PLAIN).unwrap();
    assert!(b.conflict_base.is_none());
    assert_eq!(b.slug, "DEVELOP-some-feature");
}

#[test]
fn single_segment_after_ticket_is_not_conflict_base() {
    // A branch like fix/CAPY-1234-DEVELOP (no slug after) should not parse CB.
    let b = parse_branch("fix/CAPY-1234-DEVELOP", FMT).unwrap();
    assert!(b.conflict_base.is_none());
}

// ── further cases ─────────────────────────────────────────────────────────

#[test]
fn parse_rejects_branch_without_ticket() {
    assert!(parse_branch("main", FMT).is_none());
    assert!(parse_branch("fix/some-feature", FMT).is_none());
    assert!(parse_branch("fix/CAPY-some", FMT).is_none());
    assert!(parse_branch("fix/capy-12-some", FMT).is_none());
}

#[test]
fn parse_gives_pretty_title() {
    let b = parse_branch("fix/CAPY-1234-fix-wy-claim-report", FMT).unwrap();
    assert_eq!(b.pretty_title, "Fix Wy Claim Report");
    assert_eq!(b.prefix, "fix");
}

#[test]
fn parse_single_capital_word_is_slug() {
    let b = parse_branch("fix/CAPY-1-A-thing", FMT).unwrap();
    assert!(b.conflict_base.is_none());
    assert_eq!(b.slug, "A-thing");
}

#[test]
fn title_case_rules() {
    assert_eq!(to_title_case("fix-wy-claim-report"), "Fix Wy Claim Report");
    assert_eq!(to_title_case("the-end-of-the-api"), "The End of the Api");
    assert_eq!(to_title_case("add-API-v2-for-ID"), "Add API V2 for ID");
    assert_eq!(to_title_case("a"), "A");
    assert_eq!(to_title_case(""), "");
    assert_eq!(to_title_case("über-cool"), "über Cool");
}

#[test]
fn json_fields_are_extracted() {
    let json = r#"[{"state":"OPEN","url":"https://x/pull/1"}]"#;
    assert_eq!(extract_json_str(json, "url"), Some("https://x/pull/1".to_string()));
    assert_eq!(extract_json_str(json, "state"), Some("OPEN".to_string()));
    assert_eq!(extract_json_str(json, "missing"), None);
    assert_eq!(extract_json_str(r#"{"url": "a b"}"#, "url"), Some("a b".to_string()));
    assert_eq!(extract_json_str(r#"{"url": 5}"#, "url"), None);
}

#[test]
fn pr_status_from_gh_output() {
    assert!(matches!(pr_status_from_output("[]\n"), PrStatus::NoPr));
    assert!(matches!(pr_status_from_output("  "), PrStatus::NoPr));
    match pr_status_from_output(r#"[{"state":"MERGED","url":"u1"}]"#) {
        PrStatus::Merged(u) => assert_eq!(u, "u1"),
        _ => panic!("expected merged"),
    }
    match pr_status_from_output(r#"[{"state":"open","url":"u2"}]"#) {
        PrStatus::Open(u) => assert_eq!(u, "u2"),
        _ => panic!("expected open"),
    }
    match pr_status_from_output(r#"[{"state":"CLOSED","url":"u3"}]"#) {
        PrStatus::Closed(u) => assert_eq!(u, "u3"),
        _ => panic!("expected closed"),
    }
}

#[test]
fn pr_status_labels() {
    assert_eq!(PrStatus::NoPr.label(), "none");
    assert_eq!(PrStatus::Open("u".into()).label(), "open");
    assert_eq!(PrStatus::Merged("u".into()).label(), "merged");
    assert_eq!(PrStatus::Closed("u".into()).label(), "closed");
}

fn assessment(target: &str, is_default: bool, has_conflict: bool, exists: bool, merged_in: bool) -> TargetAssessment {
    TargetAssessment {
        target: target.to_string(),
        is_default,
        has_conflict,
        conflict_branch: format!("fix/X-1-{}-s", target.to_uppercase()),
        conflict_branch_exists: exists,
        feature_merged_in: merged_in,
        conflict_unresolved: false,
        conflict_worktree_path: None,
        conflict_pr: PrStatus::NoPr,
        main_pr: PrStatus::NoPr,
    }
}

fn text_of(spans: &[Span]) -> String {
    spans.iter().map(|s| s.text.clone()).collect()
}

#[test]
fn summary_lines() {
    let a = assessment("staging", false, true, false, false);
    let s = a.summary();
    assert_eq!(text_of(&s), "⚠ staging (conflict branch needed)");
    assert_eq!(s[0].style, Style::Yellow);
    assert_eq!(s[2].style, Style::Magenta);
    let mut b = assessment("master", true, false, false, false);
    assert_eq!(text_of(&b.summary()), "○ master (PR needed)");
    b.main_pr = PrStatus::Open("u".into());
    assert_eq!(text_of(&b.summary()), "✓ master (PR: open)");
    let mut c = assessment("develop", false, true, true, true);
    assert_eq!(text_of(&c.summary()), "● develop (conflict branch ready → PR needed)");
    c.conflict_pr = PrStatus::Merged("u".into());
    assert_eq!(text_of(&c.summary()), "✓ develop (fix/X-1-DEVELOP-s PR: merged)");
    c.feature_merged_in = false;
    assert_eq!(text_of(&c.summary()), "⚡ develop (feature not merged into fix/X-1-DEVELOP-s)");
}

#[test]
fn target_needs() {
    let v = vec![
        assessment("master", true, false, false, false),
        assessment("develop", false, true, false, false),
        assessment("staging", false, true, true, false),
        assessment("qa", false, false, false, false),
    ];
    assert_eq!(targets_needing(&v, TargetNeed::CleanPr), vec![0, 3]);
    assert_eq!(targets_needing(&v, TargetNeed::ConflictBranch), vec![1]);
    assert_eq!(targets_needing(&v, TargetNeed::MergeIntoConflict), vec![2]);
    assert_eq!(targets_needing(&v, TargetNeed::Sync), vec![2]);
    assert_eq!(blocked_default_target(&v), None);
    assert_eq!(assessment_for_conflict_base(&v, "STAGING"), Some(2));
    assert_eq!(assessment_for_conflict_base(&v, "PROD"), None);
    let w = vec![assessment("develop", false, true, false, false), assessment("master", true, true, false, false)];
    assert_eq!(blocked_default_target(&w), Some(1));
}

fn common(fmt: Option<&str>) -> CommonConfig {
    CommonConfig {
        branch_prefixes: vec!["fix".into()],
        default_branch_prefix: "fix".into(),
        branch_format: fmt.map(|s| s.to_string()),
    }
}

#[test]
fn feature_branch_from_conflict_branch() {
    let c = common(Some(FMT));
    let parsed = parse_branch("fix/CAPY-1234-DEVELOP-some-feature", FMT).unwrap();
    assert_eq!(feature_branch_of(&parsed, "fix/CAPY-1234-DEVELOP-some-feature", &c), "fix/CAPY-1234-some-feature");
    let plain = parse_branch("fix/CAPY-1234-some-feature", FMT).unwrap();
    assert_eq!(feature_branch_of(&plain, "fix/CAPY-1234-some-feature", &c), "fix/CAPY-1234-some-feature");
}

#[test]
fn pr_title_with_target_prefix() {
    let info = parse_branch("fix/CAPY-1-fix-wy-claim-report", FMT).unwrap();
    let asks = vec![("description".to_string(), "Details".to_string())];
    let tmpl = "{pr.targetPrefix: '[$1]: '}{branch.prettyTitle}";
    let v = build_pr_vars(&info, "CAPY-1", &info.pretty_title, "staging", "master", None, &asks);
    assert_eq!(render_pr_text(tmpl, &v), "[staging]: Fix Wy Claim Report");
    let v = build_pr_vars(&info, "CAPY-1", &info.pretty_title, "master", "master", None, &asks);
    assert_eq!(render_pr_text(tmpl, &v), "Fix Wy Claim Report");
    let body = "### Ticket: {ticket.key}\n{ask.description: '\\n### Description: $1'}";
    assert_eq!(render_pr_text(body, &v), "### Ticket: CAPY-1\n\n### Description: Details");
}

fn repo(name: &str, repo_type: RepoType, merge_conflict_path: Option<&str>) -> RepoConfig {
    RepoConfig {
        name: name.to_string(),
        root: format!("/src/{name}"),
        repo_type,
        default_branch: None,
        remote: None,
        commands: None,
        persistent_branches: None,
        feature_path: None,
        merge_conflict_path: merge_conflict_path.map(|s| s.to_string()),
        pr_to_branches: None,
        pr_template: None,
        hooks: None,
    }
}

#[test]
fn conflict_branch_names_upper_case_the_target() {
    let c = common(Some(FMT));
    let info = parse_branch("fix/CAPY-1234-some-feature", FMT).unwrap();
    assert_eq!(conflict_branch_name(&c, &info, "develop"), "fix/CAPY-1234-DEVELOP-some-feature");
    let plain = common(None);
    assert_eq!(conflict_branch_name(&plain, &info, "develop"), "fix/CAPY-1234-some-feature");
}

#[test]
fn conflict_worktree_locations() {
    assert_eq!(conflict_worktree_dir("/r/api.git", "conflicts", "fix/A-1-DEV-x"), "/r/api.git/conflicts/fix/A-1-DEV-x");
    let wt = repo("api", RepoType::Worktree, Some("merge"));
    assert_eq!(planned_conflict_worktree(&wt, "/r/api.git", "b"), Some("/r/api.git/merge/b".to_string()));
    let no_path = repo("api", RepoType::Worktree, None);
    assert_eq!(planned_conflict_worktree(&no_path, "/r/api.git", "b"), None);
    let std_repo = repo("web", RepoType::Standard, Some("merge"));
    assert_eq!(planned_conflict_worktree(&std_repo, "/r/web", "b"), None);
}

#[test]
fn git_dir_and_owning_repository() {
    assert_eq!(git_dir_path("/home/u/web", ".git"), "/home/u/web/.git");
    assert_eq!(git_dir_path("/home/u/web/sub", "/home/u/api.git"), "/home/u/api.git");
    let repos = vec![
        repo("api", RepoType::Worktree, None),
        repo("web", RepoType::Standard, None),
    ];
    let roots = vec!["/src/api.git".to_string(), "/src/web".to_string()];
    assert_eq!(repo_for_git_dir(&repos, &roots, "/src/api.git"), Some(0));
    assert_eq!(repo_for_git_dir(&repos, &roots, "/src/api.git/"), Some(0));
    assert_eq!(repo_for_git_dir(&repos, &roots, "/src/web/.git"), Some(1));
    assert_eq!(repo_for_git_dir(&repos, &roots, "/src/web"), None);
    assert_eq!(repo_for_git_dir(&repos, &roots, "/src/other/.git"), None);
}

#[test]
fn pr_flow_branches() {
    let c = common(Some(FMT));
    let (parsed, feature, info) = pr_branches("fix/CAPY-1234-some-feature", &c, false).unwrap();
    assert_eq!(parsed.ticket, "CAPY-1234");
    assert_eq!(feature, "fix/CAPY-1234-some-feature");
    assert_eq!(info.slug, "some-feature");
    assert!(info.conflict_base.is_none());

    let (parsed, feature, info) = pr_branches("fix/CAPY-1234-DEVELOP-some-feature", &c, true).unwrap();
    assert_eq!(parsed.conflict_base, Some("DEVELOP".to_string()));
    assert_eq!(feature, "fix/CAPY-1234-some-feature");
    assert_eq!(info.pretty_title, "Some Feature");
    assert!(info.conflict_base.is_none());

    let refused = pr_branches("fix/CAPY-1234-DEVELOP-some-feature", &c, false).unwrap_err();
    assert!(matches!(refused, BranchRefusal::ConflictBranch(ref cb) if cb == "DEVELOP"));
    assert_eq!(
        refused.message(),
        "You appear to be on a conflict branch (conflict base: DEVELOP). Use `fi pr --continue` to submit the PR."
    );

    let bad = pr_branches("main", &c, true).unwrap_err();
    assert!(matches!(bad, BranchRefusal::Unparsable(ref b) if b == "main"));
    assert_eq!(bad.message(), "Cannot parse ticket from branch: main");
}

/// Runs the checks of one target with fixed answers, recording their order.
fn run_checks(dry_run: bool, conflicts: bool, exists: bool, ancestor: bool, unresolved: bool) -> (Vec<Check>, Gathered) {
    let mut g = Gathered::new();
    let mut seen = Vec::new();
    loop {
        let c = next_check(dry_run, &g);
        seen.push(c);
        match c {
            Check::MergeConflicts => g.conflicts = Some(conflicts),
            Check::BranchExists => g.exists = Some(exists),
            Check::Ancestor => g.ancestor = Some(ancestor),
            Check::FindWorktree => g.worktree = Some(Some("/wt/dev".to_string())),
            Check::Unresolved => g.unresolved = Some(unresolved),
            Check::ConflictPr => g.conflict_pr = Some(PrStatus::Open("c".into())),
            Check::MainPr => g.main_pr = Some(PrStatus::Merged("m".into())),
            Check::Done => break,
        }
    }
    (seen, g)
}

#[test]
fn target_checks_in_order() {
    let (seen, g) = run_checks(false, true, true, true, true);
    assert_eq!(
        seen,
        vec![
            Check::MergeConflicts,
            Check::BranchExists,
            Check::Ancestor,
            Check::FindWorktree,
            Check::Unresolved,
            Check::ConflictPr,
            Check::MainPr,
            Check::Done
        ]
    );
    assert_eq!(unresolved_path(&g.worktree, "/root"), "/wt/dev");
    let a = assess_target("develop".into(), "master", "fix/A-1-DEVELOP-x".into(), false, None, g);
    assert!(a.has_conflict && a.conflict_branch_exists && a.feature_merged_in && a.conflict_unresolved);
    assert!(!a.is_default);
    assert_eq!(a.conflict_worktree_path, Some("/wt/dev".to_string()));
    assert!(matches!(a.conflict_pr, PrStatus::Open(ref u) if u == "c"));
    assert!(matches!(a.main_pr, PrStatus::Merged(ref u) if u == "m"));

    let (seen, g) = run_checks(true, true, false, true, true);
    assert_eq!(seen, vec![Check::BranchExists, Check::MainPr, Check::Done]);
    let a = assess_target("master".into(), "master", "fix/A-1-MASTER-x".into(), true, Some("/p".into()), g);
    assert!(a.is_default && !a.has_conflict && !a.conflict_branch_exists && !a.feature_merged_in);
    assert_eq!(a.conflict_worktree_path, Some("/p".to_string()));
    assert!(matches!(a.conflict_pr, PrStatus::NoPr));

    let (seen, _) = run_checks(false, false, true, false, true);
    assert_eq!(seen, vec![Check::MergeConflicts, Check::BranchExists, Check::Ancestor, Check::FindWorktree, Check::MainPr, Check::Done]);
    assert_eq!(unresolved_path(&Some(None), "/root"), "/root");
}

#[test]
fn conflict_base_needs_two_capitals() {
    let b = parse_branch("fix/CAPY-1-DEV_OPS-some-feature", FMT).unwrap();
    assert_eq!(b.conflict_base, Some("DEV_OPS".to_string()));
    assert_eq!(b.slug, "some-feature");
    for branch in ["fix/CAPY-1-__-some-feature", "fix/CAPY-1-A_-some-feature", "fix/CAPY-1-Dev-some-feature"] {
        let b = parse_branch(branch, FMT).unwrap();
        assert!(b.conflict_base.is_none(), "{}", branch);
    }
}
