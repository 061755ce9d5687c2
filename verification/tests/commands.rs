use fi::commands::cull::{classify_worktree, count_is_positive, cull_order, merged_list_has, WtStatus};
use fi::commands::new::{new_branch_path, to_kebab_case};
use fi::commands::open::open_order;
use fi::commands::{
    ask_prompt, confirm_value, hooks_for, merged_hooks, needs_confirmation, resolve_env,
    resolve_hook_env_in, runner_binary, AskPrompt, HookContext,
};
use fi::completions::{fix_fish_completions, FISH_HELPERS};
use fi::config::{AskField, HookConfig, HookOn, HookWhen, RepoCommand, RepoConfig, RepoType};
use fi::jira::{extend_jql, find_issue, issue_order, jira_status_hint, JiraFields, JiraIssue, JiraStatus, JiraUser};

fn hook(name: &str, on: HookOn, when: HookWhen, optional: bool) -> HookConfig {
    HookConfig {
        name: Some(name.into()),
        trigger: on,
        when,
        optional,
        default_on: true,
        runner: "bash".into(),
        ask: None,
        env: Some(vec![
            ("WHERE".into(), "{repo.root}|{branch.name}|{branch.path}".into()),
            ("WHO".into(), "{repo.name}@{repo.remote}:{ask.q}".into()),
        ]),
        run: "echo".into(),
    }
}

fn repo(kind: RepoType) -> RepoConfig {
    RepoConfig {
        name: "api".into(),
        root: "~/api".into(),
        repo_type: kind,
        default_branch: None,
        remote: None,
        commands: None,
        persistent_branches: None,
        feature_path: None,
        merge_conflict_path: None,
        pr_to_branches: None,
        pr_template: None,
        hooks: None,
    }
}

#[test]
fn hooks_merge_and_select() {
    let global = vec![hook("g", HookOn::One("new".into()), HookWhen::Pre, false)];
    let local = vec![
        hook("l1", HookOn::Many(vec!["open".into(), "new".into()]), HookWhen::Post, true),
        hook("l2", HookOn::One("pr".into()), HookWhen::Post, false),
    ];
    let all = merged_hooks(Some(&global), Some(&local));
    let names: Vec<&str> = all.iter().map(|h| h.name.as_deref().unwrap()).collect();
    assert_eq!(names, vec!["g", "l1", "l2"]);
    let post_new = hooks_for(&all, "new", HookWhen::Post);
    assert_eq!(post_new.len(), 1);
    assert_eq!(post_new[0].display_name(), "l1");
    assert!(needs_confirmation(post_new[0], false));
    assert!(!needs_confirmation(post_new[0], true));
    assert!(merged_hooks(None, None).is_empty());
}

#[test]
fn merged_hooks_drop_the_same_hook_twice() {
    let global = vec![
        hook("g1", HookOn::One("new".into()), HookWhen::Pre, false),
        hook("g2", HookOn::One("open".into()), HookWhen::Post, false),
    ];
    // One list passed for both: each hook once.
    let both = merged_hooks(Some(&global), Some(&global));
    let names: Vec<&str> = both.iter().map(|h| h.name.as_deref().unwrap()).collect();
    assert_eq!(names, vec!["g1", "g2"]);
    // Equal but distinct hooks are all kept.
    let copy = global.clone();
    assert_eq!(merged_hooks(Some(&global), Some(&copy)).len(), 4);
}

#[test]
fn hook_environment_is_rendered() {
    let h = hook("h", HookOn::One("new".into()), HookWhen::Pre, false);
    let r = repo(RepoType::Worktree);
    let ctx = HookContext { command: "new", repo: &r, branch_name: Some("fix/A-1-x"), branch_path: None };
    let env = resolve_hook_env_in(&h, &ctx, &vec![("q".to_string(), "yes".to_string())], "/home/me");
    assert_eq!(env, vec![
        ("WHERE".to_string(), "/home/me/api|fix/A-1-x|".to_string()),
        ("WHO".to_string(), "api@origin:yes".to_string()),
    ]);
}

#[test]
fn command_environment_is_rendered() {
    let c = RepoCommand {
        command: "open".into(),
        runner: "fish".into(),
        ask: None,
        env: Some(vec![("P".into(), "{branch.path}".into()), ("I".into(), "{ask.init}".into())]),
        run: "x".into(),
    };
    let env = resolve_env(&c, "/w/b", &vec![("init".to_string(), "true".to_string())]);
    assert_eq!(env, vec![("P".to_string(), "/w/b".to_string()), ("I".to_string(), "true".to_string())]);
    let none = RepoCommand { env: None, ..c };
    assert!(resolve_env(&none, "/w", &vec![]).is_empty());
}

#[test]
fn runner_program() {
    assert_eq!(runner_binary("fish"), Some("fish".to_string()));
    assert_eq!(runner_binary("  /usr/bin/env  bash -e"), Some("/usr/bin/env".to_string()));
    assert_eq!(runner_binary("  \t"), None);
    assert_eq!(runner_binary(""), None);
}

#[test]
fn ask_prompts() {
    assert_eq!(ask_prompt(&AskField::Simple("boolean".into())), AskPrompt::Confirm);
    assert_eq!(ask_prompt(&AskField::Simple("editor".into())), AskPrompt::Editor);
    assert_eq!(ask_prompt(&AskField::Complex { field_type: "editor".into(), optional: Some(true) }), AskPrompt::SkippableEditor);
    assert_eq!(ask_prompt(&AskField::Simple("text".into())), AskPrompt::Text);
    assert_eq!(confirm_value(true), "true");
    assert_eq!(confirm_value(false), "false");
}

#[test]
fn kebab_slugs() {
    assert_eq!(to_kebab_case("Fix the WY claim report!"), "fix-the-wy-claim-report");
    assert_eq!(to_kebab_case("  --Leading and trailing--  "), "leading-and-trailing");
    assert_eq!(to_kebab_case("Über straße 2"), "über-straße-2");
    assert_eq!(to_kebab_case("***"), "");
}

#[test]
fn kebab_slug_shape() {
    let s = to_kebab_case("-- a -- b ---- c? --");
    assert_eq!(s, "a-b-c");
    assert!(!s.starts_with('-') && !s.ends_with('-') && !s.contains("--"));
}

#[test]
fn new_branch_locations() {
    let mut r = repo(RepoType::Worktree);
    assert_eq!(new_branch_path(&r, "/h/api", "fix/A-1-x"), "/h/api/work/fix/A-1-x");
    r.feature_path = Some("feat".into());
    assert_eq!(new_branch_path(&r, "/h/api", "fix/A-1-x"), "/h/api/feat/fix/A-1-x");
    let s = repo(RepoType::Standard);
    assert_eq!(new_branch_path(&s, "/h/api", "fix/A-1-x"), "/h/api");
}

#[test]
fn worktree_statuses() {
    assert_eq!(classify_worktree(true, true, true), WtStatus::Dirty);
    assert_eq!(classify_worktree(false, true, true), WtStatus::Unpushed);
    assert_eq!(classify_worktree(false, false, true), WtStatus::Merged);
    assert_eq!(classify_worktree(false, false, false), WtStatus::Clean);
    assert!(count_is_positive("3\n"));
    assert!(count_is_positive("+1"));
    assert!(!count_is_positive("0\n"));
    assert!(!count_is_positive(""));
    assert!(!count_is_positive("4294967296"));
    assert!(count_is_positive("4294967295"));
    assert!(!count_is_positive("-1"));
    assert!(!count_is_positive("x"));
    assert!(merged_list_has("  master\n* fix/A-1-x\n", "fix/A-1-x"));
    assert!(merged_list_has("  master\n", "master"));
    assert!(!merged_list_has("  master\n", "fix"));
    assert!(merged_list_has("  master\n+ feat\n", "feat"));
    assert!(!merged_list_has("+ feat\n", "+ feat"));
    assert_eq!(WtStatus::Unpushed.label(), "unpushed");
}

#[test]
fn cull_list_is_sorted_dirty_first() {
    let s = vec![WtStatus::Merged, WtStatus::Dirty, WtStatus::Clean, WtStatus::Dirty, WtStatus::Unpushed];
    assert_eq!(cull_order(&s), vec![1, 3, 4, 2, 0]);
}

#[test]
fn open_list_order() {
    let o = vec![
        (false, false, "b".to_string()),
        (false, true, "z".to_string()),
        (true, false, "master".to_string()),
        (false, false, "a".to_string()),
        (false, true, "c".to_string()),
    ];
    assert_eq!(open_order(&o), vec![2, 4, 1, 3, 0]);
}

fn issue(key: &str, status: &str, assigned: bool) -> JiraIssue {
    JiraIssue {
        key: key.into(),
        fields: JiraFields {
            summary: "s".into(),
            status: JiraStatus { name: status.into() },
            assignee: if assigned { Some(JiraUser { display_name: "me".into() }) } else { None },
        },
    }
}

#[test]
fn issues_order_and_lookup() {
    let v = vec![
        issue("A-3", "To Do", false),
        issue("A-2", "In Progress", true),
        issue("A-1", "To Do", true),
        issue("A-10", "In Progress", true),
    ];
    assert_eq!(issue_order(&v), vec![3, 1, 2, 0]);
    assert_eq!(find_issue(&v, "A-1"), Some(2));
    assert_eq!(find_issue(&v, "B-1"), None);
    assert_eq!(extend_jql("project = A", Some("assignee = currentUser()")), "project = A assignee = currentUser()");
    assert_eq!(extend_jql("project = A", None), "project = A");
    assert!(jira_status_hint(401).contains("token"));
    assert_eq!(jira_status_hint(500), "");
}

#[test]
fn fish_completions_are_fixed() {
    let raw = "# header\ncomplete -c fi -n \"__fish_fi_using_subcommand config; and __fish_seen_subcommand_from show\" -a x\ncomplete -c fi -n \"__fish_fi_using_subcommand help; and __fish_seen_subcommand_from config\"\n";
    let fixed = fix_fish_completions(raw);
    assert!(fixed.starts_with("# header"));
    assert!(fixed.contains(FISH_HELPERS));
    assert!(fixed.contains("-n \"__fish_fi_using_config_subcommand show\""));
    assert!(fixed.contains("__fish_fi_using_help_subcommand config"));
    assert!(!fixed.contains("; and __fish_seen_subcommand_from"));
    let i = fixed.find("function __fish_fi_config_needs_subcommand").unwrap();
    let j = fixed.find("complete -c fi").unwrap();
    assert!(i < j);
    assert_eq!(fix_fish_completions("x"), format!("x{}", FISH_HELPERS));
}
