use fi::config::{
    config_candidates_in, expand_tilde, expand_tilde_in, join_path, no_config_found, AskField,
    CommonConfig, HookOn, RepoConfig, RepoType,
};
use std::path::PathBuf;

fn common(branch_format: Option<&str>) -> CommonConfig {
    CommonConfig {
        branch_prefixes: vec!["fix".into(), "feat".into()],
        default_branch_prefix: "feat".into(),
        branch_format: branch_format.map(|s| s.to_string()),
    }
}

// ── expand_tilde ──────────────────────────────────────────────────────────

#[test]
fn expand_tilde_home_dir() {
    let home = dirs::home_dir().unwrap_or_default();
    assert_eq!(PathBuf::from(expand_tilde("~")), home);
}

#[test]
fn expand_tilde_with_path() {
    let home = dirs::home_dir().unwrap_or_default();
    assert_eq!(PathBuf::from(expand_tilde("~/foo/bar")), home.join("foo/bar"));
}

#[test]
fn expand_tilde_absolute_path_unchanged() {
    assert_eq!(PathBuf::from(expand_tilde("/absolute/path")), PathBuf::from("/absolute/path"));
}

#[test]
fn expand_tilde_relative_path_unchanged() {
    assert_eq!(PathBuf::from(expand_tilde("relative/path")), PathBuf::from("relative/path"));
}

// ── render_branch ─────────────────────────────────────────────────────────

#[test]
fn render_branch_default_format() {
    let c = common(None);
    assert_eq!(
        c.render_branch("fix", "CAPY-1234", "some-feature", None),
        "fix/CAPY-1234-some-feature"
    );
}

#[test]
fn render_branch_custom_format() {
    let c = common(Some("{branchPrefix}/{ticket.key}-{slug}"));
    assert_eq!(
        c.render_branch("feat", "PROJ-99", "add-widget", None),
        "feat/PROJ-99-add-widget"
    );
}

#[test]
fn render_branch_with_conflict_base() {
    let fmt = "{branchPrefix}/{ticket.key}{conflictBase: '-$1'}-{slug}";
    let c = common(Some(fmt));
    assert_eq!(
        c.render_branch("fix", "CAPY-1234", "some-feature", Some("DEVELOP")),
        "fix/CAPY-1234-DEVELOP-some-feature"
    );
}

#[test]
fn render_branch_conflict_base_absent_suppresses_segment() {
    let fmt = "{branchPrefix}/{ticket.key}{conflictBase: '-$1'}-{slug}";
    let c = common(Some(fmt));
    assert_eq!(
        c.render_branch("fix", "CAPY-1234", "some-feature", None),
        "fix/CAPY-1234-some-feature"
    );
}

// ── AskField ─────────────────────────────────────────────────────────────

#[test]
fn ask_field_simple_type() {
    let f = AskField::Simple("editor".into());
    assert_eq!(f.field_type(), "editor");
    assert!(!f.is_optional());
}

#[test]
fn ask_field_complex_type() {
    let f = AskField::Complex { field_type: "boolean".into(), optional: None };
    assert_eq!(f.field_type(), "boolean");
    assert!(!f.is_optional());
}

#[test]
fn ask_field_complex_optional() {
    let f = AskField::Complex { field_type: "editor".into(), optional: Some(true) };
    assert!(f.is_optional());
}

#[test]
fn ask_field_complex_optional_false() {
    let f = AskField::Complex { field_type: "editor".into(), optional: Some(false) };
    assert!(!f.is_optional());
}

// ── further cases ─────────────────────────────────────────────────────────

#[test]
fn expand_tilde_with_given_home() {
    assert_eq!(expand_tilde_in("/home/me", "~"), "/home/me");
    assert_eq!(expand_tilde_in("/home/me", "~/x/y"), "/home/me/x/y");
    assert_eq!(expand_tilde_in("/home/me/", "~/x"), "/home/me/x");
    assert_eq!(expand_tilde_in("", "~/x"), "x");
    assert_eq!(expand_tilde_in("/home/me", "~other/x"), "~other/x");
    assert_eq!(expand_tilde_in("/home/me", "~//abs"), "/abs");
}

#[test]
fn path_join_matches_pathbuf() {
    for (a, b) in [("/r", "w"), ("/r/", "w"), ("", "w"), ("/r", "/w"), ("r", "")] {
        assert_eq!(PathBuf::from(join_path(a, b)), PathBuf::from(a).join(b));
    }
    assert_eq!(join_path("/r", ""), "/r/");
}

#[test]
fn config_search_order() {
    assert_eq!(config_candidates_in(Some("x.yaml"), "/h"), vec!["x.yaml".to_string()]);
    assert_eq!(
        config_candidates_in(None, "/h"),
        vec!["fi.yaml".to_string(), "/h/.config/fi/fi.yaml".to_string(), "/h/.config/fi/fi.yml".to_string()]
    );
    assert_eq!(
        no_config_found(&vec!["a".to_string(), "b".to_string()]),
        "No config file found (tried: a, b)\n  → Run 'fi init' to create a starter config."
    );
}

#[test]
fn remote_and_default_branch_fallbacks() {
    let mut r = RepoConfig {
        name: "api".into(),
        root: "~/api".into(),
        repo_type: RepoType::Worktree,
        default_branch: None,
        remote: None,
        commands: None,
        persistent_branches: None,
        feature_path: None,
        merge_conflict_path: None,
        pr_to_branches: None,
        pr_template: None,
        hooks: None,
    };
    assert_eq!(r.remote(), "origin");
    assert_eq!(r.default_branch_name(), "master");
    r.remote = Some("upstream".into());
    r.default_branch = Some("main".into());
    assert_eq!(r.remote(), "upstream");
    assert_eq!(r.default_branch_name(), "main");
}

#[test]
fn hook_triggers() {
    assert!(HookOn::One("new".into()).matches("new"));
    assert!(!HookOn::One("new".into()).matches("open"));
    let many = HookOn::Many(vec!["pr".into(), "sync".into()]);
    assert!(many.matches("sync"));
    assert!(!many.matches("new"));
    assert!(!HookOn::Many(vec![]).matches("new"));
}

#[test]
fn branch_roundtrip_default_format() {
    let c = common(None);
    let b = c.render_branch("feature", "ABC-42", "add-login", None);
    let p = fi::commands::pr::parse_branch(&b, "{branchPrefix}/{ticket.key}-{slug}").unwrap();
    assert_eq!((p.prefix.as_str(), p.ticket.as_str(), p.slug.as_str()), ("feature", "ABC-42", "add-login"));
    assert!(p.conflict_base.is_none());
}
