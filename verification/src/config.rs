//! The configuration model (`fi.yaml`) and the rules it carries: branch-name
//! rendering, the default remote, hook triggers, ask fields, tilde expansion
//! and where the configuration file is looked for.
use vstd::prelude::*;
use crate::template::{
    expand, lemma_expand_name, lemma_render_placeholder, lemma_render_plain,
    lemma_replace_dash_dollar, lookup, render, render_template, TemplateVars,
};
use crate::text::{is_first_char, lemma_find_char_is, strip, strip_end, strip_start, trim, CharClass};
use crate::text::{chars_of, join, join_strings, str_eq, string_of_all, string_views, to_owned_string};

verus! {

/// The whole configuration.
#[derive(Clone, Debug)]
pub struct Config {
    pub version: u32,
    pub jira: JiraConfig,
    pub common: CommonConfig,
    pub repos: Vec<RepoConfig>,
    pub hooks: Option<Vec<HookConfig>>,
}

/// Where and how the issue tracker is reached.
#[derive(Clone, Debug)]
pub struct JiraConfig {
    pub base_url: String,
    pub board_id: u32,
    pub quick_filter_id: u32,
    pub token: TokenConfig,
    pub jql_extension: Option<String>,
}

/// The environment variable that holds the issue tracker's token.
#[derive(Clone, Debug)]
pub struct TokenConfig {
    pub env: String,
}

/// Branch naming shared by all repositories.
#[derive(Clone, Debug)]
pub struct CommonConfig {
    pub branch_prefixes: Vec<String>,
    pub default_branch_prefix: String,
    pub branch_format: Option<String>,
}

/// One repository.
#[derive(Clone, Debug)]
pub struct RepoConfig {
    pub name: String,
    pub root: String,
    pub repo_type: RepoType,
    pub default_branch: Option<String>,
    /// Git remote name. Defaults to `"origin"` when not set.
    pub remote: Option<String>,
    pub commands: Option<Vec<RepoCommand>>,
    pub persistent_branches: Option<Vec<String>>,
    pub feature_path: Option<String>,
    pub merge_conflict_path: Option<String>,
    pub pr_to_branches: Option<Vec<String>>,
    pub pr_template: Option<PrTemplate>,
    pub hooks: Option<Vec<HookConfig>>,
}

/// A bare repository with worktrees, or an ordinary checkout.
#[derive(Clone, Copy, PartialEq, Eq, Structural, Debug)]
pub enum RepoType {
    Standard,
    Worktree,
}

/// The title and body templates of a pull request, and what to ask first.
#[derive(Clone, Debug)]
pub struct PrTemplate {
    /// Values asked of the user, by name; the file holds a map, so each
    /// name occurs once.
    pub ask: Option<Vec<(String, AskField)>>,
    pub title: String,
    pub body: String,
}

/// A command that can be run in a branch's checkout.
#[derive(Clone, Debug)]
pub struct RepoCommand {
    pub command: String,
    pub runner: String,
    /// Values asked of the user, by name; the file holds a map, so each
    /// name occurs once.
    pub ask: Option<Vec<(String, AskField)>>,
    /// Environment variables and their templates, by name; the file holds
    /// a map, so each name occurs once.
    pub env: Option<Vec<(String, String)>>,
    pub run: String,
}

/// Which timing a hook runs at relative to a command.
#[derive(Clone, Copy, PartialEq, Eq, Structural, Debug)]
pub enum HookWhen {
    Pre,
    Post,
}

/// The subcommand(s) a hook is attached to: a single name or a list.
#[derive(Clone, Debug)]
pub enum HookOn {
    One(String),
    Many(Vec<String>),
}

/// A hook: a script run before or after a subcommand.
#[derive(Clone, Debug)]
pub struct HookConfig {
    /// Optional display name shown when prompting or logging.
    pub name: Option<String>,
    /// Subcommand(s) this hook applies to: "new", "open", "pr", "cull", "sync".
    pub trigger: HookOn,
    /// Whether to run before (`pre`) or after (`post`) the command.
    pub when: HookWhen,
    /// If true, the user is asked whether to run the hook.
    pub optional: bool,
    /// Default answer when the hook is optional.
    pub default_on: bool,
    pub runner: String,
    /// Values asked of the user, by name; the file holds a map, so each
    /// name occurs once.
    pub ask: Option<Vec<(String, AskField)>>,
    /// Environment variables and their templates, by name; the file holds
    /// a map, so each name occurs once.
    pub env: Option<Vec<(String, String)>>,
    pub run: String,
}

/// A value asked of the user before a command, a hook or a PR.
#[derive(Clone, Debug)]
pub enum AskField {
    Simple(String),
    Complex { field_type: String, optional: Option<bool> },
}

// ── Branch names ────────────────────────────────────────────────────────────

/// The branch format used when none is configured.
pub open spec fn default_branch_format() -> Seq<char> {
    "{branchPrefix}/{ticket.key}-{slug}"@
}

/// The variables a branch name is rendered with.
pub open spec fn branch_vars(
    prefix: Seq<char>,
    ticket_key: Seq<char>,
    slug: Seq<char>,
    conflict_base: Seq<char>,
) -> Map<Seq<char>, Seq<char>> {
    Map::<Seq<char>, Seq<char>>::empty().insert("branchPrefix"@, prefix).insert(
        "ticket.key"@,
        ticket_key,
    ).insert("slug"@, slug).insert("conflictBase"@, conflict_base)
}

/// The configured branch format, or the default one.
pub open spec fn format_of(common: CommonConfig) -> Seq<char> {
    match common.branch_format {
        Some(f) => f@,
        None => default_branch_format(),
    }
}

/// The view of an optional string, absent as empty.
pub open spec fn opt_view(o: Option<&str>) -> Seq<char> {
    match o {
        Some(s) => s@,
        None => Seq::empty(),
    }
}

/// The branch format of `common`, or the default one.
pub fn branch_format_of(common: &CommonConfig) -> (r: String)
    ensures
        r@ == format_of(*common),
{
    match &common.branch_format {
        Some(f) => f.clone(),
        None => to_owned_string("{branchPrefix}/{ticket.key}-{slug}"),
    }
}

impl CommonConfig {
    /// Renders a branch name from the format template.
    /// Variables: `{branchPrefix}`, `{ticket.key}`, `{slug}`, `{conflictBase}` (empty when absent).
    pub fn render_branch(
        &self,
        prefix: &str,
        ticket_key: &str,
        slug: &str,
        conflict_base: Option<&str>,
    ) -> (r: String)
        ensures
            r@ == render(
                format_of(*self),
                branch_vars(prefix@, ticket_key@, slug@, opt_view(conflict_base)),
            ),
    {
        let fmt = branch_format_of(self);
        let mut vars = TemplateVars::new();
        vars.insert("branchPrefix", prefix);
        vars.insert("ticket.key", ticket_key);
        vars.insert("slug", slug);
        match conflict_base {
            Some(cb) => vars.insert("conflictBase", cb),
            None => vars.insert("conflictBase", ""),
        }
        proof {
            assert(""@ =~= Seq::<char>::empty()) by {
                reveal_strlit("");
            }
        }
        render_template(fmt.as_str(), &vars)
    }
}

// ── Repositories ────────────────────────────────────────────────────────────

impl RepoConfig {
    /// Returns the configured remote name, falling back to `"origin"`.
    pub fn remote(&self) -> (r: &str)
        ensures
            r@ == match self.remote {
                Some(x) => x@,
                None => "origin"@,
            },
    {
        match &self.remote {
            Some(x) => x.as_str(),
            None => "origin",
        }
    }

    /// The default branch, falling back to `"master"`.
    pub fn default_branch_name(&self) -> (r: String)
        ensures
            r@ == match self.default_branch {
                Some(x) => x@,
                None => "master"@,
            },
    {
        match &self.default_branch {
            Some(x) => x.clone(),
            None => to_owned_string("master"),
        }
    }
}

// ── Hooks and ask fields ────────────────────────────────────────────────────

/// Some element of `v` reads `s`.
pub open spec fn seq_has(v: Seq<String>, s: Seq<char>) -> bool {
    exists|i: int| 0 <= i < v.len() && v[i]@ == s
}

/// `s` is one of the strings of `v`.
pub fn list_contains(v: &Vec<String>, s: &str) -> (r: bool)
    ensures
        r == seq_has(v@, s@),
{
    let mut i: usize = 0;
    while i < v.len()
        invariant
            i <= v@.len(),
            forall|j: int| 0 <= j < i ==> v@[j]@ != s@,
        decreases v.len() - i,
    {
        if str_eq(v[i].as_str(), s) {
            return true;
        }
        i += 1;
    }
    false
}

/// A trigger names the subcommand `command`.
pub open spec fn triggers(on: HookOn, command: Seq<char>) -> bool {
    match on {
        HookOn::One(s) => s@ == command,
        HookOn::Many(v) => seq_has(v@, command),
    }
}

impl HookOn {
    /// Whether this trigger names the subcommand `command`.
    pub fn matches(&self, command: &str) -> (r: bool)
        ensures
            r == triggers(*self, command@),
    {
        match self {
            HookOn::One(s) => str_eq(s.as_str(), command),
            HookOn::Many(v) => list_contains(v, command),
        }
    }
}

/// An optional hook runs unless answered otherwise: the default answer.
pub fn default_true() -> (r: bool)
    ensures
        r,
{
    true
}

impl HookConfig {
    /// The name shown when prompting or logging, `"hook"` when unnamed.
    pub fn display_name(&self) -> (r: &str)
        ensures
            r@ == match self.name {
                Some(n) => n@,
                None => "hook"@,
            },
    {
        match &self.name {
            Some(n) => n.as_str(),
            None => "hook",
        }
    }
}

impl AskField {
    /// The field's type: `boolean`, `editor`, or anything else for text.
    pub fn field_type(&self) -> (r: &str)
        ensures
            r@ == match *self {
                AskField::Simple(t) => t@,
                AskField::Complex { field_type, .. } => field_type@,
            },
    {
        match self {
            AskField::Simple(t) => t.as_str(),
            AskField::Complex { field_type, .. } => field_type.as_str(),
        }
    }

    /// Whether the field may be skipped: only a complex field marked `optional: true`.
    pub fn is_optional(&self) -> (r: bool)
        ensures
            r == (*self matches AskField::Complex { optional: Some(true), .. }),
    {
        match self {
            AskField::Complex { optional: Some(o), .. } => *o,
            _ => false,
        }
    }
}

// ── Paths ───────────────────────────────────────────────────────────────────

/// `PathBuf::join` on Unix: an absolute `rest` replaces `base`; otherwise a
/// `/` is put between them unless `base` is empty or already ends with one.
pub open spec fn path_join(base: Seq<char>, rest: Seq<char>) -> Seq<char> {
    if rest.len() > 0 && rest[0] == '/' {
        rest
    } else if base.len() == 0 || base.last() == '/' {
        base + rest
    } else {
        base + seq!['/'] + rest
    }
}

/// `path` with a leading `~` or `~/` read as the home directory `home`.
pub open spec fn tilde_expansion(home: Seq<char>, path: Seq<char>) -> Seq<char> {
    if path.len() >= 2 && path[0] == '~' && path[1] == '/' {
        path_join(home, path.skip(2))
    } else if path == seq!['~'] {
        home
    } else {
        path
    }
}

/// `PathBuf::join` on Unix paths held as strings.
pub fn join_path(base: &str, rest: &str) -> (r: String)
    ensures
        r@ == path_join(base@, rest@),
{
    let b = chars_of(base);
    let t = chars_of(rest);
    let mut out: Vec<char> = Vec::new();
    if t.len() > 0 && t[0] == '/' {
        return string_of_all(&t);
    }
    crate::text::push_all(&mut out, &b);
    if b.len() > 0 && b[b.len() - 1] != '/' {
        out.push('/');
    }
    crate::text::push_all(&mut out, &t);
    proof {
        if b@.len() > 0 {
            assert(b@.last() == b@[b@.len() - 1]);
        }
    }
    string_of_all(&out)
}

/// The home directory, as `dirs::home_dir` finds it. Paths are held as
/// strings here, so a home directory that is not valid Unicode is converted
/// lossily.
#[verifier::external_body]
fn home_dir() -> (r: Option<String>) {
    dirs::home_dir().map(|p| p.to_string_lossy().into_owned())
}

/// The home directory, empty when it cannot be found. It comes from the
/// environment (`$HOME`, else the password database), so nothing is
/// promised of which string it is; `expand_tilde_in` and
/// `config_candidates_in` take it as an argument.
pub fn home_or_empty() -> (r: String) {
    match home_dir() {
        Some(h) => h,
        None => String::new(),
    }
}

/// Expands a leading `~` or `~/` in `path` to the home directory `home`.
pub fn expand_tilde_in(home: &str, path: &str) -> (r: String)
    ensures
        r@ == tilde_expansion(home@, path@),
{
    let p = chars_of(path);
    if p.len() >= 2 && p[0] == '~' && p[1] == '/' {
        let rest = crate::text::string_of(&p, 2, p.len());
        assert(p@.subrange(2, p@.len() as int) =~= p@.skip(2));
        join_path(home, rest.as_str())
    } else if p.len() == 1 && p[0] == '~' {
        assert(p@ =~= seq!['~']);
        to_owned_string(home)
    } else {
        proof {
            if p@ == seq!['~'] {
                assert(p@.len() == 1);
            }
        }
        string_of_all(&p)
    }
}

/// Expands a leading `~` or `~/` in `path` to the user's home directory.
/// Any other path comes back unchanged.
pub fn expand_tilde(path: &str) -> (r: String)
    ensures
        exists|home: Seq<char>| r@ == tilde_expansion(home, path@),
        !(path@.len() > 0 && path@[0] == '~') ==> r@ == path@,
{
    let home = home_or_empty();
    expand_tilde_in(home.as_str(), path)
}

// ── The configuration file ──────────────────────────────────────────────────

/// The places searched for the configuration file, in order: the override
/// alone when given, else `fi.yaml`, then `~/.config/fi/fi.yaml` and
/// `~/.config/fi/fi.yml` under the home directory `home`.
pub open spec fn candidate_paths(override_path: Option<&str>, home: Seq<char>) -> Seq<Seq<char>> {
    match override_path {
        Some(p) => seq![p@],
        None => seq![
            "fi.yaml"@,
            path_join(home, ".config/fi/fi.yaml"@),
            path_join(home, ".config/fi/fi.yml"@),
        ],
    }
}

/// The places searched for the configuration file with home directory `home`.
pub fn config_candidates_in(override_path: Option<&str>, home: &str) -> (r: Vec<String>)
    ensures
        string_views(r@) == candidate_paths(override_path, home@),
{
    let mut r: Vec<String> = Vec::new();
    match override_path {
        Some(p) => {
            r.push(to_owned_string(p));
        },
        None => {
            r.push(to_owned_string("fi.yaml"));
            r.push(join_path(home, ".config/fi/fi.yaml"));
            r.push(join_path(home, ".config/fi/fi.yml"));
        },
    }
    assert(string_views(r@) =~= candidate_paths(override_path, home@));
    r
}

/// The places searched for the configuration file.
pub fn config_candidates(override_path: Option<&str>) -> (r: Vec<String>)
    ensures
        exists|home: Seq<char>| string_views(r@) == candidate_paths(override_path, home),
        override_path is Some ==> string_views(r@) == seq![override_path->0@],
{
    let home = home_or_empty();
    config_candidates_in(override_path, home.as_str())
}

/// The error shown when no configuration file exists at any candidate path.
pub open spec fn no_config_message(paths: Seq<Seq<char>>) -> Seq<char> {
    "No config file found (tried: "@ + join(paths, ", "@)
        + ")\n  → Run 'fi init' to create a starter config."@
}

/// The error shown when no configuration file exists at any of `paths`.
pub fn no_config_found(paths: &Vec<String>) -> (r: String)
    ensures
        r@ == no_config_message(string_views(paths@)),
{
    let mut r = to_owned_string("No config file found (tried: ");
    let joined = join_strings(paths, ", ");
    r.append(joined.as_str());
    r.append(")\n  → Run 'fi init' to create a starter config.");
    r
}

// ── Laws of branch rendering ────────────────────────────────────────────────

/// The branch format with a conflict-base clause:
/// `{branchPrefix}/{ticket.key}{conflictBase: '-$1'}-{slug}`.
pub open spec fn conflict_branch_format() -> Seq<char> {
    "{branchPrefix}/{ticket.key}{conflictBase: '-$1'}-{slug}"@
}

/// The names of the four branch variables differ from each other.
proof fn lemma_branch_var_names()
    ensures
        "branchPrefix"@ != "ticket.key"@,
        "branchPrefix"@ != "slug"@,
        "branchPrefix"@ != "conflictBase"@,
        "ticket.key"@ != "slug"@,
        "ticket.key"@ != "conflictBase"@,
        "slug"@ != "conflictBase"@,
        "branchPrefix"@ =~= seq!['b', 'r', 'a', 'n', 'c', 'h', 'P', 'r', 'e', 'f', 'i', 'x'],
        "ticket.key"@ =~= seq!['t', 'i', 'c', 'k', 'e', 't', '.', 'k', 'e', 'y'],
        "slug"@ =~= seq!['s', 'l', 'u', 'g'],
        "conflictBase"@ =~= seq!['c', 'o', 'n', 'f', 'l', 'i', 'c', 't', 'B', 'a', 's', 'e'],
{
    reveal_strlit("branchPrefix");
    reveal_strlit("ticket.key");
    reveal_strlit("slug");
    reveal_strlit("conflictBase");
    assert("branchPrefix"@[0] != "conflictBase"@[0]);
    assert("ticket.key"@.len() != "slug"@.len());
    assert("ticket.key"@.len() != "conflictBase"@.len());
    assert("slug"@.len() != "conflictBase"@.len());
    assert("branchPrefix"@.len() != "slug"@.len());
    assert("branchPrefix"@.len() != "ticket.key"@.len());
}

/// The value of each branch variable.
proof fn lemma_branch_var_values(p: Seq<char>, k: Seq<char>, s: Seq<char>, cb: Seq<char>)
    ensures
        lookup(branch_vars(p, k, s, cb), "branchPrefix"@) == p,
        lookup(branch_vars(p, k, s, cb), "ticket.key"@) == k,
        lookup(branch_vars(p, k, s, cb), "slug"@) == s,
        lookup(branch_vars(p, k, s, cb), "conflictBase"@) == cb,
{
    lemma_branch_var_names();
}

/// Each branch variable name expands to its value.
proof fn lemma_branch_names_expand(p: Seq<char>, k: Seq<char>, s: Seq<char>, cb: Seq<char>)
    ensures
        expand("branchPrefix"@, branch_vars(p, k, s, cb)) == p,
        expand("ticket.key"@, branch_vars(p, k, s, cb)) == k,
        expand("slug"@, branch_vars(p, k, s, cb)) == s,
{
    lemma_branch_var_names();
    lemma_branch_var_values(p, k, s, cb);
    let m = branch_vars(p, k, s, cb);
    lemma_expand_name("branchPrefix"@, m);
    lemma_expand_name("ticket.key"@, m);
    lemma_expand_name("slug"@, m);
}

/// With the default format, a branch name is the prefix, `/`, the ticket
/// key, `-` and the slug; the conflict base takes no part.
pub proof fn lemma_default_format_renders(p: Seq<char>, k: Seq<char>, s: Seq<char>, cb: Seq<char>)
    ensures
        render(default_branch_format(), branch_vars(p, k, s, cb)) == p + seq!['/'] + k + seq!['-'] + s,
{
    reveal_strlit("{branchPrefix}/{ticket.key}-{slug}");
    lemma_branch_var_names();
    lemma_branch_names_expand(p, k, s, cb);
    let m = branch_vars(p, k, s, cb);
    let bp = "branchPrefix"@;
    let tk = "ticket.key"@;
    let sl = "slug"@;
    let e = Seq::<char>::empty();
    let r2 = seq!['-'] + seq!['{'] + sl + seq!['}'] + e;
    let r1 = seq!['/'] + seq!['{'] + tk + seq!['}'] + r2;
    assert(default_branch_format() =~= e + seq!['{'] + bp + seq!['}'] + r1);
    lemma_render_placeholder(e, bp, r1, m);
    lemma_render_placeholder(seq!['/'], tk, r2, m);
    lemma_render_placeholder(seq!['-'], sl, e, m);
    lemma_render_plain(e, m);
    assert(e + p + (seq!['/'] + k + (seq!['-'] + s + e)) =~= p + seq!['/'] + k + seq!['-'] + s);
}

/// The conflict-base clause `{conflictBase: '-$1'}` expands to `-` and the
/// conflict base, or to nothing when the conflict base is empty.
proof fn lemma_conflict_clause_expands(p: Seq<char>, k: Seq<char>, s: Seq<char>, cb: Seq<char>)
    ensures
        expand("conflictBase: '-$1'"@, branch_vars(p, k, s, cb)) == if cb.len() > 0 {
            seq!['-'] + cb
        } else {
            Seq::<char>::empty()
        },
{
    reveal_strlit("conflictBase: '-$1'");
    lemma_branch_var_names();
    lemma_branch_var_values(p, k, s, cb);
    let m = branch_vars(p, k, s, cb);
    let n = "conflictBase: '-$1'"@;
    let cbk = "conflictBase"@;
    assert(n =~= cbk + seq![':', ' ', '\'', '-', '$', '1', '\'']);
    assert(n[12] == ':');
    assert(is_first_char(n, ':', 12));
    lemma_find_char_is(n, ':', 12);
    assert(n.take(12) =~= cbk);
    crate::text::lemma_strip_noop(cbk, CharClass::White);
    let tail = n.skip(13);
    assert(tail =~= seq![' ', '\'', '-', '$', '1', '\'']);
    let q = seq!['\'', '-', '$', '1', '\''];
    assert(tail.skip(1) =~= q);
    assert(strip_start(tail, CharClass::White) == strip_start(q, CharClass::White));
    assert(strip_start(q, CharClass::White) == q);
    assert(strip_end(q, CharClass::White) == q);
    assert(trim(tail) == q);
    let d = seq!['-', '$', '1'];
    assert(q.skip(1) =~= seq!['-', '$', '1', '\'']);
    assert(strip_start(q, CharClass::Quote) == strip_start(q.skip(1), CharClass::Quote));
    assert(strip_start(q.skip(1), CharClass::Quote) == q.skip(1));
    assert(q.skip(1).drop_last() =~= d);
    assert(strip_end(q.skip(1), CharClass::Quote) == strip_end(d, CharClass::Quote));
    assert(strip_end(d, CharClass::Quote) == d);
    assert(strip(q, CharClass::Quote) == d);
    lemma_replace_dash_dollar(cb);
}

/// With the conflict format, a branch name is the prefix, `/`, the ticket
/// key, then `-` and the conflict base when there is one, then `-` and the slug.
pub proof fn lemma_conflict_format_renders(p: Seq<char>, k: Seq<char>, s: Seq<char>, cb: Seq<char>)
    ensures
        render(conflict_branch_format(), branch_vars(p, k, s, cb)) == p + seq!['/'] + k + (if cb.len()
            > 0 {
            seq!['-'] + cb
        } else {
            Seq::<char>::empty()
        }) + seq!['-'] + s,
{
    reveal_strlit("{branchPrefix}/{ticket.key}{conflictBase: '-$1'}-{slug}");
    reveal_strlit("conflictBase: '-$1'");
    lemma_branch_var_names();
    lemma_branch_names_expand(p, k, s, cb);
    lemma_conflict_clause_expands(p, k, s, cb);
    let m = branch_vars(p, k, s, cb);
    let bp = "branchPrefix"@;
    let tk = "ticket.key"@;
    let sl = "slug"@;
    let cl = "conflictBase: '-$1'"@;
    let e = Seq::<char>::empty();
    let r3 = seq!['-'] + seq!['{'] + sl + seq!['}'] + e;
    let r2 = e + seq!['{'] + cl + seq!['}'] + r3;
    let r1 = seq!['/'] + seq!['{'] + tk + seq!['}'] + r2;
    assert(conflict_branch_format() =~= e + seq!['{'] + bp + seq!['}'] + r1);
    lemma_render_placeholder(e, bp, r1, m);
    lemma_render_placeholder(seq!['/'], tk, r2, m);
    lemma_render_placeholder(e, cl, r3, m);
    lemma_render_placeholder(seq!['-'], sl, e, m);
    lemma_render_plain(e, m);
    let c = if cb.len() > 0 { seq!['-'] + cb } else { e };
    assert(e + p + (seq!['/'] + k + (e + c + (seq!['-'] + s + e))) =~= p + seq!['/'] + k + c
        + seq!['-'] + s);
}

} // verus!
