//! The decisions behind the subcommands, and the hooks and commands that
//! run around them.
use vstd::prelude::*;
use crate::config::{
    expand_tilde_in, home_or_empty, tilde_expansion, triggers, AskField, HookConfig, HookWhen,
    RepoCommand, RepoConfig,
};
use crate::git::keep;
use crate::template::{
    lemma_render_lone_placeholder, lemma_with_asks_keeps, lookup, render, render_template, with_asks,
    TemplateVars,
};
use crate::text::{
    chars_of, first_index, is_first_index, is_white, is_white_char, lemma_first_index_is,
    lemma_first_index_none, str_eq, strip_start, to_owned_string,
    CharClass,
};

pub mod config;
pub mod cull;
pub mod new;
pub mod open;
pub mod pr;

verus! {

// ── Hooks ───────────────────────────────────────────────────────────────────

/// Context available to hooks when their environment templates are rendered.
pub struct HookContext<'a> {
    /// The subcommand being run: "new", "open", "pr", "cull", "sync".
    pub command: &'a str,
    pub repo: &'a RepoConfig,
    /// Newly created or selected branch name, if known.
    pub branch_name: Option<&'a str>,
    /// Path to the branch's worktree (or repository root for standard repositories), if known.
    pub branch_path: Option<&'a str>,
}

/// The hooks of an optional list.
pub open spec fn hooks_of(l: Option<&Vec<HookConfig>>) -> Seq<HookConfig> {
    match l {
        Some(v) => v@,
        None => Seq::empty(),
    }
}

/// The hooks a list of references points to.
pub open spec fn deref_hooks(v: Seq<&HookConfig>) -> Seq<HookConfig> {
    v.map_values(|h: &HookConfig| *h)
}

/// The elements of `all` whose flag in `keep` is set, in order.
pub open spec fn kept(all: Seq<HookConfig>, keep: Seq<bool>) -> Seq<HookConfig>
    decreases all.len(),
{
    if all.len() == 0 {
        Seq::empty()
    } else {
        kept(all.drop_last(), keep.drop_last()) + if keep.last() {
            seq![all.last()]
        } else {
            Seq::empty()
        }
    }
}

/// `r` is `all` with some hooks left out, each of them equal to a hook kept
/// before it.
pub open spec fn dedup_of(r: Seq<HookConfig>, all: Seq<HookConfig>) -> bool {
    exists|keep: Seq<bool>|
        {
            &&& keep.len() == all.len()
            &&& r == kept(all, keep)
            &&& forall|i: int|
                0 <= i < all.len() && !keep[i] ==> exists|j: int|
                    0 <= j < i && keep[j] && all[j] == all[i]
        }
}

/// No two hooks of `all` are equal.
pub open spec fn all_distinct(all: Seq<HookConfig>) -> bool {
    forall|i: int, j: int| 0 <= i < j < all.len() ==> all[i] != all[j]
}

/// How far merging has got: `out` holds the hooks of `seen` that `keep`
/// keeps, and each one left out equals one kept before it.
spec fn merge_state(out: Seq<&HookConfig>, seen: Seq<HookConfig>, keep: Seq<bool>) -> bool {
    &&& keep.len() == seen.len()
    &&& deref_hooks(out) == kept(seen, keep)
    &&& forall|i: int|
        0 <= i < seen.len() && !keep[i] ==> exists|j: int| 0 <= j < i && keep[j] && seen[j] == seen[i]
    &&& forall|m: int|
        0 <= m < out.len() ==> exists|i: int|
            0 <= i < seen.len() && keep[i] && seen[i] == #[trigger] deref_hooks(out)[m]
}

/// Whether two references point to the same hook (`std::ptr::eq`); when
/// they do, the hooks are equal.
#[verifier::external_body]
fn same_hook(a: &HookConfig, b: &HookConfig) -> (r: bool)
    ensures
        r ==> *a == *b,
{
    std::ptr::eq(a, b)
}

/// Appends `h` unless `out` already holds that same hook.
fn add_hook<'a>(out: &mut Vec<&'a HookConfig>, h: &'a HookConfig) -> (added: bool)
    ensures
        added ==> final(out)@ == old(out)@.push(h),
        !added ==> final(out)@ == old(out)@ && deref_hooks(old(out)@).contains(*h),
{
    let mut j: usize = 0;
    while j < out.len()
        invariant
            j <= out@.len(),
            out@ == old(out)@,
        decreases out.len() - j,
    {
        if same_hook(out[j], h) {
            assert(deref_hooks(old(out)@)[j as int] == *h);
            return false;
        }
        j += 1;
    }
    out.push(h);
    true
}

/// Merges the hooks of `list` into `out`.
fn add_hooks<'a>(
    out: &mut Vec<&'a HookConfig>,
    list: &'a Vec<HookConfig>,
    Ghost(seen): Ghost<Seq<HookConfig>>,
    Ghost(keep): Ghost<Seq<bool>>,
) -> (r: Ghost<Seq<bool>>)
    requires
        merge_state(old(out)@, seen, keep),
    ensures
        merge_state(final(out)@, seen + list@, r@),
{
    let ghost mut k = keep;
    let mut i: usize = 0;
    while i < list.len()
        invariant
            i <= list@.len(),
            merge_state(out@, seen + list@.take(i as int), k),
        decreases list.len() - i,
    {
        let ghost s0 = seen + list@.take(i as int);
        let ghost o0 = out@;
        let ghost k0 = k;
        let h = &list[i];
        let ghost s1 = seen + list@.take(i + 1);
        assert(s1 =~= s0.push(*h));
        let added = add_hook(out, h);
        proof {
            k = k0.push(added);
            assert(s1.drop_last() =~= s0);
            assert(k.drop_last() =~= k0);
            assert forall|x: int| 0 <= x < s1.len() && !k[x] implies exists|j: int|
                0 <= j < x && k[j] && s1[j] == s1[x] by {
                if x < s0.len() {
                    let j = choose|j: int| 0 <= j < x && k0[j] && s0[j] == s0[x];
                    assert(k[j] && s1[j] == s1[x]);
                } else {
                    let m = choose|m: int| 0 <= m < o0.len() && deref_hooks(o0)[m] == *h;
                    assert(deref_hooks(o0)[m] == *h);
                    let j = choose|j: int| 0 <= j < s0.len() && k0[j] && s0[j] == deref_hooks(o0)[m];
                    assert(k[j] && s1[j] == s1[x]);
                }
            }
            assert(k.len() == s1.len());
            if added {
                assert(deref_hooks(out@) =~= deref_hooks(o0).push(*h));
                assert(k.last() && s1.last() == *h);
                assert(kept(s1, k) == kept(s0, k0) + seq![*h]);
                assert(deref_hooks(out@) =~= kept(s1, k));
                assert forall|m: int| 0 <= m < out@.len() implies exists|x: int|
                    0 <= x < s1.len() && k[x] && s1[x] == #[trigger] deref_hooks(out@)[m] by {
                    if m < o0.len() {
                        assert(deref_hooks(out@)[m] == deref_hooks(o0)[m]);
                        let x = choose|x: int| 0 <= x < s0.len() && k0[x] && s0[x] == deref_hooks(o0)[m];
                        assert(k[x] && s1[x] == deref_hooks(out@)[m]);
                    } else {
                        assert(k[s0.len() as int] && s1[s0.len() as int] == deref_hooks(out@)[m]);
                    }
                }
            } else {
                assert(!k.last());
                assert(kept(s1, k) =~= kept(s0, k0));
                assert(deref_hooks(out@) == kept(s1, k));
                assert forall|m: int| 0 <= m < out@.len() implies exists|x: int|
                    0 <= x < s1.len() && k[x] && s1[x] == #[trigger] deref_hooks(out@)[m] by {
                    let x = choose|x: int| 0 <= x < s0.len() && k0[x] && s0[x] == deref_hooks(o0)[m];
                    assert(k[x] && s1[x] == deref_hooks(out@)[m]);
                }
            }
            assert(merge_state(out@, s1, k));
        }
        i += 1;
    }
    assert(list@.take(list@.len() as int) =~= list@);
    Ghost(k)
}

/// Keeping every hook keeps the whole list.
proof fn lemma_kept_all(all: Seq<HookConfig>, keep: Seq<bool>)
    requires
        keep.len() == all.len(),
        forall|i: int| 0 <= i < keep.len() ==> keep[i],
    ensures
        kept(all, keep) == all,
    decreases all.len(),
{
    if all.len() > 0 {
        lemma_kept_all(all.drop_last(), keep.drop_last());
        assert(all.drop_last().push(all.last()) =~= all);
    }
}

/// Collects hooks from both the global configuration and the repository's:
/// the global ones first, then the repository's, each list in its order,
/// with a hook that is the very same one as a hook already collected (the
/// same list passed twice, say) left out. Hooks that are merely equal are
/// all kept; so, when no two hooks are equal, all of them come out.
pub fn merged_hooks<'a>(global: Option<&'a Vec<HookConfig>>, repo: Option<&'a Vec<HookConfig>>) -> (r:
    Vec<&'a HookConfig>)
    ensures
        dedup_of(deref_hooks(r@), hooks_of(global) + hooks_of(repo)),
        all_distinct(hooks_of(global) + hooks_of(repo)) ==> deref_hooks(r@) == hooks_of(global)
            + hooks_of(repo),
{
    let mut out: Vec<&'a HookConfig> = Vec::new();
    let ghost mut seen = Seq::<HookConfig>::empty();
    let ghost mut keep = Seq::<bool>::empty();
    assert(deref_hooks(out@) =~= kept(seen, keep));
    if let Some(g) = global {
        let Ghost(k) = add_hooks(&mut out, g, Ghost(seen), Ghost(keep));
        proof {
            seen = seen + g@;
            keep = k;
        }
    }
    assert(seen =~= hooks_of(global));
    if let Some(rl) = repo {
        let Ghost(k) = add_hooks(&mut out, rl, Ghost(seen), Ghost(keep));
        proof {
            seen = seen + rl@;
            keep = k;
        }
    }
    proof {
        assert(seen =~= hooks_of(global) + hooks_of(repo));
        assert(dedup_of(deref_hooks(out@), seen));
        if all_distinct(seen) {
            assert forall|i: int| 0 <= i < keep.len() implies keep[i] by {
                if !keep[i] {
                    let j = choose|j: int| 0 <= j < i && keep[j] && seen[j] == seen[i];
                    assert(seen[j] != seen[i]);
                }
            }
            lemma_kept_all(seen, keep);
        }
    }
    out
}

/// A hook applies to `command` at timing `when`.
pub open spec fn applies(h: HookConfig, command: Seq<char>, when: HookWhen) -> bool {
    triggers(h.trigger, command) && h.when == when
}

/// The hooks, in order, that apply to `command` at timing `when`.
pub fn hooks_for<'a>(hooks: &Vec<&'a HookConfig>, command: &str, when: HookWhen) -> (r: Vec<
    &'a HookConfig,
>)
    ensures
        deref_hooks(r@) == keep(deref_hooks(hooks@), |h: HookConfig| applies(h, command@, when)),
{
    let ghost all = deref_hooks(hooks@);
    let ghost p = |h: HookConfig| applies(h, command@, when);
    let mut out: Vec<&'a HookConfig> = Vec::new();
    let mut i: usize = 0;
    while i < hooks.len()
        invariant
            i <= hooks@.len(),
            all == deref_hooks(hooks@),
            p == (|h: HookConfig| applies(h, command@, when)),
            deref_hooks(out@) == keep(all.take(i as int), p),
        decreases hooks.len() - i,
    {
        assert(all.take(i + 1).drop_last() =~= all.take(i as int));
        assert(all.take(i + 1).last() == *hooks@[i as int]);
        let h = hooks[i];
        let ghost before = deref_hooks(out@);
        if h.trigger.matches(command) && h.when == when {
            out.push(h);
            assert(deref_hooks(out@) =~= before + seq![*h]);
        } else {
            assert(deref_hooks(out@) =~= before + Seq::<HookConfig>::empty());
        }
        i += 1;
    }
    assert(all.take(hooks@.len() as int) =~= all);
    out
}

/// Whether the user must be asked before running the hook: it is optional
/// and this is not a dry run (a dry run only says it would ask, and runs it).
pub fn needs_confirmation(hook: &HookConfig, dry_run: bool) -> (r: bool)
    ensures
        r == (hook.optional && !dry_run),
{
    hook.optional && !dry_run
}

/// An optional string's characters, empty when absent.
pub open spec fn opt_str(o: Option<&str>) -> Seq<char> {
    match o {
        Some(s) => s@,
        None => Seq::empty(),
    }
}

/// The variables a hook's environment templates are rendered with.
pub open spec fn hook_vars(
    branch_name: Seq<char>,
    branch_path: Seq<char>,
    root: Seq<char>,
    repo_name: Seq<char>,
    remote: Seq<char>,
    asks: Seq<(String, String)>,
) -> Map<Seq<char>, Seq<char>> {
    with_asks(
        Map::<Seq<char>, Seq<char>>::empty().insert("branch.name"@, branch_name).insert(
            "branch.path"@,
            branch_path,
        ).insert("repo.root"@, root).insert("repo.name"@, repo_name).insert("repo.remote"@, remote),
        asks,
    )
}

/// Each environment variable with its template rendered with `m`.
pub open spec fn rendered_env(env: Seq<(String, String)>, m: Map<Seq<char>, Seq<char>>) -> Seq<
    (Seq<char>, Seq<char>),
> {
    env.map_values(|kv: (String, String)| (kv.0@, render(kv.1@, m)))
}

/// The names and values of a list of environment variables.
pub open spec fn env_views(env: Seq<(String, String)>) -> Seq<(Seq<char>, Seq<char>)> {
    env.map_values(|kv: (String, String)| (kv.0@, kv.1@))
}

/// The remote of a repository, `origin` when not set.
pub open spec fn remote_of(repo: RepoConfig) -> Seq<char> {
    match repo.remote {
        Some(x) => x@,
        None => "origin"@,
    }
}

/// Each variable of `env` with its template rendered with `vars`.
fn render_env(env: &Vec<(String, String)>, vars: &TemplateVars) -> (r: Vec<(String, String)>)
    ensures
        env_views(r@) == rendered_env(env@, vars@),
{
    let mut r: Vec<(String, String)> = Vec::new();
    let mut i: usize = 0;
    while i < env.len()
        invariant
            i <= env@.len(),
            env_views(r@) == rendered_env(env@.take(i as int), vars@),
        decreases env.len() - i,
    {
        let key = env[i].0.clone();
        let value = render_template(env[i].1.as_str(), vars);
        let ghost before = r@;
        let ghost kv = (key@, value@);
        assert(kv == (env@[i as int].0@, render(env@[i as int].1@, vars@)));
        r.push((key, value));
        assert(env@.take(i + 1) =~= env@.take(i as int).push(env@[i as int]));
        assert(env_views(r@) =~= env_views(before).push(kv));
        assert(rendered_env(env@.take(i + 1), vars@) =~= rendered_env(env@.take(i as int), vars@).push(kv));
        i += 1;
    }
    assert(env@.take(env@.len() as int) =~= env@);
    r
}

/// A variable name usable as a lone placeholder: no `:` or `}`, no white
/// space at either end, and not an asked value's `ask.` name.
spec fn plain_name(n: Seq<char>) -> bool {
    &&& forall|j: int| 0 <= j < n.len() ==> n[j] != '}' && n[j] != ':'
    &&& n.len() > 0 ==> !is_white(n[0]) && !is_white(n.last())
    &&& !(n.len() >= 4 && n.take(4) == "ask."@)
}

/// The lone placeholder of a plain name renders to the value the map
/// without asked values gives it.
proof fn lemma_plain_placeholder(
    n: Seq<char>,
    base: Map<Seq<char>, Seq<char>>,
    asks: Seq<(String, String)>,
)
    requires
        plain_name(n),
    ensures
        render(seq!['{'] + n + seq!['}'], with_asks(base, asks)) == lookup(base, n),
{
    lemma_render_lone_placeholder(n, with_asks(base, asks));
    lemma_with_asks_keeps(base, asks, n);
}

/// In a hook's environment each variable keeps its name, and a variable
/// whose template is just `{branch.name}`, `{branch.path}`, `{repo.root}`,
/// `{repo.name}` or `{repo.remote}` gets the branch name, the branch path,
/// the repository root, the repository name or the remote, whatever values
/// are asked.
pub proof fn lemma_hook_env_values(
    env: Seq<(String, String)>,
    branch_name: Seq<char>,
    branch_path: Seq<char>,
    root: Seq<char>,
    repo_name: Seq<char>,
    remote: Seq<char>,
    asks: Seq<(String, String)>,
    i: int,
)
    requires
        0 <= i < env.len(),
    ensures
        ({
            let r = rendered_env(env, hook_vars(branch_name, branch_path, root, repo_name, remote, asks));
            &&& r.len() == env.len()
            &&& r[i].0 == env[i].0@
            &&& env[i].1@ == "{branch.name}"@ ==> r[i].1 == branch_name
            &&& env[i].1@ == "{branch.path}"@ ==> r[i].1 == branch_path
            &&& env[i].1@ == "{repo.root}"@ ==> r[i].1 == root
            &&& env[i].1@ == "{repo.name}"@ ==> r[i].1 == repo_name
            &&& env[i].1@ == "{repo.remote}"@ ==> r[i].1 == remote
        }),
{
    reveal_strlit("ask.");
    reveal_strlit("branch.name");
    reveal_strlit("branch.path");
    reveal_strlit("repo.root");
    reveal_strlit("repo.name");
    reveal_strlit("repo.remote");
    reveal_strlit("{branch.name}");
    reveal_strlit("{branch.path}");
    reveal_strlit("{repo.root}");
    reveal_strlit("{repo.name}");
    reveal_strlit("{repo.remote}");
    let bn = "branch.name"@;
    let bp = "branch.path"@;
    let rr = "repo.root"@;
    let rn = "repo.name"@;
    let rm = "repo.remote"@;
    assert(bn[7] != bp[7]);
    assert(bn[0] != rr[0] && bn[0] != rn[0] && bn[0] != rm[0]);
    assert(bp[0] != rr[0] && bp[0] != rn[0] && bp[0] != rm[0]);
    assert(rr.len() != rm.len() && rn.len() != rm.len());
    assert(rr[5] != rn[5]);
    assert(bn != bp && bn != rr && bn != rn && bn != rm && bp != rr && bp != rn && bp != rm);
    assert(rr != rn && rr != rm && rn != rm);
    let base = Map::<Seq<char>, Seq<char>>::empty().insert(bn, branch_name).insert(bp, branch_path).insert(
        rr,
        root,
    ).insert(rn, repo_name).insert(rm, remote);
    assert(hook_vars(branch_name, branch_path, root, repo_name, remote, asks) == with_asks(base, asks));
    let t = env[i].1@;
    if t == "{branch.name}"@ {
        assert(t =~= seq!['{'] + bn + seq!['}']);
        assert(!(bn.take(4) == "ask."@)) by { assert(bn.take(4)[0] != "ask."@[0]); }
        lemma_plain_placeholder(bn, base, asks);
    }
    if t == "{branch.path}"@ {
        assert(t =~= seq!['{'] + bp + seq!['}']);
        assert(!(bp.take(4) == "ask."@)) by { assert(bp.take(4)[0] != "ask."@[0]); }
        lemma_plain_placeholder(bp, base, asks);
    }
    if t == "{repo.root}"@ {
        assert(t =~= seq!['{'] + rr + seq!['}']);
        assert(!(rr.take(4) == "ask."@)) by { assert(rr.take(4)[0] != "ask."@[0]); }
        lemma_plain_placeholder(rr, base, asks);
    }
    if t == "{repo.name}"@ {
        assert(t =~= seq!['{'] + rn + seq!['}']);
        assert(!(rn.take(4) == "ask."@)) by { assert(rn.take(4)[0] != "ask."@[0]); }
        lemma_plain_placeholder(rn, base, asks);
    }
    if t == "{repo.remote}"@ {
        assert(t =~= seq!['{'] + rm + seq!['}']);
        assert(!(rm.take(4) == "ask."@)) by { assert(rm.take(4)[0] != "ask."@[0]); }
        lemma_plain_placeholder(rm, base, asks);
    }
}

/// The environment of a hook, given the home directory `home` the
/// repository root is expanded with: each variable of the hook's `env` with
/// its template rendered with `branch.name`, `branch.path`, `repo.root`,
/// `repo.name`, `repo.remote` and `ask.<name>`; none when the hook has no `env`.
pub fn resolve_hook_env_in(
    hook: &HookConfig,
    ctx: &HookContext,
    ask_vals: &Vec<(String, String)>,
    home: &str,
) -> (r: Vec<(String, String)>)
    ensures
        match hook.env {
            None => r@.len() == 0,
            Some(env) => env_views(r@) == rendered_env(
                env@,
                hook_vars(
                    opt_str(ctx.branch_name),
                    opt_str(ctx.branch_path),
                    tilde_expansion(home@, ctx.repo.root@),
                    ctx.repo.name@,
                    remote_of(*ctx.repo),
                    ask_vals@,
                ),
            ),
        },
        hook.env matches Some(env) ==> r@.len() == env@.len() && forall|i: int|
            0 <= i < env@.len() ==> {
                &&& r@[i].0@ == env@[i].0@
                &&& env@[i].1@ == "{branch.name}"@ ==> r@[i].1@ == opt_str(ctx.branch_name)
                &&& env@[i].1@ == "{branch.path}"@ ==> r@[i].1@ == opt_str(ctx.branch_path)
                &&& env@[i].1@ == "{repo.root}"@ ==> r@[i].1@ == tilde_expansion(home@, ctx.repo.root@)
                &&& env@[i].1@ == "{repo.name}"@ ==> r@[i].1@ == ctx.repo.name@
            },
{
    let env = match &hook.env {
        Some(e) => e,
        None => return Vec::new(),
    };
    let mut vars = TemplateVars::new();
    match ctx.branch_name {
        Some(b) => vars.insert("branch.name", b),
        None => vars.insert("branch.name", ""),
    }
    match ctx.branch_path {
        Some(p) => vars.insert("branch.path", p),
        None => vars.insert("branch.path", ""),
    }
    let root = expand_tilde_in(home, ctx.repo.root.as_str());
    vars.insert("repo.root", root.as_str());
    vars.insert("repo.name", ctx.repo.name.as_str());
    vars.insert("repo.remote", ctx.repo.remote());
    vars.insert_asks(ask_vals);
    proof {
        assert(""@ =~= Seq::<char>::empty()) by {
            reveal_strlit("");
        }
    }
    let r = render_env(env, &vars);
    proof {
        let vs = hook_vars(
            opt_str(ctx.branch_name),
            opt_str(ctx.branch_path),
            tilde_expansion(home@, ctx.repo.root@),
            ctx.repo.name@,
            remote_of(*ctx.repo),
            ask_vals@,
        );
        assert(env_views(r@).len() == r@.len());
        assert forall|i: int| 0 <= i < env@.len() implies {
            &&& r@[i].0@ == env@[i].0@
            &&& env@[i].1@ == "{branch.name}"@ ==> r@[i].1@ == opt_str(ctx.branch_name)
            &&& env@[i].1@ == "{branch.path}"@ ==> r@[i].1@ == opt_str(ctx.branch_path)
            &&& env@[i].1@ == "{repo.root}"@ ==> r@[i].1@ == tilde_expansion(home@, ctx.repo.root@)
            &&& env@[i].1@ == "{repo.name}"@ ==> r@[i].1@ == ctx.repo.name@
        } by {
            lemma_hook_env_values(
                env@,
                opt_str(ctx.branch_name),
                opt_str(ctx.branch_path),
                tilde_expansion(home@, ctx.repo.root@),
                ctx.repo.name@,
                remote_of(*ctx.repo),
                ask_vals@,
                i,
            );
            assert(env_views(r@)[i] == (r@[i].0@, r@[i].1@));
        }
    }
    r
}

/// The environment of a hook (see [`resolve_hook_env_in`]), with the
/// repository root expanded with the user's home directory.
pub fn resolve_hook_env(hook: &HookConfig, ctx: &HookContext, ask_vals: &Vec<(String, String)>) -> (r:
    Vec<(String, String)>)
    ensures
        match hook.env {
            None => r@.len() == 0,
            Some(env) => exists|home: Seq<char>|
                env_views(r@) == rendered_env(
                    env@,
                    hook_vars(
                        opt_str(ctx.branch_name),
                        opt_str(ctx.branch_path),
                        tilde_expansion(home, ctx.repo.root@),
                        ctx.repo.name@,
                        remote_of(*ctx.repo),
                        ask_vals@,
                    ),
                ),
        },
        hook.env matches Some(env) ==> r@.len() == env@.len() && forall|i: int|
            0 <= i < env@.len() ==> {
                &&& r@[i].0@ == env@[i].0@
                &&& env@[i].1@ == "{branch.name}"@ ==> r@[i].1@ == opt_str(ctx.branch_name)
                &&& env@[i].1@ == "{branch.path}"@ ==> r@[i].1@ == opt_str(ctx.branch_path)
                &&& env@[i].1@ == "{repo.name}"@ ==> r@[i].1@ == ctx.repo.name@
            },
{
    let home = home_or_empty();
    resolve_hook_env_in(hook, ctx, ask_vals, home.as_str())
}

/// The environment of a repository command: each variable of its `env`
/// with its template rendered with `branch.path` and `ask.<name>`; none when
/// the command has no `env`.
pub fn resolve_env(cmd: &RepoCommand, branch_path: &str, ask_vals: &Vec<(String, String)>) -> (r: Vec<
    (String, String),
>)
    ensures
        match cmd.env {
            None => r@.len() == 0,
            Some(env) => env_views(r@) == rendered_env(
                env@,
                with_asks(
                    Map::<Seq<char>, Seq<char>>::empty().insert("branch.path"@, branch_path@),
                    ask_vals@,
                ),
            ),
        },
        cmd.env matches Some(env) ==> r@.len() == env@.len() && forall|i: int|
            0 <= i < env@.len() ==> r@[i].0@ == env@[i].0@ && (env@[i].1@ == "{branch.path}"@
                ==> r@[i].1@ == branch_path@),
{
    let env = match &cmd.env {
        Some(e) => e,
        None => return Vec::new(),
    };
    let mut vars = TemplateVars::new();
    vars.insert("branch.path", branch_path);
    vars.insert_asks(ask_vals);
    let r = render_env(env, &vars);
    proof {
        reveal_strlit("branch.path");
        reveal_strlit("{branch.path}");
        let bp = "branch.path"@;
        let base = Map::<Seq<char>, Seq<char>>::empty().insert(bp, branch_path@);
        assert(env_views(r@).len() == r@.len());
        assert forall|i: int| 0 <= i < env@.len() implies r@[i].0@ == env@[i].0@ && (env@[i].1@
            == "{branch.path}"@ ==> r@[i].1@ == branch_path@) by {
            assert(env_views(r@)[i] == (r@[i].0@, r@[i].1@));
            if env@[i].1@ == "{branch.path}"@ {
                assert(env@[i].1@ =~= seq!['{'] + bp + seq!['}']);
                assert(!(bp.take(4) == "ask."@)) by {
                    reveal_strlit("ask.");
                    assert(bp.take(4)[0] != "ask."@[0]);
                }
                lemma_plain_placeholder(bp, base, ask_vals@);
            }
        }
    }
    r
}

// ── Runners ─────────────────────────────────────────────────────────────────

/// The first white-space-separated word of `s` (`split_whitespace().next()`).
pub open spec fn first_word(s: Seq<char>) -> Option<Seq<char>> {
    let t = strip_start(s, CharClass::White);
    if t.len() == 0 {
        None
    } else {
        match first_index(t, |c: char| is_white(c)) {
            Some(e) => Some(t.take(e)),
            None => Some(t),
        }
    }
}

/// The program a runner names: its first word, e.g. `fish` for `fish -c`.
/// Only that word is run, with the script file as its one argument: any
/// further words of the runner are dropped.
pub fn runner_binary(runner: &str) -> (r: Option<String>)
    ensures
        match r {
            Some(b) => first_word(runner@) == Some(b@),
            None => first_word(runner@) is None,
        },
{
    let v = chars_of(runner);
    let mut a: usize = 0;
    assert(v@.skip(0) =~= v@);
    while a < v.len() && is_white_char(v[a])
        invariant
            a <= v@.len(),
            strip_start(v@, CharClass::White) == strip_start(v@.skip(a as int), CharClass::White),
        decreases v.len() - a,
    {
        assert(v@.skip(a as int).skip(1) =~= v@.skip(a + 1));
        a += 1;
    }
    let ghost t = v@.skip(a as int);
    assert(strip_start(t, CharClass::White) == t);
    if a == v.len() {
        return None;
    }
    let ghost p = |c: char| is_white(c);
    let mut e = a;
    while e < v.len() && !is_white_char(v[e])
        invariant
            a <= e <= v@.len(),
            t == v@.skip(a as int),
            p == (|c: char| is_white(c)),
            forall|j: int| 0 <= j < e - a ==> !p(t[j]),
        decreases v.len() - e,
    {
        e += 1;
    }
    if e < v.len() {
        proof {
            assert(is_first_index(t, p, e - a));
            lemma_first_index_is(t, p, e - a);
            assert(t.take(e - a) =~= v@.subrange(a as int, e as int));
        }
    } else {
        proof {
            lemma_first_index_none(t, p);
            assert(t =~= v@.subrange(a as int, e as int));
        }
    }
    Some(crate::text::string_of(&v, a, e))
}

// ── Asked values ────────────────────────────────────────────────────────────

/// How a value is asked of the user.
#[derive(Clone, Copy, PartialEq, Eq, Structural, Debug)]
pub enum AskPrompt {
    /// A yes/no question; the value is `true` or `false`.
    Confirm,
    /// The user's editor, which must be saved.
    Editor,
    /// The user's editor, which may be skipped (the value is then empty).
    SkippableEditor,
    /// A line of text.
    Text,
}

/// The prompt for an ask field: `boolean` asks yes or no, `editor` opens
/// the editor (skippable when optional), any other type asks for text.
pub open spec fn prompt_for(field_type: Seq<char>, optional: bool) -> AskPrompt {
    if field_type == "boolean"@ {
        AskPrompt::Confirm
    } else if field_type == "editor"@ {
        if optional {
            AskPrompt::SkippableEditor
        } else {
            AskPrompt::Editor
        }
    } else {
        AskPrompt::Text
    }
}

/// The prompt an ask field calls for.
pub fn ask_prompt(field: &AskField) -> (r: AskPrompt)
    ensures
        r == prompt_for(
            match *field {
                AskField::Simple(t) => t@,
                AskField::Complex { field_type, .. } => field_type@,
            },
            (*field matches AskField::Complex { optional: Some(true), .. }),
        ),
{
    let t = field.field_type();
    if str_eq(t, "boolean") {
        AskPrompt::Confirm
    } else if str_eq(t, "editor") {
        if field.is_optional() {
            AskPrompt::SkippableEditor
        } else {
            AskPrompt::Editor
        }
    } else {
        AskPrompt::Text
    }
}

/// The value a yes/no answer is recorded as.
pub fn confirm_value(answer: bool) -> (r: String)
    ensures
        r@ == if answer {
            "true"@
        } else {
            "false"@
        },
{
    if answer {
        to_owned_string("true")
    } else {
        to_owned_string("false")
    }
}

} // verus!
