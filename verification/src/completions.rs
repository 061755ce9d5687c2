//! Post-processing of the fish completion script that clap_complete writes.
//!
//! The fish backend emits nested-subcommand conditions such as
//! `-n "__fish_fi_using_subcommand config; and __fish_seen_subcommand_from validate"`.
//! The semicolon inside the `-n` string is not a statement separator when
//! fish evaluates it, which breaks tab-completion. The script is given
//! helper functions, and the broken conditions are replaced by calls to them.
use vstd::prelude::*;
use crate::template::replace_all_vec;
use crate::text::{
    agree, chars_of, contains_seq, find_seq, find_seq_from, lemma_find_seq_props,
    lemma_replace_all_avoids, no_straddle, push_all, push_range, replace_all, string_of_all,
};

verus! {

/// The fish functions put in front of the first `complete -c fi` line.
pub const FISH_HELPERS: &'static str = "\n\
    function __fish_fi_config_needs_subcommand\n\
    \tset -l cmd (commandline -opc)\n\
    \tset -e cmd[1]\n\
    \tset -l found 0\n\
    \tfor tok in $cmd\n\
    \t\tif test $found -eq 1\n\
    \t\t\tcontains -- $tok validate show path edit help; and return 1\n\
    \t\tend\n\
    \t\tif test $tok = config\n\
    \t\t\tset found 1\n\
    \t\tend\n\
    \tend\n\
    \ttest $found -eq 1\n\
    end\n\
    \n\
    function __fish_fi_using_config_subcommand\n\
    \tset -l cmd (commandline -opc)\n\
    \tset -e cmd[1]\n\
    \tset -l after_config 0\n\
    \tfor tok in $cmd\n\
    \t\tif test $after_config -eq 1\n\
    \t\t\tcontains -- $tok $argv; and return 0\n\
    \t\t\treturn 1\n\
    \t\tend\n\
    \t\tif test $tok = config\n\
    \t\t\tset after_config 1\n\
    \t\tend\n\
    \tend\n\
    \treturn 1\n\
    end\n\
    \n\
    function __fish_fi_help_needs_subcommand\n\
    \tset -l cmd (commandline -opc)\n\
    \tset -e cmd[1]\n\
    \tset -l found 0\n\
    \tfor tok in $cmd\n\
    \t\tif test $found -eq 1\n\
    \t\t\tcontains -- $tok init new cull pr open list config sync completions help; and return 1\n\
    \t\tend\n\
    \t\tif test $tok = help\n\
    \t\t\tset found 1\n\
    \t\tend\n\
    \tend\n\
    \ttest $found -eq 1\n\
    end\n\
    \n\
    function __fish_fi_using_help_subcommand\n\
    \tset -l cmd (commandline -opc)\n\
    \tset -e cmd[1]\n\
    \tset -l after_help 0\n\
    \tfor tok in $cmd\n\
    \t\tif test $after_help -eq 1\n\
    \t\t\tcontains -- $tok $argv; and return 0\n\
    \t\t\treturn 1\n\
    \t\tend\n\
    \t\tif test $tok = help\n\
    \t\t\tset after_help 1\n\
    \t\tend\n\
    \tend\n\
    \treturn 1\n\
    end\n";

/// Where the helpers go: before the first `\ncomplete -c fi`, or at the end.
pub open spec fn injection_point(raw: Seq<char>) -> int {
    match find_seq(raw, "\ncomplete -c fi"@) {
        Some(i) => i,
        None => raw.len() as int,
    }
}

/// The script with the helper functions put in.
pub open spec fn with_helpers(raw: Seq<char>) -> Seq<char> {
    raw.take(injection_point(raw)) + FISH_HELPERS@ + raw.skip(injection_point(raw))
}

/// The broken conditions and what replaces each, in the order applied.
pub open spec fn fish_fixes() -> Seq<(Seq<char>, Seq<char>)> {
    seq![
        (
            "__fish_fi_using_subcommand config; and not __fish_seen_subcommand_from validate show path edit help"@,
            "__fish_fi_config_needs_subcommand"@,
        ),
        (
            "__fish_fi_using_subcommand config; and __fish_seen_subcommand_from validate"@,
            "__fish_fi_using_config_subcommand validate"@,
        ),
        (
            "__fish_fi_using_subcommand config; and __fish_seen_subcommand_from show"@,
            "__fish_fi_using_config_subcommand show"@,
        ),
        (
            "__fish_fi_using_subcommand config; and __fish_seen_subcommand_from path"@,
            "__fish_fi_using_config_subcommand path"@,
        ),
        (
            "__fish_fi_using_subcommand config; and __fish_seen_subcommand_from edit"@,
            "__fish_fi_using_config_subcommand edit"@,
        ),
        (
            "__fish_fi_using_subcommand config; and __fish_seen_subcommand_from help"@,
            "__fish_fi_using_config_subcommand help"@,
        ),
        (
            "__fish_fi_using_subcommand help; and not __fish_seen_subcommand_from init new cull pr open list config sync completions help"@,
            "__fish_fi_help_needs_subcommand"@,
        ),
        (
            "__fish_fi_using_subcommand help; and __fish_seen_subcommand_from config"@,
            "__fish_fi_using_help_subcommand config"@,
        ),
    ]
}

/// Each replacement of `fixes` applied to `s` in turn (`str::replace`).
pub open spec fn apply_fixes(s: Seq<char>, fixes: Seq<(Seq<char>, Seq<char>)>) -> Seq<char>
    decreases fixes.len(),
{
    if fixes.len() == 0 {
        s
    } else {
        apply_fixes(replace_all(s, fixes[0].0, fixes[0].1), fixes.skip(1))
    }
}

/// The fixed script: helpers put in, then each broken condition replaced.
pub open spec fn fixed_fish_script(raw: Seq<char>) -> Seq<char> {
    apply_fixes(with_helpers(raw), fish_fixes())
}

/// Replaces every occurrence of `pat` in `s` by `rep`.
fn replace_in(s: &Vec<char>, pat: &str, rep: &str) -> (r: Vec<char>)
    requires
        pat@.len() > 0,
    ensures
        r@ == replace_all(s@, pat@, rep@),
{
    let p = chars_of(pat);
    let q = chars_of(rep);
    replace_all_vec(s, &p, &q)
}

/// Fixes the fish completion script `raw` (see [`fixed_fish_script`]); none
/// of the broken nested-subcommand conditions is left in the result.
pub fn fix_fish_completions(raw: &str) -> (r: String)
    ensures
        r@ == fixed_fish_script(raw@),
        !contains_seq(r@, "__fish_fi_using_subcommand config; and not __fish_seen_subcommand_from validate show path edit help"@),
        !contains_seq(r@, "__fish_fi_using_subcommand config; and __fish_seen_subcommand_from validate"@),
        !contains_seq(r@, "__fish_fi_using_subcommand config; and __fish_seen_subcommand_from show"@),
        !contains_seq(r@, "__fish_fi_using_subcommand config; and __fish_seen_subcommand_from path"@),
        !contains_seq(r@, "__fish_fi_using_subcommand config; and __fish_seen_subcommand_from edit"@),
        !contains_seq(r@, "__fish_fi_using_subcommand config; and __fish_seen_subcommand_from help"@),
        !contains_seq(r@, "__fish_fi_using_subcommand help; and not __fish_seen_subcommand_from init new cull pr open list config sync completions help"@),
        !contains_seq(r@, "__fish_fi_using_subcommand help; and __fish_seen_subcommand_from config"@),
{
    proof {
        lemma_no_broken_guard_left(raw@);
    }
    let v = chars_of(raw);
    let needle = chars_of("\ncomplete -c fi");
    assert(v@.skip(0) =~= v@);
    let at = match find_seq_from(&v, &needle, 0) {
        Some(i) => {
            proof {
                lemma_find_seq_props(v@, needle@);
            }
            i
        },
        None => v.len(),
    };
    let mut s: Vec<char> = Vec::new();
    push_range(&mut s, &v, 0, at);
    push_all(&mut s, &chars_of(FISH_HELPERS));
    push_range(&mut s, &v, at, v.len());
    assert(v@.subrange(0, at as int) =~= v@.take(at as int));
    assert(v@.subrange(at as int, v@.len() as int) =~= v@.skip(at as int));
    assert(s@ =~= with_helpers(raw@));
    let ghost fx = fish_fixes();
    proof {
        reveal_strlit("__fish_fi_using_subcommand config; and not __fish_seen_subcommand_from validate show path edit help");
        reveal_strlit("__fish_fi_using_subcommand config; and __fish_seen_subcommand_from validate");
        reveal_strlit("__fish_fi_using_subcommand config; and __fish_seen_subcommand_from show");
        reveal_strlit("__fish_fi_using_subcommand config; and __fish_seen_subcommand_from path");
        reveal_strlit("__fish_fi_using_subcommand config; and __fish_seen_subcommand_from edit");
        reveal_strlit("__fish_fi_using_subcommand config; and __fish_seen_subcommand_from help");
        reveal_strlit("__fish_fi_using_subcommand help; and not __fish_seen_subcommand_from init new cull pr open list config sync completions help");
        reveal_strlit("__fish_fi_using_subcommand help; and __fish_seen_subcommand_from config");
        assert(fx.skip(1).skip(1).skip(1).skip(1).skip(1).skip(1).skip(1).skip(1).len() == 0);
    }
    let s1 = replace_in(&s, "__fish_fi_using_subcommand config; and not __fish_seen_subcommand_from validate show path edit help", "__fish_fi_config_needs_subcommand");
    let s2 = replace_in(&s1, "__fish_fi_using_subcommand config; and __fish_seen_subcommand_from validate", "__fish_fi_using_config_subcommand validate");
    let s3 = replace_in(&s2, "__fish_fi_using_subcommand config; and __fish_seen_subcommand_from show", "__fish_fi_using_config_subcommand show");
    let s4 = replace_in(&s3, "__fish_fi_using_subcommand config; and __fish_seen_subcommand_from path", "__fish_fi_using_config_subcommand path");
    let s5 = replace_in(&s4, "__fish_fi_using_subcommand config; and __fish_seen_subcommand_from edit", "__fish_fi_using_config_subcommand edit");
    let s6 = replace_in(&s5, "__fish_fi_using_subcommand config; and __fish_seen_subcommand_from help", "__fish_fi_using_config_subcommand help");
    let s7 = replace_in(&s6, "__fish_fi_using_subcommand help; and not __fish_seen_subcommand_from init new cull pr open list config sync completions help", "__fish_fi_help_needs_subcommand");
    let s8 = replace_in(&s7, "__fish_fi_using_subcommand help; and __fish_seen_subcommand_from config", "__fish_fi_using_help_subcommand config");
    proof {
        let w = with_helpers(raw@);
        assert(apply_fixes(w, fx) == apply_fixes(s1@, fx.skip(1)));
        assert(apply_fixes(s1@, fx.skip(1)) == apply_fixes(s2@, fx.skip(1).skip(1)));
        assert(apply_fixes(s2@, fx.skip(1).skip(1)) == apply_fixes(s3@, fx.skip(1).skip(1).skip(1)));
        assert(apply_fixes(s3@, fx.skip(1).skip(1).skip(1)) == apply_fixes(s4@, fx.skip(1).skip(1).skip(1).skip(1)));
        assert(apply_fixes(s4@, fx.skip(1).skip(1).skip(1).skip(1)) == apply_fixes(s5@, fx.skip(1).skip(1).skip(1).skip(1).skip(1)));
        assert(apply_fixes(s5@, fx.skip(1).skip(1).skip(1).skip(1).skip(1)) == apply_fixes(s6@, fx.skip(1).skip(1).skip(1).skip(1).skip(1).skip(1)));
        assert(apply_fixes(s6@, fx.skip(1).skip(1).skip(1).skip(1).skip(1).skip(1)) == apply_fixes(s7@, fx.skip(1).skip(1).skip(1).skip(1).skip(1).skip(1).skip(1)));
        assert(apply_fixes(s7@, fx.skip(1).skip(1).skip(1).skip(1).skip(1).skip(1).skip(1)) == apply_fixes(s8@, fx.skip(1).skip(1).skip(1).skip(1).skip(1).skip(1).skip(1).skip(1)));
    }
    string_of_all(&s8)
}

/// The shape shared by the broken conditions: they start `__fish_fi_using_s`,
/// end in a letter, and any later `__` starts `__fish_s`.
spec fn guard_shape(q: Seq<char>) -> bool {
    &&& q.len() > 16
    &&& q[0] == '_' && q[1] == '_' && q[10] == 'u' && q[16] == 's'
    &&& q.last() != '_'
    &&& forall|k: int|
        1 <= k < q.len() - 1 && #[trigger] q[k] == '_' && q[k + 1] == '_' ==> k + 7 < q.len() && q[k
            + 7] == 's'
}

/// The shape shared by the replacements: they start `__fish_f`, are not
/// `__fish_fi_using_s...`, end in a letter and hold no other `__`.
spec fn fix_shape(r: Seq<char>) -> bool {
    &&& r.len() > 16
    &&& r[0] == '_' && r[1] == '_' && r[7] == 'f'
    &&& (r[10] != 'u' || r[16] != 's')
    &&& r.last() != '_'
    &&& forall|m: int| 1 <= m < r.len() - 1 && #[trigger] r[m] == '_' ==> r[m + 1] != '_'
}

/// A broken condition cannot straddle a replacement.
proof fn lemma_guard_fix_apart(q: Seq<char>, r: Seq<char>)
    requires
        guard_shape(q),
        fix_shape(r),
    ensures
        no_straddle(q, r),
{
    assert forall|k: int| 1 <= k < q.len() implies !agree(#[trigger] q.skip(k), r) by {
        let t = q.skip(k);
        if k == q.len() - 1 {
            assert(t[0] == q.last());
        } else if q[k] != '_' {
            assert(t[0] == q[k]);
        } else if q[k + 1] != '_' {
            assert(t[1] == q[k + 1]);
        } else {
            assert(t[7] == q[k + 7]);
        }
    }
    assert forall|m: int| 0 <= m < r.len() implies !agree(#[trigger] r.skip(m), q) by {
        let t = r.skip(m);
        if m == 0 {
            assert(t[10] == r[10] && t[16] == r[16]);
        } else if m == r.len() - 1 {
            assert(t[0] == r.last());
        } else if r[m] != '_' {
            assert(t[0] == r[m]);
        } else {
            assert(t[1] == r[m + 1]);
        }
    }
}

proof fn lemma_guard_shape_1()
    ensures
        guard_shape("__fish_fi_using_subcommand config; and not __fish_seen_subcommand_from validate show path edit help"@),
{
    reveal_strlit("__fish_fi_using_subcommand config; and not __fish_seen_subcommand_from validate show path edit help");
}

proof fn lemma_guard_shape_2()
    ensures
        guard_shape("__fish_fi_using_subcommand config; and __fish_seen_subcommand_from validate"@),
{
    reveal_strlit("__fish_fi_using_subcommand config; and __fish_seen_subcommand_from validate");
}

proof fn lemma_guard_shape_3()
    ensures
        guard_shape("__fish_fi_using_subcommand config; and __fish_seen_subcommand_from show"@),
{
    reveal_strlit("__fish_fi_using_subcommand config; and __fish_seen_subcommand_from show");
}

proof fn lemma_guard_shape_4()
    ensures
        guard_shape("__fish_fi_using_subcommand config; and __fish_seen_subcommand_from path"@),
{
    reveal_strlit("__fish_fi_using_subcommand config; and __fish_seen_subcommand_from path");
}

proof fn lemma_guard_shape_5()
    ensures
        guard_shape("__fish_fi_using_subcommand config; and __fish_seen_subcommand_from edit"@),
{
    reveal_strlit("__fish_fi_using_subcommand config; and __fish_seen_subcommand_from edit");
}

proof fn lemma_guard_shape_6()
    ensures
        guard_shape("__fish_fi_using_subcommand config; and __fish_seen_subcommand_from help"@),
{
    reveal_strlit("__fish_fi_using_subcommand config; and __fish_seen_subcommand_from help");
}

proof fn lemma_guard_shape_7()
    ensures
        guard_shape("__fish_fi_using_subcommand help; and not __fish_seen_subcommand_from init new cull pr open list config sync completions help"@),
{
    reveal_strlit("__fish_fi_using_subcommand help; and not __fish_seen_subcommand_from init new cull pr open list config sync completions help");
}

proof fn lemma_guard_shape_8()
    ensures
        guard_shape("__fish_fi_using_subcommand help; and __fish_seen_subcommand_from config"@),
{
    reveal_strlit("__fish_fi_using_subcommand help; and __fish_seen_subcommand_from config");
}

proof fn lemma_fix_shape_1()
    ensures
        fix_shape("__fish_fi_config_needs_subcommand"@),
{
    reveal_strlit("__fish_fi_config_needs_subcommand");
}

proof fn lemma_fix_shape_2()
    ensures
        fix_shape("__fish_fi_using_config_subcommand validate"@),
{
    reveal_strlit("__fish_fi_using_config_subcommand validate");
}

proof fn lemma_fix_shape_3()
    ensures
        fix_shape("__fish_fi_using_config_subcommand show"@),
{
    reveal_strlit("__fish_fi_using_config_subcommand show");
}

proof fn lemma_fix_shape_4()
    ensures
        fix_shape("__fish_fi_using_config_subcommand path"@),
{
    reveal_strlit("__fish_fi_using_config_subcommand path");
}

proof fn lemma_fix_shape_5()
    ensures
        fix_shape("__fish_fi_using_config_subcommand edit"@),
{
    reveal_strlit("__fish_fi_using_config_subcommand edit");
}

proof fn lemma_fix_shape_6()
    ensures
        fix_shape("__fish_fi_using_config_subcommand help"@),
{
    reveal_strlit("__fish_fi_using_config_subcommand help");
}

proof fn lemma_fix_shape_7()
    ensures
        fix_shape("__fish_fi_help_needs_subcommand"@),
{
    reveal_strlit("__fish_fi_help_needs_subcommand");
}

proof fn lemma_fix_shape_8()
    ensures
        fix_shape("__fish_fi_using_help_subcommand config"@),
{
    reveal_strlit("__fish_fi_using_help_subcommand config");
}

/// The first `i` replacements applied to `s`.
spec fn apply_first(s: Seq<char>, i: int) -> Seq<char>
    decreases i,
{
    if i <= 0 {
        s
    } else {
        replace_all(apply_first(s, i - 1), fish_fixes()[i - 1].0, fish_fixes()[i - 1].1)
    }
}

/// Applying all replacements is applying the first `i`, then the rest.
proof fn lemma_split_fixes(s: Seq<char>, i: int)
    requires
        0 <= i <= 8,
    ensures
        apply_fixes(s, fish_fixes()) == apply_fixes(apply_first(s, i), fish_fixes().skip(i)),
    decreases i,
{
    let fx = fish_fixes();
    if i == 0 {
        assert(fx.skip(0) =~= fx);
    } else {
        lemma_split_fixes(s, i - 1);
        let t = fx.skip(i - 1);
        assert(t.len() > 0);
        assert(t[0] == fx[i - 1]);
        assert(t.skip(1) =~= fx.skip(i));
    }
}

/// Applying the replacements from the `i`-th on removes the `i`-th broken
/// condition for good.
proof fn lemma_fixes_from(s: Seq<char>, i: int, q: Seq<char>)
    requires
        0 <= i < 8,
        guard_shape(q),
        q == fish_fixes()[i].0,
        forall|j: int| 0 <= j < 8 ==> fix_shape(#[trigger] fish_fixes()[j].1),
        forall|j: int| 0 <= j < 8 ==> (#[trigger] fish_fixes()[j].0).len() > 0,
    ensures
        !contains_seq(apply_fixes(s, fish_fixes().skip(i)), q),
{
    let fx = fish_fixes();
    let t = fx.skip(i);
    assert(t[0] == fx[i]);
    assert(t.skip(1) =~= fx.skip(i + 1));
    lemma_guard_fix_apart(q, fx[i].1);
    lemma_replace_all_avoids(s, fx[i].0, fx[i].1, q);
    lemma_later_fixes(replace_all(s, fx[i].0, fx[i].1), i + 1, q);
}

/// The replacements from the `i`-th on, applied to text without the broken
/// condition `q`, do not bring it back.
proof fn lemma_later_fixes(s: Seq<char>, i: int, q: Seq<char>)
    requires
        0 <= i <= 8,
        guard_shape(q),
        !contains_seq(s, q),
        forall|j: int| 0 <= j < 8 ==> fix_shape(#[trigger] fish_fixes()[j].1),
        forall|j: int| 0 <= j < 8 ==> (#[trigger] fish_fixes()[j].0).len() > 0,
    ensures
        !contains_seq(apply_fixes(s, fish_fixes().skip(i)), q),
    decreases 8 - i,
{
    let fx = fish_fixes();
    if i == 8 {
        assert(fx.skip(8).len() == 0);
    } else {
        let t = fx.skip(i);
        assert(t[0] == fx[i]);
        assert(t.skip(1) =~= fx.skip(i + 1));
        let s1 = replace_all(s, fx[i].0, fx[i].1);
        lemma_guard_fix_apart(q, fx[i].1);
        lemma_replace_all_avoids(s, fx[i].0, fx[i].1, q);
        lemma_later_fixes(s1, i + 1, q);
    }
}

/// None of the broken nested-subcommand conditions is left in the fixed
/// script, whatever the input: each is replaced, and no replacement brings
/// one back.
pub proof fn lemma_no_broken_guard_left(raw: Seq<char>)
    ensures
        !contains_seq(fixed_fish_script(raw), "__fish_fi_using_subcommand config; and not __fish_seen_subcommand_from validate show path edit help"@),
        !contains_seq(fixed_fish_script(raw), "__fish_fi_using_subcommand config; and __fish_seen_subcommand_from validate"@),
        !contains_seq(fixed_fish_script(raw), "__fish_fi_using_subcommand config; and __fish_seen_subcommand_from show"@),
        !contains_seq(fixed_fish_script(raw), "__fish_fi_using_subcommand config; and __fish_seen_subcommand_from path"@),
        !contains_seq(fixed_fish_script(raw), "__fish_fi_using_subcommand config; and __fish_seen_subcommand_from edit"@),
        !contains_seq(fixed_fish_script(raw), "__fish_fi_using_subcommand config; and __fish_seen_subcommand_from help"@),
        !contains_seq(fixed_fish_script(raw), "__fish_fi_using_subcommand help; and not __fish_seen_subcommand_from init new cull pr open list config sync completions help"@),
        !contains_seq(fixed_fish_script(raw), "__fish_fi_using_subcommand help; and __fish_seen_subcommand_from config"@),
{
    let fx = fish_fixes();
    lemma_guard_shape_1();
    lemma_fix_shape_1();
    lemma_guard_shape_2();
    lemma_fix_shape_2();
    lemma_guard_shape_3();
    lemma_fix_shape_3();
    lemma_guard_shape_4();
    lemma_fix_shape_4();
    lemma_guard_shape_5();
    lemma_fix_shape_5();
    lemma_guard_shape_6();
    lemma_fix_shape_6();
    lemma_guard_shape_7();
    lemma_fix_shape_7();
    lemma_guard_shape_8();
    lemma_fix_shape_8();
    assert(forall|j: int| 0 <= j < 8 ==> fix_shape(#[trigger] fx[j].1));
    assert(forall|j: int| 0 <= j < 8 ==> guard_shape(#[trigger] fx[j].0));
    assert(fx.skip(0) =~= fx);
    let w = with_helpers(raw);
    lemma_split_fixes(w, 0);
    lemma_fixes_from(apply_first(w, 0), 0, fx[0].0);
    lemma_split_fixes(w, 1);
    lemma_fixes_from(apply_first(w, 1), 1, fx[1].0);
    lemma_split_fixes(w, 2);
    lemma_fixes_from(apply_first(w, 2), 2, fx[2].0);
    lemma_split_fixes(w, 3);
    lemma_fixes_from(apply_first(w, 3), 3, fx[3].0);
    lemma_split_fixes(w, 4);
    lemma_fixes_from(apply_first(w, 4), 4, fx[4].0);
    lemma_split_fixes(w, 5);
    lemma_fixes_from(apply_first(w, 5), 5, fx[5].0);
    lemma_split_fixes(w, 6);
    lemma_fixes_from(apply_first(w, 6), 6, fx[6].0);
    lemma_split_fixes(w, 7);
    lemma_fixes_from(apply_first(w, 7), 7, fx[7].0);
}

} // verus!
