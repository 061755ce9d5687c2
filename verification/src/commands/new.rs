//! The logic of `fi new`: the slug of a ticket's summary and where a new
//! branch's checkout goes.
use vstd::prelude::*;
use crate::config::{join_path, path_join, RepoConfig, RepoType};
use crate::text::{
    chars_of, is_alphanumeric, spec_is_alphanumeric, spec_to_lowercase, string_of,
    lemma_strip_end_last, strip_end, strip_end_index, to_lowercase, to_owned_string, CharClass,
};

verus! {

/// The slug built so far from `acc` after reading `s`: each alphanumeric
/// character is kept, and each run of other characters becomes one `-`,
/// except at the start (`prev` says whether a `-` was just written or
/// nothing has been written yet).
pub open spec fn kebab_step(s: Seq<char>, acc: Seq<char>, prev: bool) -> Seq<char>
    decreases s.len(),
{
    if s.len() == 0 {
        acc
    } else if spec_is_alphanumeric(s[0]) {
        kebab_step(s.skip(1), acc.push(s[0]), false)
    } else if !prev {
        kebab_step(s.skip(1), acc.push('-'), true)
    } else {
        kebab_step(s.skip(1), acc, prev)
    }
}

/// The slug of an already lower-cased text, without trailing `-`.
pub open spec fn kebab_of(lower: Seq<char>) -> Seq<char> {
    strip_end(kebab_step(lower, Seq::empty(), true), CharClass::Dash)
}

/// A well-formed slug: alphanumeric characters and `-` only, with no `-`
/// at either end and no two `-` in a row.
pub open spec fn is_slug(s: Seq<char>) -> bool {
    &&& forall|i: int| 0 <= i < s.len() ==> spec_is_alphanumeric(#[trigger] s[i]) || s[i] == '-'
    &&& s.len() > 0 ==> s[0] != '-' && s.last() != '-'
    &&& forall|i: int, j: int|
        0 <= i && j == i + 1 && j < s.len() ==> !(#[trigger] s[i] == '-' && #[trigger] s[j] == '-')
}

/// What the slug built so far looks like: only alphanumeric characters and
/// `-`, no leading `-`, no two `-` in a row, and `prev` set exactly when it
/// is empty or ends in `-`.
pub open spec fn slug_prefix(acc: Seq<char>, prev: bool) -> bool {
    &&& forall|i: int| 0 <= i < acc.len() ==> spec_is_alphanumeric(#[trigger] acc[i]) || acc[i] == '-'
    &&& acc.len() > 0 ==> acc[0] != '-'
    &&& forall|i: int, j: int|
        0 <= i && j == i + 1 && j < acc.len() ==> !(#[trigger] acc[i] == '-' && #[trigger] acc[j] == '-')
    &&& prev == (acc.len() == 0 || acc.last() == '-')
}

/// `s` without its `-` characters.
pub open spec fn dashless(s: Seq<char>) -> Seq<char>
    decreases s.len(),
{
    if s.len() == 0 {
        Seq::empty()
    } else {
        dashless(s.drop_last()) + if s.last() == '-' {
            Seq::empty()
        } else {
            seq![s.last()]
        }
    }
}

/// The alphanumeric characters of `s` other than `-`, in order (`-` is not
/// alphanumeric, so these are all of them).
pub open spec fn word_chars(s: Seq<char>) -> Seq<char>
    decreases s.len(),
{
    if s.len() == 0 {
        Seq::empty()
    } else {
        (if spec_is_alphanumeric(s[0]) && s[0] != '-' {
            seq![s[0]]
        } else {
            Seq::empty()
        }) + word_chars(s.skip(1))
    }
}

/// Building the slug keeps every alphanumeric character, in order: the
/// built text without its `-` is the start without its `-`, then the
/// alphanumeric characters read.
proof fn lemma_kebab_step_keeps(s: Seq<char>, acc: Seq<char>, prev: bool)
    ensures
        dashless(kebab_step(s, acc, prev)) == dashless(acc) + word_chars(s),
    decreases s.len(),
{
    if s.len() == 0 {
        assert(dashless(acc) + word_chars(s) =~= dashless(acc));
    } else if spec_is_alphanumeric(s[0]) {
        lemma_kebab_step_keeps(s.skip(1), acc.push(s[0]), false);
        assert(acc.push(s[0]).drop_last() =~= acc);
        if s[0] == '-' {
            assert(dashless(acc.push(s[0])) == dashless(acc));
            assert(word_chars(s) =~= word_chars(s.skip(1)));
        } else {
            assert(dashless(acc.push(s[0])) == dashless(acc) + seq![s[0]]);
            assert(dashless(acc) + seq![s[0]] + word_chars(s.skip(1)) =~= dashless(acc) + word_chars(s));
        }
    } else if !prev {
        lemma_kebab_step_keeps(s.skip(1), acc.push('-'), true);
        assert(acc.push('-').drop_last() =~= acc);
        assert(dashless(acc.push('-')) =~= dashless(acc));
        assert(word_chars(s) =~= word_chars(s.skip(1)));
    } else {
        lemma_kebab_step_keeps(s.skip(1), acc, prev);
        assert(word_chars(s) =~= word_chars(s.skip(1)));
    }
}

/// Dropping trailing `-` leaves the other characters alone.
proof fn lemma_strip_dashes_keeps(s: Seq<char>)
    ensures
        dashless(strip_end(s, CharClass::Dash)) == dashless(s),
    decreases s.len(),
{
    if s.len() > 0 && s.last() == '-' {
        lemma_strip_dashes_keeps(s.drop_last());
    }
}

/// No alphanumeric character is lost or reordered: the slug without its `-`
/// is exactly the alphanumeric characters of the lower-cased text, in order.
pub proof fn lemma_slug_keeps_words(lower: Seq<char>)
    ensures
        dashless(kebab_of(lower)) == word_chars(lower),
{
    lemma_kebab_step_keeps(lower, Seq::empty(), true);
    lemma_strip_dashes_keeps(kebab_step(lower, Seq::empty(), true));
    assert(dashless(Seq::<char>::empty()) + word_chars(lower) =~= word_chars(lower));
}

/// The slug of an already lower-cased text (see [`kebab_of`]); it is
/// well-formed.
pub fn kebab_from_lowercase(lower: &str) -> (r: String)
    ensures
        r@ == kebab_of(lower@),
        is_slug(r@),
        dashless(r@) == word_chars(lower@),
{
    proof {
        lemma_slug_keeps_words(lower@);
    }
    let v = chars_of(lower);
    let mut acc: Vec<char> = Vec::new();
    let mut prev = true;
    let mut i: usize = 0;
    assert(v@.skip(0) =~= v@);
    while i < v.len()
        invariant
            i <= v@.len(),
            kebab_step(v@, Seq::empty(), true) == kebab_step(v@.skip(i as int), acc@, prev),
            slug_prefix(acc@, prev),
        decreases v.len() - i,
    {
        let c = v[i];
        assert(v@.skip(i as int)[0] == c);
        assert(v@.skip(i as int).skip(1) =~= v@.skip(i + 1));
        if is_alphanumeric(c) {
            acc.push(c);
            prev = false;
        } else if !prev {
            acc.push('-');
            prev = true;
        }
        i += 1;
    }
    let end = strip_end_index(&acc, 0, acc.len(), CharClass::Dash);
    assert(acc@.subrange(0, acc@.len() as int) =~= acc@);
    proof {
        lemma_strip_end_last(acc@, CharClass::Dash);
        let t = acc@.subrange(0, end as int);
        assert forall|i: int, j: int|
            0 <= i && j == i + 1 && j < t.len() implies !(#[trigger] t[i] == '-' && #[trigger] t[j]
            == '-') by {
            assert(t[i] == acc@[i] && t[j] == acc@[j]);
        }
        assert(forall|i: int| 0 <= i < t.len() ==> t[i] == acc@[i]);
    }
    string_of(&acc, 0, end)
}

/// Turns a ticket summary into a branch slug: lower-cased, alphanumeric
/// runs joined by single `-`, no `-` at either end.
pub fn to_kebab_case(s: &str) -> (r: String)
    ensures
        r@ == kebab_of(spec_to_lowercase(s@)),
        is_slug(r@),
        dashless(r@) == word_chars(spec_to_lowercase(s@)),
{
    let lower = to_lowercase(s);
    kebab_from_lowercase(lower.as_str())
}

/// Where a new branch is checked out: a worktree under the feature path
/// (`work` when not set) for worktree repositories, the root otherwise.
pub open spec fn new_branch_location(repo: RepoConfig, root: Seq<char>, branch: Seq<char>) -> Seq<char> {
    match repo.repo_type {
        RepoType::Worktree => path_join(
            path_join(
                root,
                match repo.feature_path {
                    Some(f) => f@,
                    None => "work"@,
                },
            ),
            branch,
        ),
        RepoType::Standard => root,
    }
}

/// Where a new branch named `branch_name` is checked out (see [`new_branch_location`]).
pub fn new_branch_path(repo: &RepoConfig, root: &str, branch_name: &str) -> (r: String)
    ensures
        r@ == new_branch_location(*repo, root@, branch_name@),
{
    match repo.repo_type {
        RepoType::Worktree => {
            let base = match &repo.feature_path {
                Some(f) => join_path(root, f.as_str()),
                None => join_path(root, "work"),
            };
            join_path(base.as_str(), branch_name)
        },
        RepoType::Standard => to_owned_string(root),
    }
}

} // verus!
