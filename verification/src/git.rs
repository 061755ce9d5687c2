//! Reading what git prints: the worktree list, branch lists, merge-tree
//! output; and the refs git is asked about.
use vstd::prelude::*;
use crate::config::{list_contains, seq_has};
use crate::text::{
    chars_of, contains_seq, find_seq, find_seq_from, first_index, is_first_index,
    lemma_find_seq_props, lemma_first_index_is, lemma_first_index_none, lines_of, lines_vec,
    slice_of, starts_with_seq, string_of_all, to_owned_string,
    trim, trim_vec, vec_eq, vec_views,
};

verus! {

/// A worktree and the branch checked out in it.
#[derive(Clone, Debug)]
pub struct WorktreeInfo {
    pub path: String,
    pub branch: String,
}

impl WorktreeInfo {
    /// A copy of this entry.
    pub fn duplicate(&self) -> (r: WorktreeInfo)
        ensures
            r.path@ == self.path@,
            r.branch@ == self.branch@,
    {
        WorktreeInfo { path: self.path.clone(), branch: self.branch.clone() }
    }
}

/// The path and branch of each entry.
pub open spec fn wt_views(s: Seq<WorktreeInfo>) -> Seq<(Seq<char>, Seq<char>)> {
    s.map_values(|w: WorktreeInfo| (w.path@, w.branch@))
}

/// The elements of `s` that satisfy `p`, in order.
pub open spec fn keep<T>(s: Seq<T>, p: spec_fn(T) -> bool) -> Seq<T>
    decreases s.len(),
{
    if s.len() == 0 {
        Seq::empty()
    } else {
        keep(s.drop_last(), p) + if p(s.last()) {
            seq![s.last()]
        } else {
            Seq::empty()
        }
    }
}

// ── `git worktree list --porcelain` ─────────────────────────────────────────

/// The pieces of `s` between the occurrences of `p` (`str::split` with a
/// non-empty pattern).
pub open spec fn split_seq(s: Seq<char>, p: Seq<char>) -> Seq<Seq<char>>
    decreases s.len(),
{
    if p.len() == 0 {
        seq![s]
    } else {
        match find_seq(s, p) {
            Some(i) => {
                proof {
                    lemma_find_seq_props(s, p);
                }
                seq![s.take(i)] + split_seq(s.skip(i + p.len()), p)
            },
            None => seq![s],
        }
    }
}

/// The value after `pre` on the last of `lines` that starts with `pre`.
pub open spec fn last_prefixed(lines: Seq<Seq<char>>, pre: Seq<char>) -> Option<Seq<char>>
    decreases lines.len(),
{
    if lines.len() == 0 {
        None
    } else if crate::text::starts_with_seq(lines.last(), pre) {
        Some(lines.last().skip(pre.len() as int))
    } else {
        last_prefixed(lines.drop_last(), pre)
    }
}

/// The entry a block of the porcelain list describes: the path after
/// `worktree ` and the branch after `branch refs/heads/`; none for an empty
/// block or a block without both (a detached HEAD has no branch line).
pub open spec fn block_entry(block: Seq<char>) -> Option<(Seq<char>, Seq<char>)> {
    let b = trim(block);
    if b.len() == 0 {
        None
    } else {
        let ls = lines_of(b);
        match (last_prefixed(ls, "worktree "@), last_prefixed(ls, "branch refs/heads/"@)) {
            (Some(p), Some(br)) => Some((p, br)),
            _ => None,
        }
    }
}

/// The entries of the blocks, in order, skipping blocks with none.
pub open spec fn worktree_entries(blocks: Seq<Seq<char>>) -> Seq<(Seq<char>, Seq<char>)>
    decreases blocks.len(),
{
    if blocks.len() == 0 {
        Seq::empty()
    } else {
        worktree_entries(blocks.drop_last()) + match block_entry(blocks.last()) {
            Some(e) => seq![e],
            None => Seq::empty(),
        }
    }
}

/// The worktrees that `git worktree list --porcelain` prints: its
/// blank-line-separated blocks, read one by one.
pub open spec fn worktree_list_spec(output: Seq<char>) -> Seq<(Seq<char>, Seq<char>)> {
    worktree_entries(split_seq(output, seq!['\n', '\n']))
}

/// The pieces of `v` between the occurrences of `p`.
fn split_seq_vec(v: &Vec<char>, p: &Vec<char>) -> (r: Vec<Vec<char>>)
    requires
        p@.len() > 0,
    ensures
        vec_views(r@) == split_seq(v@, p@),
{
    let mut r: Vec<Vec<char>> = Vec::new();
    let mut pos: usize = 0;
    let n = v.len();
    assert(v@.skip(0) =~= v@);
    loop
        invariant
            p@.len() > 0,
            n == v@.len(),
            pos <= v@.len(),
            split_seq(v@, p@) == vec_views(r@) + split_seq(v@.skip(pos as int), p@),
        decreases v@.len() - pos,
    {
        let ghost rest = v@.skip(pos as int);
        match find_seq_from(v, p, pos) {
            Some(i) => {
                proof {
                    lemma_find_seq_props(rest, p@);
                    assert(i + p@.len() <= rest.len());
                    assert(rest.take(i as int) =~= v@.subrange(pos as int, pos + i));
                    assert(rest.skip(i + p@.len()) =~= v@.skip(pos + i + p@.len()));
                }
                let piece = slice_of(v, pos, pos + i);
                let ghost before = r@;
                let ghost pv = piece@;
                r.push(piece);
                assert(vec_views(r@) =~= vec_views(before).push(pv));
                pos = pos + i + p.len();
            },
            None => {
                let piece = slice_of(v, pos, v.len());
                assert(piece@ =~= rest);
                let ghost before = r@;
                r.push(piece);
                assert(vec_views(r@) =~= vec_views(before).push(rest));
                return r;
            },
        }
    }
}

/// The value after `pre` on the last line that starts with it.
fn last_prefixed_exec(lines: &Vec<Vec<char>>, pre: &Vec<char>) -> (r: Option<Vec<char>>)
    ensures
        match r {
            Some(v) => last_prefixed(vec_views(lines@), pre@) == Some(v@),
            None => last_prefixed(vec_views(lines@), pre@) is None,
        },
{
    let mut i = lines.len();
    assert(vec_views(lines@).take(i as int) =~= vec_views(lines@));
    while i > 0
        invariant
            i <= lines@.len(),
            last_prefixed(vec_views(lines@), pre@) == last_prefixed(
                vec_views(lines@).take(i as int),
                pre@,
            ),
        decreases i,
    {
        let l = &lines[i - 1];
        let ghost ls = vec_views(lines@).take(i as int);
        assert(ls.last() == l@);
        assert(ls.drop_last() =~= vec_views(lines@).take(i - 1));
        if pre.len() <= l.len() && vec_eq(&slice_of(l, 0, pre.len()), pre) {
            assert(l@.take(pre@.len() as int) =~= l@.subrange(0, pre@.len() as int));
            let v = slice_of(l, pre.len(), l.len());
            assert(v@ =~= l@.skip(pre@.len() as int));
            return Some(v);
        }
        proof {
            if pre@.len() <= l@.len() {
                assert(l@.take(pre@.len() as int) =~= l@.subrange(0, pre@.len() as int));
            }
        }
        i -= 1;
    }
    assert(vec_views(lines@).take(0) =~= Seq::<Seq<char>>::empty());
    None
}

/// The entry a block describes (see [`block_entry`]).
fn block_entry_exec(block: &Vec<char>) -> (r: Option<WorktreeInfo>)
    ensures
        match r {
            Some(w) => block_entry(block@) == Some((w.path@, w.branch@)),
            None => block_entry(block@) is None,
        },
{
    let b = trim_vec(block);
    if b.len() == 0 {
        return None;
    }
    let ls = lines_vec(&b);
    let path = last_prefixed_exec(&ls, &chars_of("worktree "));
    let branch = last_prefixed_exec(&ls, &chars_of("branch refs/heads/"));
    match (path, branch) {
        (Some(p), Some(br)) => Some(WorktreeInfo { path: string_of_all(&p), branch: string_of_all(&br) }),
        _ => None,
    }
}

/// Parses the output of `git worktree list --porcelain` into the worktrees
/// that have a branch checked out (detached HEADs are skipped).
pub fn parse_worktree_list(output: &str) -> (r: Vec<WorktreeInfo>)
    ensures
        wt_views(r@) == worktree_list_spec(output@),
{
    let v = chars_of(output);
    let mut sep: Vec<char> = Vec::new();
    sep.push('\n');
    sep.push('\n');
    assert(sep@ =~= seq!['\n', '\n']);
    let blocks = split_seq_vec(&v, &sep);
    let ghost bs = vec_views(blocks@);
    let mut r: Vec<WorktreeInfo> = Vec::new();
    let mut i: usize = 0;
    while i < blocks.len()
        invariant
            i <= blocks@.len(),
            bs == vec_views(blocks@),
            wt_views(r@) == worktree_entries(bs.take(i as int)),
        decreases blocks.len() - i,
    {
        assert(bs.take(i + 1).drop_last() =~= bs.take(i as int));
        assert(bs.take(i + 1).last() == blocks@[i as int]@);
        let ghost before = r@;
        match block_entry_exec(&blocks[i]) {
            Some(w) => {
                let ghost wv = (w.path@, w.branch@);
                r.push(w);
                assert(wt_views(r@) =~= wt_views(before) + seq![wv]);
            },
            None => {
                assert(wt_views(r@) =~= wt_views(before) + Seq::<(Seq<char>, Seq<char>)>::empty());
            },
        }
        i += 1;
    }
    assert(bs.take(blocks@.len() as int) =~= bs);
    r
}

/// The path of the first worktree that has `branch` checked out.
pub open spec fn worktree_of(worktrees: Seq<WorktreeInfo>, branch: Seq<char>) -> Option<Seq<char>> {
    match first_index(worktrees, |w: WorktreeInfo| w.branch@ == branch) {
        Some(i) => Some(worktrees[i].path@),
        None => None,
    }
}

/// Returns the path of the worktree that has `branch` checked out, if any,
/// among the worktrees `git worktree list` reported.
pub fn find_worktree_for_branch(worktrees: &Vec<WorktreeInfo>, branch: &str) -> (r: Option<String>)
    ensures
        match r {
            Some(p) => worktree_of(worktrees@, branch@) == Some(p@),
            None => worktree_of(worktrees@, branch@) is None,
        },
{
    let ghost pred = |w: WorktreeInfo| w.branch@ == branch@;
    let mut i: usize = 0;
    while i < worktrees.len()
        invariant
            i <= worktrees@.len(),
            pred == (|w: WorktreeInfo| w.branch@ == branch@),
            forall|j: int| 0 <= j < i ==> !pred(worktrees@[j]),
        decreases worktrees.len() - i,
    {
        if crate::text::str_eq(worktrees[i].branch.as_str(), branch) {
            proof {
                assert(is_first_index(worktrees@, pred, i as int));
                lemma_first_index_is(worktrees@, pred, i as int);
            }
            return Some(worktrees[i].path.clone());
        }
        i += 1;
    }
    proof {
        lemma_first_index_none(worktrees@, pred);
    }
    None
}

/// The worktrees whose branch is not one of the persistent branches, in order.
pub open spec fn unprotected(worktrees: Seq<WorktreeInfo>, persistent: Seq<String>) -> Seq<
    (Seq<char>, Seq<char>),
> {
    keep(wt_views(worktrees), |w: (Seq<char>, Seq<char>)| !seq_has(persistent, w.1))
}

/// The worktrees whose branch is not one of `persistent`, in order.
pub fn unprotected_worktrees(worktrees: &Vec<WorktreeInfo>, persistent: &Vec<String>) -> (r: Vec<
    WorktreeInfo,
>)
    ensures
        wt_views(r@) == unprotected(worktrees@, persistent@),
{
    let ghost p = |w: (Seq<char>, Seq<char>)| !seq_has(persistent@, w.1);
    let ghost all = wt_views(worktrees@);
    let mut r: Vec<WorktreeInfo> = Vec::new();
    let mut i: usize = 0;
    while i < worktrees.len()
        invariant
            i <= worktrees@.len(),
            all == wt_views(worktrees@),
            p == (|w: (Seq<char>, Seq<char>)| !seq_has(persistent@, w.1)),
            wt_views(r@) == keep(all.take(i as int), p),
        decreases worktrees.len() - i,
    {
        assert(all.take(i + 1).drop_last() =~= all.take(i as int));
        assert(all.take(i + 1).last() == all[i as int]);
        let ghost before = r@;
        let w = &worktrees[i];
        if !list_contains(persistent, w.branch.as_str()) {
            let d = w.duplicate();
            r.push(d);
            assert(wt_views(r@) =~= wt_views(before) + seq![all[i as int]]);
        } else {
            assert(wt_views(r@) =~= wt_views(before) + Seq::<(Seq<char>, Seq<char>)>::empty());
        }
        i += 1;
    }
    assert(all.take(worktrees@.len() as int) =~= all);
    r
}

// ── Other git output ────────────────────────────────────────────────────────

/// The trimmed, non-empty lines of `out`.
pub open spec fn listed_names(out: Seq<char>) -> Seq<Seq<char>> {
    keep(lines_of(out).map_values(|l: Seq<char>| trim(l)), |l: Seq<char>| l.len() > 0)
}

/// The branch names in the output of `git branch --list --format=%(refname:short)`.
pub fn branch_names_from_output(out: &str) -> (r: Vec<String>)
    ensures
        crate::text::string_views(r@) == listed_names(out@),
{
    let v = chars_of(out);
    let ls = lines_vec(&v);
    let ghost trimmed = lines_of(out@).map_values(|l: Seq<char>| trim(l));
    let ghost p = |l: Seq<char>| l.len() > 0;
    let mut r: Vec<String> = Vec::new();
    let mut i: usize = 0;
    while i < ls.len()
        invariant
            i <= ls@.len(),
            vec_views(ls@) == lines_of(out@),
            trimmed == lines_of(out@).map_values(|l: Seq<char>| trim(l)),
            p == (|l: Seq<char>| l.len() > 0),
            crate::text::string_views(r@) == keep(trimmed.take(i as int), p),
        decreases ls.len() - i,
    {
        assert(trimmed.take(i + 1).drop_last() =~= trimmed.take(i as int));
        assert(trimmed.take(i + 1).last() == trim(ls@[i as int]@));
        let ghost before = r@;
        let t = trim_vec(&ls[i]);
        if t.len() > 0 {
            let s = string_of_all(&t);
            r.push(s);
            assert(crate::text::string_views(r@) =~= crate::text::string_views(before) + seq![t@]);
        } else {
            assert(crate::text::string_views(r@) =~= crate::text::string_views(before)
                + Seq::<Seq<char>>::empty());
        }
        i += 1;
    }
    assert(trimmed.take(ls@.len() as int) =~= trimmed);
    r
}

/// `<<<<<<<`, the marker of a conflicting hunk.
pub open spec fn conflict_marker() -> Seq<char> {
    seq!['<', '<', '<', '<', '<', '<', '<']
}

/// Whether the output of the three-argument `git merge-tree` shows a conflict.
pub fn has_conflict_markers(out: &str) -> (r: bool)
    ensures
        r == contains_seq(out@, conflict_marker()),
{
    let v = chars_of(out);
    let mut m: Vec<char> = Vec::new();
    let mut k: usize = 0;
    while k < 7
        invariant
            k <= 7,
            m@ == Seq::new(k as nat, |i: int| '<'),
        decreases 7 - k,
    {
        m.push('<');
        k += 1;
        assert(m@ =~= Seq::new(k as nat, |i: int| '<'));
    }
    assert(m@ =~= conflict_marker());
    assert(v@.skip(0) =~= v@);
    let found = find_seq_from(&v, &m, 0);
    proof {
        lemma_find_seq_props(v@, m@);
    }
    found.is_some()
}

/// The remote-tracking ref `origin/<branch>`.
pub fn origin_ref(branch: &str) -> (r: String)
    ensures
        r@ == "origin/"@ + branch@,
{
    let mut r = to_owned_string("origin/");
    r.append(branch);
    r
}

/// The branch `git branch --show-current` printed: its output trimmed, or
/// `None` when that is empty (a detached HEAD).
pub fn shown_branch(out: &str) -> (r: Option<String>)
    ensures
        match r {
            Some(b) => trim(out@).len() > 0 && b@ == trim(out@),
            None => trim(out@).len() == 0,
        },
{
    let t = trim_vec(&chars_of(out));
    if t.len() == 0 {
        None
    } else {
        Some(string_of_all(&t))
    }
}

/// How a detached HEAD is shown: `(detached) ` and the short commit that
/// `git rev-parse --short HEAD` printed, trimmed.
pub fn detached_label(sha_out: &str) -> (r: String)
    ensures
        r@ == "(detached) "@ + trim(sha_out@),
{
    let t = trim_vec(&chars_of(sha_out));
    let mut r = to_owned_string("(detached) ");
    let sha = string_of_all(&t);
    r.append(sha.as_str());
    r
}

} // verus!
