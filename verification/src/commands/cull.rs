//! The logic of `fi cull`: how safe a worktree is to delete, read from what
//! git prints, and the order worktrees are offered in.
use vstd::prelude::*;
use crate::order::{before, is_stable_order, stable_order, SortKey};
use crate::text::{
    chars_of, lines_of, lines_vec, slice_of, trim, trim_vec, vec_eq, vec_views,
};

verus! {

/// How safe a worktree is to delete.
#[derive(Clone, Copy, PartialEq, Eq, Structural, Debug)]
pub enum WtStatus {
    /// Uncommitted changes present: data loss risk.
    Dirty,
    /// Committed but not pushed, or no remote branch: data loss if the remote is gone.
    Unpushed,
    /// Pushed to the remote but not merged.
    Clean,
    /// Listed by `git branch --merged <default>`: fully safe.
    Merged,
}

/// The position of a status in the list: dirty first, merged last.
pub open spec fn status_rank(s: WtStatus) -> u64 {
    match s {
        WtStatus::Dirty => 0,
        WtStatus::Unpushed => 1,
        WtStatus::Clean => 2,
        WtStatus::Merged => 3,
    }
}

impl WtStatus {
    /// The status's name as shown next to a worktree.
    pub fn label(&self) -> (r: &str)
        ensures
            r@ == match *self {
                WtStatus::Dirty => "dirty"@,
                WtStatus::Unpushed => "unpushed"@,
                WtStatus::Clean => "clean"@,
                WtStatus::Merged => "merged"@,
            },
    {
        match self {
            WtStatus::Dirty => "dirty",
            WtStatus::Unpushed => "unpushed",
            WtStatus::Clean => "clean",
            WtStatus::Merged => "merged",
        }
    }

    /// The position of the status in the list: dirty first, merged last.
    pub fn rank(&self) -> (r: u64)
        ensures
            r == status_rank(*self),
    {
        match self {
            WtStatus::Dirty => 0,
            WtStatus::Unpushed => 1,
            WtStatus::Clean => 2,
            WtStatus::Merged => 3,
        }
    }
}

/// The status of a worktree from the three checks, in the order they are
/// made: uncommitted changes, then unpushed commits, then whether the
/// branch is merged into the default branch.
pub fn classify_worktree(dirty: bool, unpushed: bool, merged: bool) -> (r: WtStatus)
    ensures
        r == if dirty {
            WtStatus::Dirty
        } else if unpushed {
            WtStatus::Unpushed
        } else if merged {
            WtStatus::Merged
        } else {
            WtStatus::Clean
        },
{
    if dirty {
        WtStatus::Dirty
    } else if unpushed {
        WtStatus::Unpushed
    } else if merged {
        WtStatus::Merged
    } else {
        WtStatus::Clean
    }
}

/// The value of a decimal digit.
pub open spec fn digit_value(c: char) -> int {
    (c as int) - ('0' as int)
}

/// The value of a string of decimal digits.
pub open spec fn digits_value(d: Seq<char>) -> int
    decreases d.len(),
{
    if d.len() == 0 {
        0
    } else {
        digits_value(d.drop_last()) * 10 + digit_value(d.last())
    }
}

/// Every character is a decimal digit.
pub open spec fn all_digits(d: Seq<char>) -> bool {
    forall|i: int| 0 <= i < d.len() ==> '0' <= d[i] && d[i] <= '9'
}

/// What `str::parse::<u32>` accepts: an optional `+`, then one or more
/// digits whose value fits in a `u32`; the digits it reads.
pub open spec fn u32_digits(s: Seq<char>) -> Seq<char> {
    if s.len() > 0 && s[0] == '+' {
        s.skip(1)
    } else {
        s
    }
}

/// `str::parse::<u32>` succeeds on `s`.
pub open spec fn parses_as_u32(s: Seq<char>) -> bool {
    let d = u32_digits(s);
    d.len() > 0 && all_digits(d) && digits_value(d) <= u32::MAX
}

/// A count printed by `git rev-list --count` is positive: once trimmed it
/// parses as a `u32` (a failed parse counts as 0) greater than 0.
pub open spec fn count_positive(out: Seq<char>) -> bool {
    parses_as_u32(trim(out)) && digits_value(u32_digits(trim(out))) > 0
}

/// Digits never decrease in value as more are appended.
proof fn lemma_digits_value_grows(d: Seq<char>, k: int)
    requires
        0 <= k <= d.len(),
        all_digits(d),
    ensures
        digits_value(d.take(k)) <= digits_value(d),
        0 <= digits_value(d.take(k)),
    decreases d.len() - k,
{
    if k < d.len() {
        lemma_digits_value_grows(d, k + 1);
        assert(d.take(k + 1).drop_last() =~= d.take(k));
    } else {
        assert(d.take(k) =~= d);
    }
    lemma_digits_nonneg(d.take(k));
}

/// Digits have a value of at least 0.
proof fn lemma_digits_nonneg(d: Seq<char>)
    requires
        all_digits(d),
    ensures
        0 <= digits_value(d),
    decreases d.len(),
{
    if d.len() > 0 {
        lemma_digits_nonneg(d.drop_last());
    }
}

/// Whether the output of `git rev-list --count <remote>..HEAD` reports
/// commits not on the remote (see [`count_positive`]).
pub fn count_is_positive(out: &str) -> (r: bool)
    ensures
        r == count_positive(out@),
{
    let v = chars_of(out);
    let t = trim_vec(&v);
    let start: usize = if t.len() > 0 && t[0] == '+' { 1 } else { 0 };
    let ghost d = u32_digits(t@);
    assert(d =~= t@.skip(start as int));
    if start == t.len() {
        return false;
    }
    let mut value: u64 = 0;
    let mut i = start;
    while i < t.len()
        invariant
            start <= i <= t@.len(),
            d == t@.skip(start as int),
            d == u32_digits(t@),
            t@ == trim(out@),
            all_digits(d.take(i - start)),
            value == digits_value(d.take(i - start)),
            value <= u32::MAX,
        decreases t.len() - i,
    {
        let c = t[i];
        if !('0' <= c && c <= '9') {
            assert(d[i - start] == c);
            assert(!all_digits(d));
            return false;
        }
        let dv = (c as u64) - ('0' as u64);
        assert(d.take(i - start + 1).drop_last() =~= d.take(i - start));
        assert(d.take(i - start + 1).last() == c);
        let next = value * 10 + dv;
        assert(digit_value(c) == dv);
        assert(digits_value(d.take(i - start + 1)) == next);
        assert(all_digits(d.take(i - start + 1)));
        if next > 0xffff_ffffu64 {
            proof {
                if all_digits(d) {
                    lemma_digits_value_grows(d, i - start + 1);
                    assert(digits_value(d) > u32::MAX);
                }
                assert(!parses_as_u32(t@));
            }
            return false;
        }
        value = next;
        i += 1;
    }
    assert(d.take(i - start) =~= d);
    value > 0
}

/// The branch a line of `git branch --merged` names: the line trimmed and
/// without the marker git puts before the current branch (`* `) or a branch
/// checked out in another worktree (`+ `).
pub open spec fn listed_branch(line: Seq<char>) -> Seq<char> {
    let t = trim(line);
    if t.len() >= 2 && (t[0] == '*' || t[0] == '+') && t[1] == ' ' {
        t.skip(2)
    } else {
        t
    }
}

/// Some line of the output of `git branch --merged` names `branch`.
pub open spec fn lists_branch(out: Seq<char>, branch: Seq<char>) -> bool {
    exists|i: int| 0 <= i < lines_of(out).len() && listed_branch(lines_of(out)[i]) == branch
}

/// Whether the output of `git branch --merged <default>` lists `branch`.
pub fn merged_list_has(out: &str, branch: &str) -> (r: bool)
    ensures
        r == lists_branch(out@, branch@),
{
    let v = chars_of(out);
    let b = chars_of(branch);
    let ls = lines_vec(&v);
    let mut i: usize = 0;
    while i < ls.len()
        invariant
            i <= ls@.len(),
            vec_views(ls@) == lines_of(out@),
            b@ == branch@,
            forall|j: int| 0 <= j < i ==> listed_branch(lines_of(out@)[j]) != branch@,
        decreases ls.len() - i,
    {
        let t = trim_vec(&ls[i]);
        assert(t@ == trim(lines_of(out@)[i as int]));
        let k: usize = if t.len() >= 2 && (t[0] == '*' || t[0] == '+') && t[1] == ' ' {
            2
        } else {
            0
        };
        let rest = slice_of(&t, k, t.len());
        assert(rest@ =~= t@.skip(k as int));
        assert(rest@ == listed_branch(lines_of(out@)[i as int]));
        if vec_eq(&rest, &b) {
            return true;
        }
        i += 1;
    }
    false
}

/// The sort key of each status: its rank.
pub open spec fn cull_keys(statuses: Seq<WtStatus>) -> Seq<(u64, Seq<char>, Seq<char>)> {
    statuses.map_values(
        |s: WtStatus| (status_rank(s), Seq::<char>::empty(), Seq::<char>::empty()),
    )
}

/// The order in which worktrees are offered for culling: dirty first, then
/// unpushed, clean and merged, ties kept in their order.
pub fn cull_order(statuses: &Vec<WtStatus>) -> (r: Vec<usize>)
    ensures
        is_stable_order(cull_keys(statuses@), r@),
{
    let mut keys: Vec<SortKey> = Vec::new();
    let mut i: usize = 0;
    while i < statuses.len()
        invariant
            i <= statuses@.len(),
            keys@.len() == i,
            forall|j: int| 0 <= j < i ==> crate::order::key_view(#[trigger] keys@[j]) == cull_keys(statuses@)[j],
        decreases statuses.len() - i,
    {
        keys.push(SortKey { rank: statuses[i].rank(), first: Vec::new(), second: Vec::new() });
        i += 1;
    }
    assert(crate::order::keys_view(keys@) =~= cull_keys(statuses@));
    stable_order(&keys)
}

/// In the culling order every worktree comes once, dirty ones before all
/// others, unpushed ones before clean and merged ones, clean ones before
/// merged ones, and worktrees of one status in their original order.
pub proof fn lemma_cull_dirty_first(s: Seq<WtStatus>, perm: Seq<usize>)
    requires
        is_stable_order(cull_keys(s), perm),
    ensures
        perm.len() == s.len(),
        forall|a: int, b: int| 0 <= a < b < perm.len() ==> perm[a] != perm[b],
        forall|a: int, b: int|
            #![trigger perm[a], perm[b]]
            0 <= a < b < perm.len() ==> {
                let x = s[perm[a] as int];
                let y = s[perm[b] as int];
                &&& (y is Dirty ==> x is Dirty)
                &&& (y is Unpushed ==> x is Dirty || x is Unpushed)
                &&& (y is Clean ==> !(x is Merged))
                &&& (x == y ==> perm[a] < perm[b])
            },
{
    let keys = cull_keys(s);
    assert forall|a: int, b: int|
        #![trigger perm[a], perm[b]]
        0 <= a < b < perm.len() implies {
        let x = s[perm[a] as int];
        let y = s[perm[b] as int];
        &&& (y is Dirty ==> x is Dirty)
        &&& (y is Unpushed ==> x is Dirty || x is Unpushed)
        &&& (y is Clean ==> !(x is Merged))
        &&& (x == y ==> perm[a] < perm[b])
    } by {
        let i = perm[a] as int;
        let j = perm[b] as int;
        assert(before(keys, i, j));
        crate::order::lemma_seq_lt_irreflexive(Seq::<char>::empty());
        assert(keys[i] == (status_rank(s[i]), Seq::<char>::empty(), Seq::<char>::empty()));
        assert(keys[j] == (status_rank(s[j]), Seq::<char>::empty(), Seq::<char>::empty()));
    }
}

} // verus!
