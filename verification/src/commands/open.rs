//! The logic of `fi open`: the order worktrees are offered in.
use vstd::prelude::*;
use crate::order::{
    before, is_stable_order, lemma_seq_lt_irreflexive, lemma_seq_lt_transitive, seq_lt, stable_order,
    SortKey,
};
use crate::text::chars_of;

verus! {

/// The group a worktree is listed in: persistent branches first, then
/// dirty worktrees, then clean ones.
pub open spec fn open_group(is_persistent: bool, is_dirty: bool) -> u64 {
    if is_persistent {
        0
    } else if is_dirty {
        1
    } else {
        2
    }
}

/// The sort key of each option `(is_persistent, is_dirty, branch)`: its group, then its branch.
pub open spec fn open_keys(options: Seq<(bool, bool, String)>) -> Seq<(u64, Seq<char>, Seq<char>)> {
    options.map_values(
        |o: (bool, bool, String)| (open_group(o.0, o.1), o.2@, Seq::<char>::empty()),
    )
}

/// The order in which worktrees are offered, given for each one whether its
/// branch is persistent, whether it is dirty, and its branch: by group, then
/// by branch name, ties kept in their order.
pub fn open_order(options: &Vec<(bool, bool, String)>) -> (r: Vec<usize>)
    ensures
        is_stable_order(open_keys(options@), r@),
{
    let mut keys: Vec<SortKey> = Vec::new();
    let mut i: usize = 0;
    while i < options.len()
        invariant
            i <= options@.len(),
            keys@.len() == i,
            forall|j: int| 0 <= j < i ==> crate::order::key_view(#[trigger] keys@[j]) == open_keys(options@)[j],
        decreases options.len() - i,
    {
        let o = &options[i];
        let rank: u64 = if o.0 {
            0
        } else if o.1 {
            1
        } else {
            2
        };
        keys.push(SortKey { rank, first: chars_of(o.2.as_str()), second: Vec::new() });
        i += 1;
    }
    assert(crate::order::keys_view(keys@) =~= open_keys(options@));
    stable_order(&keys)
}

/// In the opening order every worktree comes once, persistent branches
/// before all others, then dirty worktrees before clean ones; within a
/// group branches come in name order.
pub proof fn lemma_open_groups(options: Seq<(bool, bool, String)>, perm: Seq<usize>)
    requires
        is_stable_order(open_keys(options), perm),
    ensures
        perm.len() == options.len(),
        forall|a: int, b: int| 0 <= a < b < perm.len() ==> perm[a] != perm[b],
        forall|a: int, b: int|
            #![trigger perm[a], perm[b]]
            0 <= a < b < perm.len() ==> {
                let x = options[perm[a] as int];
                let y = options[perm[b] as int];
                &&& (y.0 ==> x.0)
                &&& (!x.0 && !y.0 && y.1 ==> x.1)
                &&& (x.0 == y.0 && (x.0 || x.1 == y.1) ==> !seq_lt(y.2@, x.2@))
            },
{
    let keys = open_keys(options);
    assert forall|a: int, b: int|
        #![trigger perm[a], perm[b]]
        0 <= a < b < perm.len() implies {
        let x = options[perm[a] as int];
        let y = options[perm[b] as int];
        &&& (y.0 ==> x.0)
        &&& (!x.0 && !y.0 && y.1 ==> x.1)
        &&& (x.0 == y.0 && (x.0 || x.1 == y.1) ==> !seq_lt(y.2@, x.2@))
    } by {
        let i = perm[a] as int;
        let j = perm[b] as int;
        assert(before(keys, i, j));
        let x = options[i];
        let y = options[j];
        assert(keys[i] == (open_group(x.0, x.1), x.2@, Seq::<char>::empty()));
        assert(keys[j] == (open_group(y.0, y.1), y.2@, Seq::<char>::empty()));
        lemma_seq_lt_irreflexive(Seq::<char>::empty());
        lemma_seq_lt_irreflexive(x.2@);
        if seq_lt(y.2@, x.2@) && seq_lt(x.2@, y.2@) {
            lemma_seq_lt_transitive(x.2@, y.2@, x.2@);
        }
    }
}

} // verus!
