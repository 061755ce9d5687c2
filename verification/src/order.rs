//! Stable ordering of lists by a key: a rank, then two strings compared the
//! way `String`'s `Ord` compares them (code point by code point, a proper
//! prefix first).
use vstd::prelude::*;

verus! {

/// A sort key: a rank, then two strings, compared in that order.
pub struct SortKey {
    pub rank: u64,
    pub first: Vec<char>,
    pub second: Vec<char>,
}

/// The value a sort key stands for.
pub open spec fn key_view(k: SortKey) -> (u64, Seq<char>, Seq<char>) {
    (k.rank, k.first@, k.second@)
}

/// `a` comes strictly before `b` in the order of `String`.
pub open spec fn seq_lt(a: Seq<char>, b: Seq<char>) -> bool
    decreases a.len(),
{
    if a.len() == 0 {
        b.len() > 0
    } else if b.len() == 0 {
        false
    } else if a[0] != b[0] {
        a[0] < b[0]
    } else {
        seq_lt(a.skip(1), b.skip(1))
    }
}

/// Key `a` comes strictly before key `b`.
pub open spec fn key_lt(a: (u64, Seq<char>, Seq<char>), b: (u64, Seq<char>, Seq<char>)) -> bool {
    ||| a.0 < b.0
    ||| a.0 == b.0 && seq_lt(a.1, b.1)
    ||| a.0 == b.0 && a.1 == b.1 && seq_lt(a.2, b.2)
}

/// Position `i` comes before position `j` in the stable order of `keys`:
/// its key is smaller, or the keys are equal and `i` is earlier.
pub open spec fn before(keys: Seq<(u64, Seq<char>, Seq<char>)>, i: int, j: int) -> bool {
    key_lt(keys[i], keys[j]) || (keys[i] == keys[j] && i < j)
}

/// `perm` lists each position of `keys` once, in the stable order of the keys.
pub open spec fn is_stable_order(keys: Seq<(u64, Seq<char>, Seq<char>)>, perm: Seq<usize>) -> bool {
    &&& perm.len() == keys.len()
    &&& forall|i: int| 0 <= i < perm.len() ==> perm[i] < keys.len()
    &&& forall|i: int, j: int| 0 <= i < j < perm.len() ==> perm[i] != perm[j]
    &&& forall|i: int, j: int|
        0 <= i < j < perm.len() ==> before(keys, perm[i] as int, perm[j] as int)
}

/// No string comes before itself.
pub proof fn lemma_seq_lt_irreflexive(a: Seq<char>)
    ensures
        !seq_lt(a, a),
    decreases a.len(),
{
    if a.len() > 0 {
        lemma_seq_lt_irreflexive(a.skip(1));
    }
}

/// Of two different strings, one comes before the other.
pub proof fn lemma_seq_lt_total(a: Seq<char>, b: Seq<char>)
    ensures
        a != b ==> seq_lt(a, b) || seq_lt(b, a),
        !(seq_lt(a, b) && seq_lt(b, a)),
    decreases a.len(),
{
    if a.len() > 0 && b.len() > 0 && a[0] == b[0] {
        lemma_seq_lt_total(a.skip(1), b.skip(1));
        if a != b {
            if a.skip(1) == b.skip(1) {
                assert(a =~= seq![a[0]] + a.skip(1));
                assert(b =~= seq![b[0]] + b.skip(1));
            }
        }
    } else if a.len() == 0 && b.len() == 0 {
        assert(a =~= b);
    }
}

/// The order of strings is transitive.
pub proof fn lemma_seq_lt_transitive(a: Seq<char>, b: Seq<char>, c: Seq<char>)
    requires
        seq_lt(a, b),
        seq_lt(b, c),
    ensures
        seq_lt(a, c),
    decreases a.len(),
{
    if a.len() > 0 && b.len() > 0 && c.len() > 0 && a[0] == b[0] && b[0] == c[0] {
        lemma_seq_lt_transitive(a.skip(1), b.skip(1), c.skip(1));
    }
}

/// The stable order is a strict total order on the positions.
pub proof fn lemma_before_props(keys: Seq<(u64, Seq<char>, Seq<char>)>, i: int, j: int, k: int)
    ensures
        i != j ==> before(keys, i, j) || before(keys, j, i),
        !(before(keys, i, j) && before(keys, j, i)),
        before(keys, i, j) && before(keys, j, k) ==> before(keys, i, k),
{
    let (a, b, c) = (keys[i], keys[j], keys[k]);
    lemma_seq_lt_total(a.1, b.1);
    lemma_seq_lt_total(a.2, b.2);
    lemma_seq_lt_total(b.1, c.1);
    lemma_seq_lt_total(a.1, c.1);
    lemma_seq_lt_irreflexive(a.1);
    lemma_seq_lt_irreflexive(a.2);
    lemma_seq_lt_irreflexive(b.1);
    lemma_seq_lt_irreflexive(b.2);
    if seq_lt(a.1, b.1) && seq_lt(b.1, c.1) {
        lemma_seq_lt_transitive(a.1, b.1, c.1);
    }
    if seq_lt(a.2, b.2) && seq_lt(b.2, c.2) {
        lemma_seq_lt_transitive(a.2, b.2, c.2);
    }
    if a.0 == b.0 && a.1 == b.1 && a.2 == b.2 {
        assert(a == b);
    }
    if b.0 == c.0 && b.1 == c.1 && b.2 == c.2 {
        assert(b == c);
    }
}

/// `a` comes strictly before `b` in the order of `String`.
pub fn chars_lt(a: &Vec<char>, b: &Vec<char>) -> (r: bool)
    ensures
        r == seq_lt(a@, b@),
{
    let mut i: usize = 0;
    assert(a@.skip(0) =~= a@);
    assert(b@.skip(0) =~= b@);
    while i < a.len() && i < b.len() && a[i] == b[i]
        invariant
            i <= a@.len(),
            i <= b@.len(),
            seq_lt(a@, b@) == seq_lt(a@.skip(i as int), b@.skip(i as int)),
        decreases a.len() - i,
    {
        assert(a@.skip(i as int).skip(1) =~= a@.skip(i + 1));
        assert(b@.skip(i as int).skip(1) =~= b@.skip(i + 1));
        i += 1;
    }
    if i == a.len() {
        i < b.len()
    } else if i == b.len() {
        false
    } else {
        a[i] < b[i]
    }
}

/// Key `a` comes strictly before key `b`.
pub fn key_less(a: &SortKey, b: &SortKey) -> (r: bool)
    ensures
        r == key_lt(key_view(*a), key_view(*b)),
{
    if a.rank != b.rank {
        return a.rank < b.rank;
    }
    if chars_lt(&a.first, &b.first) {
        return true;
    }
    if !crate::text::vec_eq(&a.first, &b.first) {
        return false;
    }
    chars_lt(&a.second, &b.second)
}

/// The views of a list of keys.
pub open spec fn keys_view(keys: Seq<SortKey>) -> Seq<(u64, Seq<char>, Seq<char>)> {
    keys.map_values(|k: SortKey| key_view(k))
}

/// The positions of `keys` in their stable order: by key, and equal keys in
/// their original order (an insertion sort).
pub fn stable_order(keys: &Vec<SortKey>) -> (perm: Vec<usize>)
    ensures
        is_stable_order(keys_view(keys@), perm@),
{
    let ghost kv = keys_view(keys@);
    let mut perm: Vec<usize> = Vec::new();
    let mut k: usize = 0;
    while k < keys.len()
        invariant
            k <= keys@.len(),
            kv == keys_view(keys@),
            perm@.len() == k,
            forall|i: int| 0 <= i < perm@.len() ==> perm@[i] < k,
            forall|i: int, j: int| 0 <= i < j < perm@.len() ==> perm@[i] != perm@[j],
            forall|i: int, j: int|
                0 <= i < j < perm@.len() ==> before(kv, perm@[i] as int, perm@[j] as int),
        decreases keys.len() - k,
    {
        let mut pos: usize = 0;
        while pos < perm.len() && !key_less(&keys[k], &keys[perm[pos]])
            invariant
                pos <= perm@.len(),
                k < keys@.len(),
                kv == keys_view(keys@),
                forall|i: int| 0 <= i < perm@.len() ==> perm@[i] < k,
                forall|i: int| 0 <= i < pos ==> !key_lt(kv[k as int], kv[perm@[i] as int]),
            decreases perm.len() - pos,
        {
            pos += 1;
        }
        let ghost old_perm = perm@;
        proof {
            assert forall|i: int| 0 <= i < pos implies before(kv, old_perm[i] as int, k as int) by {
                lemma_before_props(kv, old_perm[i] as int, k as int, k as int);
            }
            if pos < old_perm.len() {
                assert(key_lt(kv[k as int], kv[old_perm[pos as int] as int]));
                assert forall|i: int| pos <= i < old_perm.len() implies before(
                    kv,
                    k as int,
                    old_perm[i] as int,
                ) by {
                    if i > pos {
                        lemma_before_props(kv, k as int, old_perm[pos as int] as int, old_perm[i] as int);
                    }
                }
            }
        }
        perm.insert(pos, k);
        proof {
            assert forall|i: int, j: int| 0 <= i < j < perm@.len() implies before(
                kv,
                perm@[i] as int,
                perm@[j] as int,
            ) by {
                if j < pos {
                    assert(perm@[i] == old_perm[i] && perm@[j] == old_perm[j]);
                } else if j == pos {
                    assert(perm@[i] == old_perm[i]);
                } else if i < pos {
                    assert(perm@[i] == old_perm[i] && perm@[j] == old_perm[j - 1]);
                } else if i == pos {
                    assert(perm@[j] == old_perm[j - 1]);
                } else {
                    assert(perm@[i] == old_perm[i - 1] && perm@[j] == old_perm[j - 1]);
                }
            }
            assert forall|i: int, j: int| 0 <= i < j < perm@.len() implies perm@[i] != perm@[j] by {
                if j < pos {
                    assert(perm@[i] == old_perm[i] && perm@[j] == old_perm[j]);
                } else if j == pos {
                    assert(perm@[i] == old_perm[i]);
                } else if i < pos {
                    assert(perm@[i] == old_perm[i] && perm@[j] == old_perm[j - 1]);
                } else if i == pos {
                    assert(perm@[j] == old_perm[j - 1]);
                } else {
                    assert(perm@[i] == old_perm[i - 1] && perm@[j] == old_perm[j - 1]);
                }
            }
            assert forall|i: int| 0 <= i < perm@.len() implies perm@[i] < k + 1 by {
                if i < pos {
                    assert(perm@[i] == old_perm[i]);
                } else if i > pos {
                    assert(perm@[i] == old_perm[i - 1]);
                }
            }
        }
        k += 1;
    }
    perm
}

} // verus!
