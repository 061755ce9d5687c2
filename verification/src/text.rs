//! Character-sequence helpers shared by the template engine, the branch
//! parser and the output parsers.  Every string is handled as the sequence
//! of its Unicode scalar values, which is what `str`'s view is in Verus.
use vstd::prelude::*;

verus! {

// ── Specifications ──────────────────────────────────────────────────────────

/// Unicode `White_Space`, the set that `char::is_whitespace` and `str::trim` use.
pub open spec fn is_white(c: char) -> bool {
    ||| c == ' '
    ||| ('\t' <= c && c <= '\r')
    ||| c == '\u{85}'
    ||| c == '\u{a0}'
    ||| c == '\u{1680}'
    ||| ('\u{2000}' <= c && c <= '\u{200a}')
    ||| c == '\u{2028}'
    ||| c == '\u{2029}'
    ||| c == '\u{202f}'
    ||| c == '\u{205f}'
    ||| c == '\u{3000}'
}

/// A single or a double quote, the characters stripped around a format string.
pub open spec fn is_quote(c: char) -> bool {
    c == '\'' || c == '"'
}

/// A class of characters that a trim removes.
#[derive(Clone, Copy, PartialEq, Eq, Structural)]
pub enum CharClass {
    /// Unicode white space (`str::trim`).
    White,
    /// Single and double quotes.
    Quote,
    /// The hyphen-minus `-`.
    Dash,
}

/// `c` belongs to the class `cls`.
pub open spec fn in_class(cls: CharClass, c: char) -> bool {
    match cls {
        CharClass::White => is_white(c),
        CharClass::Quote => is_quote(c),
        CharClass::Dash => c == '-',
    }
}

/// `s` without its leading characters of the class.
pub open spec fn strip_start(s: Seq<char>, cls: CharClass) -> Seq<char>
    decreases s.len(),
{
    if s.len() > 0 && in_class(cls, s[0]) {
        strip_start(s.skip(1), cls)
    } else {
        s
    }
}

/// `s` without its trailing characters of the class.
pub open spec fn strip_end(s: Seq<char>, cls: CharClass) -> Seq<char>
    decreases s.len(),
{
    if s.len() > 0 && in_class(cls, s.last()) {
        strip_end(s.drop_last(), cls)
    } else {
        s
    }
}

/// `s` without leading and trailing characters of the class (`str::trim`,
/// or `trim_matches` on quotes).
pub open spec fn strip(s: Seq<char>, cls: CharClass) -> Seq<char> {
    strip_end(strip_start(s, cls), cls)
}

/// `str::trim`.
pub open spec fn trim(s: Seq<char>) -> Seq<char> {
    strip(s, CharClass::White)
}

/// `i` is the position of the first `c` in `s`.
pub open spec fn is_first_char(s: Seq<char>, c: char, i: int) -> bool {
    &&& 0 <= i < s.len()
    &&& s[i] == c
    &&& forall|j: int| 0 <= j < i ==> s[j] != c
}

/// Position of the first `c` in `s` (`str::find` with a character).
pub open spec fn find_char(s: Seq<char>, c: char) -> Option<int> {
    if s.contains(c) {
        Some(choose|i: int| is_first_char(s, c, i))
    } else {
        None
    }
}

/// `s` starts with `p`.
pub open spec fn starts_with_seq(s: Seq<char>, p: Seq<char>) -> bool {
    p.len() <= s.len() && s.take(p.len() as int) == p
}

/// `p` occurs in `s` at position `i`.
pub open spec fn occurs_at(s: Seq<char>, p: Seq<char>, i: int) -> bool {
    0 <= i && i + p.len() <= s.len() && s.subrange(i, i + p.len()) == p
}

/// `i` is the position of the first occurrence of `p` in `s`.
pub open spec fn is_first_occurrence(s: Seq<char>, p: Seq<char>, i: int) -> bool {
    &&& occurs_at(s, p, i)
    &&& forall|j: int| 0 <= j < i ==> !occurs_at(s, p, j)
}

/// `p` occurs somewhere in `s`.
pub open spec fn contains_seq(s: Seq<char>, p: Seq<char>) -> bool {
    exists|i: int| occurs_at(s, p, i)
}

/// Position of the first occurrence of `p` in `s` (`str::find` with a `&str`).
pub open spec fn find_seq(s: Seq<char>, p: Seq<char>) -> Option<int> {
    if contains_seq(s, p) {
        Some(choose|i: int| is_first_occurrence(s, p, i))
    } else {
        None
    }
}

/// `str::replace` with a non-empty pattern: every occurrence, scanning from
/// the left and never overlapping, is replaced by `r`.
pub open spec fn replace_all(s: Seq<char>, p: Seq<char>, r: Seq<char>) -> Seq<char>
    recommends
        p.len() > 0,
    decreases s.len(),
{
    if p.len() == 0 {
        s
    } else {
        match find_seq(s, p) {
            Some(i) => if 0 <= i && i + p.len() <= s.len() {
                s.take(i) + r + replace_all(s.skip(i + p.len()), p, r)
            } else {
                s
            },
            None => s,
        }
    }
}

// ── Lemmas about the specifications ─────────────────────────────────────────

/// A witnessed first position is the one `find_char` names.
pub proof fn lemma_find_char_is(s: Seq<char>, c: char, i: int)
    requires
        is_first_char(s, c, i),
    ensures
        find_char(s, c) == Some(i),
{
    assert(s.contains(c)) by {
        assert(s[i] == c);
    }
    let k = choose|k: int| is_first_char(s, c, k);
    assert(is_first_char(s, c, k));
    if k < i {
        assert(s[k] != c);
    } else if k > i {
        assert(s[i] != c);
    }
}

/// `find_char` finds nothing exactly when no position holds `c`.
pub proof fn lemma_find_char_none(s: Seq<char>, c: char)
    requires
        forall|j: int| 0 <= j < s.len() ==> s[j] != c,
    ensures
        find_char(s, c) == None::<int>,
{
    if s.contains(c) {
        let j = choose|j: int| 0 <= j < s.len() && s[j] == c;
        assert(s[j] != c);
    }
}

/// What `find_char` returns is the first position of `c`.
pub proof fn lemma_find_char_props(s: Seq<char>, c: char)
    ensures
        match find_char(s, c) {
            Some(i) => is_first_char(s, c, i),
            None => forall|j: int| 0 <= j < s.len() ==> s[j] != c,
        },
{
    if s.contains(c) {
        let w = choose|j: int| 0 <= j < s.len() && s[j] == c;
        lemma_first_char_exists(s, c, w);
    }
}

/// Some position of `c` implies a first one.
pub proof fn lemma_first_char_exists(s: Seq<char>, c: char, w: int)
    requires
        0 <= w < s.len(),
        s[w] == c,
    ensures
        exists|i: int| is_first_char(s, c, i),
    decreases w,
{
    if forall|j: int| 0 <= j < w ==> s[j] != c {
        assert(is_first_char(s, c, w));
    } else {
        let j = choose|j: int| 0 <= j < w && s[j] == c;
        lemma_first_char_exists(s, c, j);
    }
}

/// A witnessed first occurrence is the one `find_seq` names.
pub proof fn lemma_find_seq_is(s: Seq<char>, p: Seq<char>, i: int)
    requires
        is_first_occurrence(s, p, i),
    ensures
        find_seq(s, p) == Some(i),
{
    assert(contains_seq(s, p));
    let k = choose|k: int| is_first_occurrence(s, p, k);
    assert(is_first_occurrence(s, p, k));
    if k < i {
        assert(!occurs_at(s, p, k));
    } else if k > i {
        assert(!occurs_at(s, p, i));
    }
}

/// Some occurrence implies a first one.
pub proof fn lemma_first_occurrence_exists(s: Seq<char>, p: Seq<char>, w: int)
    requires
        occurs_at(s, p, w),
    ensures
        exists|i: int| is_first_occurrence(s, p, i),
    decreases w,
{
    if forall|j: int| 0 <= j < w ==> !occurs_at(s, p, j) {
        assert(is_first_occurrence(s, p, w));
    } else {
        let j = choose|j: int| 0 <= j < w && occurs_at(s, p, j);
        lemma_first_occurrence_exists(s, p, j);
    }
}

/// What `find_seq` returns is the first occurrence of `p`.
pub proof fn lemma_find_seq_props(s: Seq<char>, p: Seq<char>)
    ensures
        match find_seq(s, p) {
            Some(i) => is_first_occurrence(s, p, i),
            None => forall|j: int| !occurs_at(s, p, j),
        },
{
    if contains_seq(s, p) {
        let w = choose|j: int| occurs_at(s, p, j);
        lemma_first_occurrence_exists(s, p, w);
    }
}

/// `find_seq` finds nothing exactly when `p` occurs nowhere.
pub proof fn lemma_find_seq_none(s: Seq<char>, p: Seq<char>)
    requires
        forall|j: int| !occurs_at(s, p, j),
    ensures
        find_seq(s, p) == None::<int>,
{
}

/// Stripping the start leaves a suffix that starts outside the class.
pub proof fn lemma_strip_start_suffix(s: Seq<char>, cls: CharClass)
    ensures
        exists|k: int|
            0 <= k <= s.len() && strip_start(s, cls) == s.skip(k) && (forall|j: int|
                0 <= j < k ==> in_class(cls, s[j])) && (k < s.len() ==> !in_class(
                cls,
                s[k],
            )),
    decreases s.len(),
{
    if s.len() > 0 && in_class(cls, s[0]) {
        lemma_strip_start_suffix(s.skip(1), cls);
        let k = choose|k: int|
            0 <= k <= s.skip(1).len() && strip_start(s.skip(1), cls) == s.skip(1).skip(k)
                && (forall|j: int| 0 <= j < k ==> in_class(cls, s.skip(1)[j])) && (k < s.skip(
                1,
            ).len() ==> !in_class(cls, s.skip(1)[k]));
        assert(s.skip(1).skip(k) =~= s.skip(k + 1));
        assert forall|j: int| 0 <= j < k + 1 implies in_class(cls, s[j]) by {
            if j > 0 {
                assert(s[j] == s.skip(1)[j - 1]);
            }
        }
        if k + 1 < s.len() {
            assert(s[k + 1] == s.skip(1)[k]);
        }
    } else {
        assert(s.skip(0) =~= s);
    }
}

/// What remains after stripping the class from the end is empty or ends in
/// a character outside the class.
pub proof fn lemma_strip_end_last(s: Seq<char>, cls: CharClass)
    ensures
        strip_end(s, cls).len() == 0 || !in_class(cls, strip_end(s, cls).last()),
    decreases s.len(),
{
    if s.len() > 0 && in_class(cls, s.last()) {
        lemma_strip_end_last(s.drop_last(), cls);
    }
}

/// A sequence with no character of the class at either end is its own strip.
pub proof fn lemma_strip_noop(s: Seq<char>, cls: CharClass)
    requires
        s.len() > 0 ==> !in_class(cls, s[0]) && !in_class(cls, s.last()),
    ensures
        strip(s, cls) == s,
{
}

/// `a` and `b` agree as far as both go: one is a prefix of the other.
pub open spec fn agree(a: Seq<char>, b: Seq<char>) -> bool {
    forall|t: int| 0 <= t < a.len() && t < b.len() ==> a[t] == b[t]
}

/// No occurrence of `q` can reach into an inserted `r` from either side or
/// lie inside it: no proper suffix of `q` agrees with `r`, and no suffix of
/// `r` agrees with `q`.
pub open spec fn no_straddle(q: Seq<char>, r: Seq<char>) -> bool {
    &&& forall|k: int| 1 <= k < q.len() ==> !agree(#[trigger] q.skip(k), r)
    &&& forall|m: int| 0 <= m < r.len() ==> !agree(#[trigger] r.skip(m), q)
}

/// Replacing `p` by `r` leaves no occurrence of `q` when `q` cannot
/// straddle `r`, and `q` is `p` itself or does not occur before.
pub proof fn lemma_replace_all_avoids(s: Seq<char>, p: Seq<char>, r: Seq<char>, q: Seq<char>)
    requires
        p.len() > 0,
        q.len() > 0,
        q == p || !contains_seq(s, q),
        no_straddle(q, r),
    ensures
        !contains_seq(replace_all(s, p, r), q),
    decreases s.len(),
{
    lemma_find_seq_props(s, p);
    match find_seq(s, p) {
        None => {
            if q == p {
                assert(!contains_seq(s, q));
            }
        },
        Some(i) => {
            let a = i;
            let s0 = s.take(i);
            let rest = s.skip(i + p.len());
            if q != p {
                assert forall|x: int| !occurs_at(rest, q, x) by {
                    if occurs_at(rest, q, x) {
                        assert(s.subrange(i + p.len() + x, i + p.len() + x + q.len()) =~= rest.subrange(
                            x,
                            x + q.len(),
                        ));
                        assert(occurs_at(s, q, i + p.len() + x));
                    }
                }
            }
            lemma_replace_all_avoids(rest, p, r, q);
            let rr = replace_all(rest, p, r);
            let res = replace_all(s, p, r);
            assert(res == s0 + r + rr);
            let b = a + r.len();
            assert forall|j: int| !occurs_at(res, q, j) by {
                if occurs_at(res, q, j) {
                    let e = j + q.len();
                    if e <= a {
                        assert(res.subrange(j, e) =~= s.subrange(j, e));
                        assert(occurs_at(s, q, j));
                        if q == p {
                            assert(j < i);
                        }
                    } else if j >= b {
                        assert(res.subrange(j, e) =~= rr.subrange(j - b, e - b));
                        assert(occurs_at(rr, q, j - b));
                    } else if j < a {
                        let k = a - j;
                        assert(agree(q.skip(k), r)) by {
                            assert forall|t: int| 0 <= t < q.skip(k).len() && t < r.len() implies q.skip(
                                k,
                            )[t] == r[t] by {
                                assert(q.skip(k)[t] == q[k + t]);
                                assert(q[k + t] == res.subrange(j, e)[k + t]);
                                assert(res[a + t] == r[t]);
                            }
                        }
                    } else {
                        let m = j - a;
                        assert(agree(r.skip(m), q)) by {
                            assert forall|t: int| 0 <= t < r.skip(m).len() && t < q.len() implies r.skip(
                                m,
                            )[t] == q[t] by {
                                assert(r.skip(m)[t] == r[m + t]);
                                assert(res[a + m + t] == r[m + t]);
                                assert(q[t] == res.subrange(j, e)[t]);
                            }
                        }
                    }
                }
            }
        },
    }
}

// ── Executable helpers ──────────────────────────────────────────────────────

/// Appends one character to a string (std `String::push`).
#[verifier::external_body]
pub(crate) fn push_char(s: &mut String, c: char)
    ensures
        final(s)@ == old(s)@.push(c),
{
    s.push(c);
}

/// The characters of `s`, in order.
pub fn chars_of(s: &str) -> (v: Vec<char>)
    ensures
        v@ == s@,
{
    let n = s.unicode_len();
    let mut v: Vec<char> = Vec::new();
    let mut i: usize = 0;
    while i < n
        invariant
            n == s@.len(),
            i <= n,
            v@ == s@.take(i as int),
        decreases n - i,
    {
        v.push(s.get_char(i));
        i += 1;
        assert(v@ =~= s@.take(i as int));
    }
    assert(v@ =~= s@);
    v
}

/// A `String` holding the characters `v[from..to]`.
pub fn string_of(v: &Vec<char>, from: usize, to: usize) -> (s: String)
    requires
        from <= to <= v@.len(),
    ensures
        s@ == v@.subrange(from as int, to as int),
{
    let mut s = String::new();
    let mut i = from;
    while i < to
        invariant
            from <= i <= to <= v@.len(),
            s@ == v@.subrange(from as int, i as int),
        decreases to - i,
    {
        push_char(&mut s, v[i]);
        i += 1;
        assert(s@ =~= v@.subrange(from as int, i as int));
    }
    s
}

/// A `String` holding all characters of `v`.
pub fn string_of_all(v: &Vec<char>) -> (s: String)
    ensures
        s@ == v@,
{
    let s = string_of(v, 0, v.len());
    assert(v@.subrange(0, v@.len() as int) =~= v@);
    s
}

/// Appends `v[from..to]` to `out`.
pub fn push_range(out: &mut Vec<char>, v: &Vec<char>, from: usize, to: usize)
    requires
        from <= to <= v@.len(),
    ensures
        final(out)@ == old(out)@ + v@.subrange(from as int, to as int),
{
    let ghost start = out@;
    let mut i = from;
    while i < to
        invariant
            from <= i <= to <= v@.len(),
            out@ == start + v@.subrange(from as int, i as int),
        decreases to - i,
    {
        out.push(v[i]);
        i += 1;
        assert(out@ =~= start + v@.subrange(from as int, i as int));
    }
}

/// Appends all of `v` to `out`.
pub fn push_all(out: &mut Vec<char>, v: &Vec<char>)
    ensures
        final(out)@ == old(out)@ + v@,
{
    push_range(out, v, 0, v.len());
    assert(v@.subrange(0, v@.len() as int) =~= v@);
}

/// The characters `v[from..to]` as a new vector.
pub fn slice_of(v: &Vec<char>, from: usize, to: usize) -> (r: Vec<char>)
    requires
        from <= to <= v@.len(),
    ensures
        r@ == v@.subrange(from as int, to as int),
{
    let mut r: Vec<char> = Vec::new();
    push_range(&mut r, v, from, to);
    assert(r@ =~= v@.subrange(from as int, to as int));
    r
}

/// `char::is_whitespace`.
pub fn is_white_char(c: char) -> (b: bool)
    ensures
        b == is_white(c),
{
    c == ' ' || ('\t' <= c && c <= '\r') || c == '\u{85}' || c == '\u{a0}' || c == '\u{1680}'
        || ('\u{2000}' <= c && c <= '\u{200a}') || c == '\u{2028}' || c == '\u{2029}' || c
        == '\u{202f}' || c == '\u{205f}' || c == '\u{3000}'
}

/// Membership in the class of characters a trim removes.
pub fn in_class_char(cls: CharClass, c: char) -> (b: bool)
    ensures
        b == in_class(cls, c),
{
    match cls {
        CharClass::White => is_white_char(c),
        CharClass::Quote => c == '\'' || c == '"',
        CharClass::Dash => c == '-',
    }
}

/// Index of the first character of `v[from..to]` outside the class, or `to`.
fn strip_start_index(v: &Vec<char>, from: usize, to: usize, cls: CharClass) -> (k: usize)
    requires
        from <= to <= v@.len(),
    ensures
        from <= k <= to,
        strip_start(v@.subrange(from as int, to as int), cls) == v@.subrange(
            k as int,
            to as int,
        ),
{
    let mut k = from;
    while k < to && in_class_char(cls, v[k])
        invariant
            from <= k <= to <= v@.len(),
            strip_start(v@.subrange(from as int, to as int), cls) == strip_start(
                v@.subrange(k as int, to as int),
                cls,
            ),
        decreases to - k,
    {
        assert(v@.subrange(k as int, to as int).skip(1) =~= v@.subrange(k + 1, to as int));
        k += 1;
    }
    k
}

/// Index just past the last character of `v[from..to]` outside the class, or `from`.
pub fn strip_end_index(v: &Vec<char>, from: usize, to: usize, cls: CharClass) -> (k: usize)
    requires
        from <= to <= v@.len(),
    ensures
        from <= k <= to,
        strip_end(v@.subrange(from as int, to as int), cls) == v@.subrange(
            from as int,
            k as int,
        ),
{
    let mut k = to;
    while k > from && in_class_char(cls, v[k - 1])
        invariant
            from <= k <= to <= v@.len(),
            strip_end(v@.subrange(from as int, to as int), cls) == strip_end(
                v@.subrange(from as int, k as int),
                cls,
            ),
        decreases k - from,
    {
        assert(v@.subrange(from as int, k as int).drop_last() =~= v@.subrange(
            from as int,
            k - 1,
        ));
        k -= 1;
    }
    k
}

/// The bounds of `v[from..to]` once the class is stripped from both ends.
pub fn strip_bounds(v: &Vec<char>, from: usize, to: usize, cls: CharClass) -> (r: (usize, usize))
    requires
        from <= to <= v@.len(),
    ensures
        from <= r.0 <= r.1 <= to,
        strip(v@.subrange(from as int, to as int), cls) == v@.subrange(r.0 as int, r.1 as int),
{
    let a = strip_start_index(v, from, to, cls);
    let b = strip_end_index(v, a, to, cls);
    (a, b)
}

/// `v[from..to]` with the class stripped from both ends, as a new vector.
pub fn strip_range(v: &Vec<char>, from: usize, to: usize, cls: CharClass) -> (r: Vec<char>)
    requires
        from <= to <= v@.len(),
    ensures
        r@ == strip(v@.subrange(from as int, to as int), cls),
{
    let (a, b) = strip_bounds(v, from, to, cls);
    slice_of(v, a, b)
}

/// `str::trim` on a whole sequence.
pub fn trim_vec(v: &Vec<char>) -> (r: Vec<char>)
    ensures
        r@ == trim(v@),
{
    assert(v@.subrange(0, v@.len() as int) =~= v@);
    strip_range(v, 0, v.len(), CharClass::White)
}

/// Position of the first `c` in `v[from..]`, relative to `from`.
pub fn find_char_from(v: &Vec<char>, c: char, from: usize) -> (r: Option<usize>)
    requires
        from <= v@.len(),
    ensures
        match r {
            Some(i) => find_char(v@.skip(from as int), c) == Some(i as int),
            None => find_char(v@.skip(from as int), c) == None::<int>,
        },
{
    let ghost s = v@.skip(from as int);
    let mut i = from;
    while i < v.len()
        invariant
            from <= i <= v@.len(),
            s == v@.skip(from as int),
            forall|j: int| 0 <= j < i - from ==> s[j] != c,
        decreases v.len() - i,
    {
        if v[i] == c {
            proof {
                assert(is_first_char(s, c, i - from));
                lemma_find_char_is(s, c, i - from);
            }
            return Some(i - from);
        }
        i += 1;
    }
    proof {
        lemma_find_char_none(s, c);
    }
    None
}

/// `v[at..at + p.len()] == p`.
pub fn occurs_at_exec(v: &Vec<char>, p: &Vec<char>, at: usize) -> (b: bool)
    requires
        at <= v@.len(),
    ensures
        b == occurs_at(v@, p@, at as int),
{
    if p.len() > v.len() - at {
        return false;
    }
    let mut k: usize = 0;
    while k < p.len()
        invariant
            at + p@.len() <= v@.len(),
            v@.len() <= usize::MAX,
            k <= p@.len(),
            forall|j: int| 0 <= j < k ==> v@[at + j] == p@[j],
        decreases p.len() - k,
    {
        if v[at + k] != p[k] {
            assert(v@.subrange(at as int, at + p@.len())[k as int] != p@[k as int]);
            return false;
        }
        k += 1;
    }
    assert(v@.subrange(at as int, at + p@.len()) =~= p@);
    true
}

/// Position of the first occurrence of `p` in `v[from..]`, relative to `from`.
pub fn find_seq_from(v: &Vec<char>, p: &Vec<char>, from: usize) -> (r: Option<usize>)
    requires
        from <= v@.len(),
    ensures
        match r {
            Some(i) => find_seq(v@.skip(from as int), p@) == Some(i as int),
            None => find_seq(v@.skip(from as int), p@) == None::<int>,
        },
{
    let ghost s = v@.skip(from as int);
    let mut i = from;
    while p.len() <= v.len() - i
        invariant
            from <= i <= v@.len(),
            s == v@.skip(from as int),
            forall|j: int| 0 <= j < i - from ==> !occurs_at(s, p@, j),
        decreases v.len() - i,
    {
        let hit = occurs_at_exec(v, p, i);
        proof {
            assert(s.subrange(i - from, i - from + p@.len()) =~= v@.subrange(
                i as int,
                i + p@.len(),
            ));
        }
        if hit {
            proof {
                assert(is_first_occurrence(s, p@, i - from));
                lemma_find_seq_is(s, p@, i - from);
            }
            return Some(i - from);
        }
        if i == v.len() {
            proof {
                assert forall|j: int| !occurs_at(s, p@, j) by {
                    if 0 <= j && j + p@.len() <= s.len() {
                        assert(j <= i - from);
                    }
                }
                lemma_find_seq_none(s, p@);
            }
            return None;
        }
        i += 1;
    }
    proof {
        assert forall|j: int| !occurs_at(s, p@, j) by {
            if 0 <= j && j + p@.len() <= s.len() {
                assert(j < i - from);
            }
        }
        lemma_find_seq_none(s, p@);
    }
    None
}

/// Two strings hold the same characters.
pub fn str_eq(a: &str, b: &str) -> (r: bool)
    ensures
        r == (a@ == b@),
{
    let x = chars_of(a);
    let y = chars_of(b);
    vec_eq(&x, &y)
}

/// Two character vectors hold the same characters.
pub fn vec_eq(a: &Vec<char>, b: &Vec<char>) -> (r: bool)
    ensures
        r == (a@ == b@),
{
    if a.len() != b.len() {
        return false;
    }
    let mut i: usize = 0;
    while i < a.len()
        invariant
            a@.len() == b@.len(),
            i <= a@.len(),
            forall|j: int| 0 <= j < i ==> a@[j] == b@[j],
        decreases a.len() - i,
    {
        if a[i] != b[i] {
            return false;
        }
        i += 1;
    }
    assert(a@ =~= b@);
    true
}

/// A `String` holding the characters of `s`.
pub fn to_owned_string(s: &str) -> (r: String)
    ensures
        r@ == s@,
{
    let v = chars_of(s);
    string_of_all(&v)
}

/// `parts` with `sep` between each two of them (`[String]::join`).
pub open spec fn join(parts: Seq<Seq<char>>, sep: Seq<char>) -> Seq<char>
    decreases parts.len(),
{
    if parts.len() == 0 {
        Seq::empty()
    } else if parts.len() == 1 {
        parts[0]
    } else {
        parts[0] + sep + join(parts.skip(1), sep)
    }
}

/// The views of a list of strings.
pub open spec fn string_views(v: Seq<String>) -> Seq<Seq<char>> {
    v.map_values(|s: String| s@)
}

/// The views of a list of character vectors.
pub open spec fn vec_views(v: Seq<Vec<char>>) -> Seq<Seq<char>> {
    v.map_values(|s: Vec<char>| s@)
}

/// Joining `k + 1` parts is joining `k` parts, then the separator and the last part.
pub proof fn lemma_join_push(parts: Seq<Seq<char>>, sep: Seq<char>, last: Seq<char>)
    ensures
        join(parts.push(last), sep) == if parts.len() == 0 {
            last
        } else {
            join(parts, sep) + sep + last
        },
    decreases parts.len(),
{
    if parts.len() == 0 {
        assert(parts.push(last).len() == 1);
        assert(parts.push(last)[0] == last);
    } else if parts.len() == 1 {
        assert(parts.push(last).skip(1) =~= seq![last]);
        assert(join(seq![last], sep) == last);
        assert(parts.push(last)[0] == parts[0]);
    } else {
        assert(parts.push(last)[0] == parts[0]);
        assert(parts.push(last).skip(1) =~= parts.skip(1).push(last));
        lemma_join_push(parts.skip(1), sep, last);
        assert(parts[0] + sep + (join(parts.skip(1), sep) + sep + last) =~= parts[0] + sep
            + join(parts.skip(1), sep) + sep + last);
    }
}

/// `parts` joined with `sep`, as character vectors.
pub fn join_vecs(parts: &Vec<Vec<char>>, sep: &Vec<char>) -> (r: Vec<char>)
    ensures
        r@ == join(vec_views(parts@), sep@),
{
    let mut r: Vec<char> = Vec::new();
    let mut i: usize = 0;
    while i < parts.len()
        invariant
            i <= parts@.len(),
            r@ == join(vec_views(parts@).take(i as int), sep@),
        decreases parts.len() - i,
    {
        proof {
            lemma_join_push(vec_views(parts@).take(i as int), sep@, parts@[i as int]@);
            assert(vec_views(parts@).take(i + 1) =~= vec_views(parts@).take(i as int).push(
                parts@[i as int]@,
            ));
        }
        if i > 0 {
            push_all(&mut r, sep);
        }
        push_all(&mut r, &parts[i]);
        i += 1;
    }
    assert(vec_views(parts@).take(i as int) =~= vec_views(parts@));
    r
}

/// `parts` joined with `sep`, as a `String`.
pub fn join_strings(parts: &Vec<String>, sep: &str) -> (r: String)
    ensures
        r@ == join(string_views(parts@), sep@),
{
    let mut vs: Vec<Vec<char>> = Vec::new();
    let mut i: usize = 0;
    while i < parts.len()
        invariant
            i <= parts@.len(),
            vs@.len() == i,
            forall|j: int| 0 <= j < i ==> vs@[j]@ == parts@[j]@,
        decreases parts.len() - i,
    {
        vs.push(chars_of(parts[i].as_str()));
        i += 1;
    }
    let sv = chars_of(sep);
    let r = join_vecs(&vs, &sv);
    assert(vec_views(vs@) =~= string_views(parts@));
    string_of_all(&r)
}

// ── Unicode case mappings (std) ─────────────────────────────────────────────

/// What `str::to_uppercase` returns for the characters `s`.
pub uninterp spec fn spec_to_uppercase(s: Seq<char>) -> Seq<char>;

/// What `str::to_lowercase` returns for the characters `s`.
pub uninterp spec fn spec_to_lowercase(s: Seq<char>) -> Seq<char>;

/// What `char::is_alphanumeric` returns for `c`.
pub uninterp spec fn spec_is_alphanumeric(c: char) -> bool;

/// `str::to_uppercase`: the full Unicode upper-case mapping of `s`.
#[verifier::external_body]
pub(crate) fn to_uppercase(s: &str) -> (r: String)
    ensures
        r@ == spec_to_uppercase(s@),
{
    s.to_uppercase()
}

/// `str::to_lowercase`: the full Unicode lower-case mapping of `s`.
#[verifier::external_body]
pub(crate) fn to_lowercase(s: &str) -> (r: String)
    ensures
        r@ == spec_to_lowercase(s@),
{
    s.to_lowercase()
}

/// `char::is_alphanumeric`: whether `c` is alphabetic or numeric in Unicode;
/// the hyphen-minus `-` is neither.
#[verifier::external_body]
pub(crate) fn is_alphanumeric(c: char) -> (r: bool)
    ensures
        r == spec_is_alphanumeric(c),
        c == '-' ==> !r,
{
    c.is_alphanumeric()
}

// ── Splitting ───────────────────────────────────────────────────────────────

/// The pieces of `s` between the occurrences of `sep` (`str::split`).
pub open spec fn split_on(s: Seq<char>, sep: char) -> Seq<Seq<char>>
    decreases s.len(),
{
    match find_char(s, sep) {
        Some(i) => {
            proof {
                lemma_find_char_props(s, sep);
            }
            seq![s.take(i)] + split_on(s.skip(i + 1), sep)
        },
        None => seq![s],
    }
}

/// The pieces of `v` between the occurrences of `sep`.
pub fn split_vec(v: &Vec<char>, sep: char) -> (r: Vec<Vec<char>>)
    ensures
        vec_views(r@) == split_on(v@, sep),
{
    let mut r: Vec<Vec<char>> = Vec::new();
    let mut pos: usize = 0;
    let n = v.len();
    assert(v@.skip(0) =~= v@);
    loop
        invariant
            n == v@.len(),
            pos <= v@.len(),
            split_on(v@, sep) == vec_views(r@) + split_on(v@.skip(pos as int), sep),
        decreases v@.len() - pos,
    {
        let ghost rest = v@.skip(pos as int);
        match find_char_from(v, sep, pos) {
            Some(i) => {
                proof {
                    lemma_find_char_props(rest, sep);
                    assert(i < rest.len());
                    assert(rest.take(i as int) =~= v@.subrange(pos as int, pos + i));
                    assert(rest.skip(i + 1) =~= v@.skip(pos + i + 1));
                }
                let piece = slice_of(v, pos, pos + i);
                let ghost before = r@;
                let ghost pv = piece@;
                r.push(piece);
                assert(vec_views(r@) =~= vec_views(before).push(pv));
                pos = pos + i + 1;
            },
            None => {
                let piece = slice_of(v, pos, v.len());
                assert(piece@ =~= rest);
                let ghost before = r@;
                r.push(piece);
                assert(vec_views(r@) =~= vec_views(before).push(rest));
                return r;
            },
        }
    }
}


/// A line without the `\r` of a CRLF ending.
pub open spec fn strip_cr(l: Seq<char>) -> Seq<char> {
    if l.len() > 0 && l.last() == '\r' {
        l.drop_last()
    } else {
        l
    }
}

/// The lines of `s` (`str::lines`): the pieces between `\n`s. A piece
/// ended by `\n` loses a final `\r` (a `\r\n` ending); the last piece, not
/// ended by `\n`, is a line as it stands unless it is empty.
pub open spec fn lines_of(s: Seq<char>) -> Seq<Seq<char>> {
    let ps = split_on(s, '\n');
    let ended = ps.drop_last().map_values(|l: Seq<char>| strip_cr(l));
    if ps.len() > 0 && ps.last().len() > 0 {
        ended.push(ps.last())
    } else {
        ended
    }
}

/// `split_on` always yields at least one piece.
pub proof fn lemma_split_nonempty(s: Seq<char>, sep: char)
    ensures
        split_on(s, sep).len() >= 1,
{
    lemma_find_char_props(s, sep);
}

/// The lines of `v` (see [`lines_of`]).
pub fn lines_vec(v: &Vec<char>) -> (r: Vec<Vec<char>>)
    ensures
        vec_views(r@) == lines_of(v@),
{
    let mut pieces = split_vec(v, '\n');
    proof {
        lemma_split_nonempty(v@, '\n');
    }
    let ghost ps = split_on(v@, '\n');
    let last = match pieces.pop() {
        Some(l) => l,
        None => Vec::new(),
    };
    assert(vec_views(pieces@) =~= ps.drop_last());
    assert(last@ == ps.last());
    let ghost ps2 = vec_views(pieces@);
    let mut r: Vec<Vec<char>> = Vec::new();
    let mut i: usize = 0;
    while i < pieces.len()
        invariant
            i <= pieces@.len(),
            ps2 == vec_views(pieces@),
            r@.len() == i,
            forall|j: int| 0 <= j < i ==> r@[j]@ == strip_cr(ps2[j]),
        decreases pieces.len() - i,
    {
        let l = &pieces[i];
        if l.len() > 0 && l[l.len() - 1] == '\r' {
            r.push(slice_of(l, 0, l.len() - 1));
            assert(l@.subrange(0, l@.len() - 1) =~= l@.drop_last());
        } else {
            r.push(l.clone());
        }
        i += 1;
    }
    let ghost ended = ps.drop_last().map_values(|l: Seq<char>| strip_cr(l));
    assert(vec_views(r@) =~= ended);
    if last.len() > 0 {
        let ghost before = r@;
        r.push(last);
        assert(vec_views(r@) =~= vec_views(before).push(ps.last()));
    }
    r
}

// ── First matching index ────────────────────────────────────────────────────

/// `i` is the first position of `s` whose element satisfies `p`.
pub open spec fn is_first_index<T>(s: Seq<T>, p: spec_fn(T) -> bool, i: int) -> bool {
    &&& 0 <= i < s.len()
    &&& p(s[i])
    &&& forall|j: int| 0 <= j < i ==> !p(s[j])
}

/// The first position of `s` whose element satisfies `p`.
pub open spec fn first_index<T>(s: Seq<T>, p: spec_fn(T) -> bool) -> Option<int> {
    if exists|i: int| 0 <= i < s.len() && p(s[i]) {
        Some(choose|i: int| is_first_index(s, p, i))
    } else {
        None
    }
}

/// A witnessed first position is the one `first_index` names.
pub proof fn lemma_first_index_is<T>(s: Seq<T>, p: spec_fn(T) -> bool, i: int)
    requires
        is_first_index(s, p, i),
    ensures
        first_index(s, p) == Some(i),
{
    let k = choose|k: int| is_first_index(s, p, k);
    assert(is_first_index(s, p, k));
    if k < i {
        assert(!p(s[k]));
    } else if k > i {
        assert(!p(s[i]));
    }
}

/// `first_index` finds nothing when no element satisfies `p`.
pub proof fn lemma_first_index_none<T>(s: Seq<T>, p: spec_fn(T) -> bool)
    requires
        forall|j: int| 0 <= j < s.len() ==> !p(s[j]),
    ensures
        first_index(s, p) == None::<int>,
{
}

} // verus!
