//! Template rendering shared by branch names, PR titles and bodies, and the
//! environment of commands and hooks.
//!
//! Two forms are supported:
//!   `{variable}`                  substitute the value directly;
//!   `{variable: 'fmt with $1'}`   if the value is non-empty, emit the format
//!                                 with `$1` replaced by it; else emit nothing.
use vstd::prelude::*;
use crate::text::{
    chars_of, CharClass, find_char, find_char_from, find_seq_from, is_first_char,
    lemma_find_char_is, lemma_find_char_none, lemma_find_char_props, lemma_find_seq_props,
    lemma_find_seq_is, lemma_find_seq_none, lemma_strip_noop, is_first_occurrence, occurs_at,
    is_white, push_all, push_range, replace_all, strip, strip_range, string_of_all, trim,
};

verus! {

// ── Variables ───────────────────────────────────────────────────────────────

/// The variables a template is rendered with: a finite map from names to values.
pub struct TemplateVars {
    entries: Vec<(Vec<char>, Vec<char>)>,
}

/// Some entry of `e` has key `k`.
pub open spec fn has_key(e: Seq<(Vec<char>, Vec<char>)>, k: Seq<char>) -> bool {
    exists|i: int| 0 <= i < e.len() && e[i].0@ == k
}

/// No two entries share a key.
pub open spec fn keys_unique(e: Seq<(Vec<char>, Vec<char>)>) -> bool {
    forall|i: int, j: int| 0 <= i < e.len() && 0 <= j < e.len() && i != j ==> e[i].0@ != e[j].0@
}

/// The map that a list of entries with unique keys stands for.
pub open spec fn entries_map(e: Seq<(Vec<char>, Vec<char>)>) -> Map<Seq<char>, Seq<char>> {
    Map::new(
        |k: Seq<char>| has_key(e, k),
        |k: Seq<char>| e[choose|i: int| 0 <= i < e.len() && e[i].0@ == k].1@,
    )
}

/// In a list with unique keys, the map holds each entry's value under its key.
pub proof fn lemma_entries_map_at(e: Seq<(Vec<char>, Vec<char>)>, i: int)
    requires
        keys_unique(e),
        0 <= i < e.len(),
    ensures
        entries_map(e).contains_key(e[i].0@),
        entries_map(e)[e[i].0@] == e[i].1@,
{
    let k = e[i].0@;
    assert(has_key(e, k));
    let j = choose|j: int| 0 <= j < e.len() && e[j].0@ == k;
    assert(j == i);
}

impl View for TemplateVars {
    type V = Map<Seq<char>, Seq<char>>;

    closed spec fn view(&self) -> Map<Seq<char>, Seq<char>> {
        entries_map(self.entries@)
    }
}

/// Two character vectors hold the same characters.
pub fn chars_equal(a: &Vec<char>, b: &Vec<char>) -> (r: bool)
    ensures
        r == (a@ == b@),
{
    if a.len() != b.len() {
        return false;
    }
    let mut i: usize = 0;
    while i < a.len()
        invariant
            a@.len() == b@.len(),
            i <= a@.len(),
            forall|j: int| 0 <= j < i ==> a@[j] == b@[j],
        decreases a.len() - i,
    {
        if a[i] != b[i] {
            return false;
        }
        i += 1;
    }
    assert(a@ =~= b@);
    true
}

impl TemplateVars {
    #[verifier::type_invariant]
    closed spec fn inv(self) -> bool {
        keys_unique(self.entries@)
    }

    /// No variables.
    pub fn new() -> (r: TemplateVars)
        ensures
            r@ == Map::<Seq<char>, Seq<char>>::empty(),
    {
        let r = TemplateVars { entries: Vec::new() };
        assert(r@ =~= Map::<Seq<char>, Seq<char>>::empty());
        r
    }

    /// Index of the entry with key `key`.
    fn index_of(&self, key: &Vec<char>) -> (r: Option<usize>)
        ensures
            match r {
                Some(i) => i < self.entries@.len() && self.entries@[i as int].0@ == key@,
                None => !has_key(self.entries@, key@),
            },
    {
        let mut i: usize = 0;
        while i < self.entries.len()
            invariant
                i <= self.entries@.len(),
                forall|j: int| 0 <= j < i ==> self.entries@[j].0@ != key@,
            decreases self.entries.len() - i,
        {
            if chars_equal(&self.entries[i].0, key) {
                return Some(i);
            }
            i += 1;
        }
        None
    }

    /// Sets `key` to `value`, replacing any earlier value of `key`.
    pub fn insert_chars(&mut self, key: Vec<char>, value: Vec<char>)
        ensures
            final(self)@ == old(self)@.insert(key@, value@),
    {
        proof {
            use_type_invariant(&*self);
        }
        let ghost old_e = self.entries@;
        let ghost k = key@;
        let ghost v = value@;
        match self.index_of(&key) {
            Some(i) => {
                let mut entries: Vec<(Vec<char>, Vec<char>)> = Vec::new();
                std::mem::swap(&mut entries, &mut self.entries);
                entries.set(i, (key, value));
                proof {
                    let e = entries@;
                    assert(keys_unique(e)) by {
                        assert forall|a: int, b: int|
                            0 <= a < e.len() && 0 <= b < e.len() && a != b implies e[a].0@
                            != e[b].0@ by {
                            if a != i && b != i {
                                assert(e[a] == old_e[a] && e[b] == old_e[b]);
                            } else if a == i {
                                assert(e[b] == old_e[b]);
                                assert(old_e[i as int].0@ == k);
                            } else {
                                assert(e[a] == old_e[a]);
                                assert(old_e[i as int].0@ == k);
                            }
                        }
                    }
                    assert forall|kk: Seq<char>| has_key(e, kk) == (kk == k || has_key(old_e, kk)) by {
                        if has_key(old_e, kk) {
                            let j = choose|j: int| 0 <= j < old_e.len() && old_e[j].0@ == kk;
                            if j == i {
                                assert(e[i as int].0@ == kk);
                            } else {
                                assert(e[j] == old_e[j]);
                            }
                        }
                        if has_key(e, kk) {
                            let j = choose|j: int| 0 <= j < e.len() && e[j].0@ == kk;
                            if j != i {
                                assert(e[j] == old_e[j]);
                            }
                        }
                        if kk == k {
                            assert(e[i as int].0@ == kk);
                        }
                    }
                    assert forall|kk: Seq<char>| #[trigger] has_key(e, kk) implies entries_map(e)[kk]
                        == entries_map(old_e).insert(k, v)[kk] by {
                        let j = choose|j: int| 0 <= j < e.len() && e[j].0@ == kk;
                        lemma_entries_map_at(e, j);
                        if j != i {
                            assert(e[j] == old_e[j]);
                            lemma_entries_map_at(old_e, j);
                        }
                    }
                    assert(entries_map(e) =~= entries_map(old_e).insert(k, v));
                }
                self.entries = entries;
            },
            None => {
                let mut entries: Vec<(Vec<char>, Vec<char>)> = Vec::new();
                std::mem::swap(&mut entries, &mut self.entries);
                entries.push((key, value));
                proof {
                    let e = entries@;
                    let n = old_e.len() as int;
                    assert(keys_unique(e)) by {
                        assert forall|a: int, b: int|
                            0 <= a < e.len() && 0 <= b < e.len() && a != b implies e[a].0@
                            != e[b].0@ by {
                            if a < n && b < n {
                                assert(e[a] == old_e[a] && e[b] == old_e[b]);
                            } else if a == n {
                                assert(e[b] == old_e[b]);
                            } else {
                                assert(e[a] == old_e[a]);
                            }
                        }
                    }
                    assert forall|kk: Seq<char>| has_key(e, kk) == (kk == k || has_key(old_e, kk)) by {
                        if has_key(old_e, kk) {
                            let j = choose|j: int| 0 <= j < old_e.len() && old_e[j].0@ == kk;
                            assert(e[j] == old_e[j]);
                        }
                        if has_key(e, kk) {
                            let j = choose|j: int| 0 <= j < e.len() && e[j].0@ == kk;
                            if j < n {
                                assert(e[j] == old_e[j]);
                            }
                        }
                        if kk == k {
                            assert(e[n].0@ == kk);
                        }
                    }
                    assert forall|kk: Seq<char>| #[trigger] has_key(e, kk) implies entries_map(e)[kk]
                        == entries_map(old_e).insert(k, v)[kk] by {
                        let j = choose|j: int| 0 <= j < e.len() && e[j].0@ == kk;
                        lemma_entries_map_at(e, j);
                        if j < n {
                            assert(e[j] == old_e[j]);
                            lemma_entries_map_at(old_e, j);
                        }
                    }
                    assert(entries_map(e) =~= entries_map(old_e).insert(k, v));
                }
                self.entries = entries;
            },
        }
    }

    /// Sets `key` to `value`, replacing any earlier value of `key`.
    pub fn insert(&mut self, key: &str, value: &str)
        ensures
            final(self)@ == old(self)@.insert(key@, value@),
    {
        let k = chars_of(key);
        let v = chars_of(value);
        self.insert_chars(k, v);
    }

    /// The value of `key`, or the empty sequence when `key` is not set.
    pub fn lookup_chars(&self, key: &Vec<char>) -> (r: Vec<char>)
        ensures
            r@ == lookup(self@, key@),
    {
        proof {
            use_type_invariant(self);
        }
        match self.index_of(key) {
            Some(i) => {
                proof {
                    lemma_entries_map_at(self.entries@, i as int);
                }
                self.entries[i].1.clone()
            },
            None => Vec::new(),
        }
    }

    /// The value of `key`, if it is set.
    pub fn get(&self, key: &str) -> (r: Option<String>)
        ensures
            match r {
                Some(v) => self@.contains_key(key@) && v@ == self@[key@],
                None => !self@.contains_key(key@),
            },
    {
        proof {
            use_type_invariant(self);
        }
        let k = chars_of(key);
        match self.index_of(&k) {
            Some(i) => {
                proof {
                    lemma_entries_map_at(self.entries@, i as int);
                }
                Some(string_of_all(&self.entries[i].1))
            },
            None => None,
        }
    }
}

// ── Rendering ───────────────────────────────────────────────────────────────

/// The value of `k` in `m`, or the empty sequence when `k` is not set.
pub open spec fn lookup(m: Map<Seq<char>, Seq<char>>, k: Seq<char>) -> Seq<char> {
    if m.contains_key(k) {
        m[k]
    } else {
        Seq::empty()
    }
}

/// `$1`, the placeholder of a conditional format.
pub open spec fn dollar_one() -> Seq<char> {
    seq!['$', '1']
}

/// What the text between a `{` and its `}` renders to.
pub open spec fn expand(inner: Seq<char>, m: Map<Seq<char>, Seq<char>>) -> Seq<char> {
    match find_char(inner, ':') {
        Some(c) => {
            let value = lookup(m, trim(inner.take(c)));
            if value.len() > 0 {
                replace_all(strip(trim(inner.skip(c + 1)), CharClass::Quote), dollar_one(), value)
            } else {
                Seq::empty()
            }
        },
        None => lookup(m, trim(inner)),
    }
}

/// The rendering of template `t` with variables `m`: text outside braces is
/// copied, each `{...}` is expanded, and a `{` with no `}` after it is copied.
pub open spec fn render(t: Seq<char>, m: Map<Seq<char>, Seq<char>>) -> Seq<char>
    decreases t.len(),
{
    match find_char(t, '{') {
        Some(s) => {
            let rest = t.skip(s + 1);
            match find_char(rest, '}') {
                Some(e) => {
                    proof {
                        lemma_find_char_props(t, '{');
                        lemma_find_char_props(rest, '}');
                    }
                    t.take(s) + expand(rest.take(e), m) + render(rest.skip(e + 1), m)
                },
                None => {
                    proof {
                        lemma_find_char_props(t, '{');
                    }
                    t.take(s) + seq!['{'] + render(rest, m)
                },
            }
        },
        None => t,
    }
}

/// `str::replace` with a non-empty pattern, on character vectors.
pub fn replace_all_vec(s: &Vec<char>, p: &Vec<char>, r: &Vec<char>) -> (out: Vec<char>)
    requires
        p@.len() > 0,
    ensures
        out@ == replace_all(s@, p@, r@),
{
    let mut out: Vec<char> = Vec::new();
    let mut pos: usize = 0;
    let n = s.len();
    assert(s@.skip(0) =~= s@);
    loop
        invariant
            p@.len() > 0,
            n == s@.len(),
            pos <= s@.len(),
            replace_all(s@, p@, r@) == out@ + replace_all(s@.skip(pos as int), p@, r@),
        decreases s@.len() - pos,
    {
        let ghost rest = s@.skip(pos as int);
        match find_seq_from(s, p, pos) {
            Some(i) => {
                proof {
                    lemma_find_seq_props(rest, p@);
                    assert(i + p@.len() <= rest.len());
                    assert(rest.take(i as int) =~= s@.subrange(pos as int, pos + i));
                    assert(rest.skip(i + p@.len()) =~= s@.skip(pos + i + p@.len()));
                }
                push_range(&mut out, s, pos, pos + i);
                push_all(&mut out, r);
                pos = pos + i + p.len();
            },
            None => {
                push_range(&mut out, s, pos, s.len());
                assert(s@.subrange(pos as int, s@.len() as int) =~= rest);
                return out;
            },
        }
    }
}

/// What the text `v[from..to]` between a `{` and its `}` renders to.
fn expand_range(v: &Vec<char>, from: usize, to: usize, vars: &TemplateVars) -> (r: Vec<char>)
    requires
        from <= to <= v@.len(),
    ensures
        r@ == expand(v@.subrange(from as int, to as int), vars@),
{
    let ghost inner = v@.subrange(from as int, to as int);
    let colon = find_char_from(v, ':', from);
    let ghost after = v@.skip(from as int);
    match colon {
        Some(c) => {
            proof {
                lemma_find_char_props(after, ':');
            }
            if c < to - from {
                proof {
                    assert(is_first_char(inner, ':', c as int));
                    lemma_find_char_is(inner, ':', c as int);
                    assert(inner.take(c as int) =~= v@.subrange(from as int, from + c));
                    assert(inner.skip(c + 1) =~= v@.subrange(from + c + 1, to as int));
                }
                let name = strip_range(v, from, from + c, CharClass::White);
                let value = vars.lookup_chars(&name);
                if value.len() > 0 {
                    let trimmed = strip_range(v, from + c + 1, to, CharClass::White);
                    let fmt = strip_range(&trimmed, 0, trimmed.len(), CharClass::Quote);
                    assert(trimmed@.subrange(0, trimmed@.len() as int) =~= trimmed@);
                    let mut dollar: Vec<char> = Vec::new();
                    dollar.push('$');
                    dollar.push('1');
                    assert(dollar@ =~= dollar_one());
                    replace_all_vec(&fmt, &dollar, &value)
                } else {
                    Vec::new()
                }
            } else {
                proof {
                    assert forall|j: int| 0 <= j < inner.len() implies inner[j] != ':' by {
                        assert(inner[j] == after[j]);
                    }
                    lemma_find_char_none(inner, ':');
                }
                let name = strip_range(v, from, to, CharClass::White);
                vars.lookup_chars(&name)
            }
        },
        None => {
            proof {
                lemma_find_char_props(after, ':');
                assert forall|j: int| 0 <= j < inner.len() implies inner[j] != ':' by {
                    assert(inner[j] == after[j]);
                }
                lemma_find_char_none(inner, ':');
            }
            let name = strip_range(v, from, to, CharClass::White);
            vars.lookup_chars(&name)
        },
    }
}

/// Renders `template` with `vars` (see [`render`]).
pub fn render_template(template: &str, vars: &TemplateVars) -> (out: String)
    ensures
        out@ == render(template@, vars@),
{
    let t = chars_of(template);
    let n = t.len();
    let mut out: Vec<char> = Vec::new();
    let mut pos: usize = 0;
    assert(t@.skip(0) =~= t@);
    loop
        invariant
            n == t@.len(),
            pos <= t@.len(),
            t@ == template@,
            render(t@, vars@) == out@ + render(t@.skip(pos as int), vars@),
        decreases t@.len() - pos,
    {
        let ghost rest = t@.skip(pos as int);
        match find_char_from(&t, '{', pos) {
            None => {
                push_range(&mut out, &t, pos, t.len());
                assert(t@.subrange(pos as int, t@.len() as int) =~= rest);
                return string_of_all(&out);
            },
            Some(s) => {
                proof {
                    lemma_find_char_props(rest, '{');
                    assert(s < rest.len());
                    assert(rest.take(s as int) =~= t@.subrange(pos as int, pos + s));
                    assert(rest.skip(s + 1) =~= t@.skip(pos + s + 1));
                }
                push_range(&mut out, &t, pos, pos + s);
                let start = pos + s + 1;
                let ghost after = t@.skip(start as int);
                match find_char_from(&t, '}', start) {
                    None => {
                        out.push('{');
                        pos = start;
                    },
                    Some(e) => {
                        proof {
                            lemma_find_char_props(after, '}');
                            assert(after.take(e as int) =~= t@.subrange(
                                start as int,
                                start + e,
                            ));
                            assert(after.skip(e + 1) =~= t@.skip(start + e + 1));
                        }
                        let expanded = expand_range(&t, start, start + e, vars);
                        push_all(&mut out, &expanded);
                        pos = start + e + 1;
                    },
                }
            },
        }
    }
}

// ── Escapes ─────────────────────────────────────────────────────────────────

/// The character an escape `\x` stands for, when `x` is one of `n t r \`.
pub open spec fn escaped(c: char) -> Option<char> {
    if c == 'n' {
        Some('\n')
    } else if c == 't' {
        Some('\t')
    } else if c == 'r' {
        Some('\r')
    } else if c == '\\' {
        Some('\\')
    } else {
        None
    }
}

/// `s` with each escape `\n`, `\t`, `\r`, `\\` replaced by the character it
/// stands for, read from the left; any other backslash is kept as it is.
pub open spec fn unescaped(s: Seq<char>) -> Seq<char>
    decreases s.len(),
{
    if s.len() == 0 {
        s
    } else if s[0] == '\\' && s.len() >= 2 && escaped(s[1]) is Some {
        seq![escaped(s[1])->0] + unescaped(s.skip(2))
    } else {
        seq![s[0]] + unescaped(s.skip(1))
    }
}

/// Processes the escape sequences that YAML block scalars keep literally.
pub fn unescape(s: &str) -> (out: String)
    ensures
        out@ == unescaped(s@),
{
    let v = chars_of(s);
    let mut out: Vec<char> = Vec::new();
    let mut i: usize = 0;
    assert(v@.skip(0) =~= v@);
    while i < v.len()
        invariant
            i <= v@.len(),
            v@ == s@,
            unescaped(v@) == out@ + unescaped(v@.skip(i as int)),
        decreases v@.len() - i,
    {
        let ghost rest = v@.skip(i as int);
        let c = v[i];
        let mut step: usize = 1;
        if c == '\\' && i + 1 < v.len() {
            let n = v[i + 1];
            if n == 'n' {
                out.push('\n');
                step = 2;
            } else if n == 't' {
                out.push('\t');
                step = 2;
            } else if n == 'r' {
                out.push('\r');
                step = 2;
            } else if n == '\\' {
                out.push('\\');
                step = 2;
            } else {
                out.push(c);
            }
        } else {
            out.push(c);
        }
        proof {
            assert(rest[0] == c);
            if i + 1 < v@.len() {
                assert(rest[1] == v@[i + 1]);
            }
            assert(rest.skip(step as int) =~= v@.skip(i + step));
        }
        i = i + step;
    }
    string_of_all(&out)
}

// ── Laws of rendering ───────────────────────────────────────────────────────

/// Text without `{` renders as itself, whatever the variables.
pub proof fn lemma_render_plain(t: Seq<char>, m: Map<Seq<char>, Seq<char>>)
    requires
        forall|j: int| 0 <= j < t.len() ==> t[j] != '{',
    ensures
        render(t, m) == t,
{
    lemma_find_char_none(t, '{');
}

/// A placeholder that follows text without `{` is expanded in place, and the
/// rest is rendered on its own.
pub proof fn lemma_render_placeholder(
    a: Seq<char>,
    n: Seq<char>,
    rest: Seq<char>,
    m: Map<Seq<char>, Seq<char>>,
)
    requires
        forall|j: int| 0 <= j < a.len() ==> a[j] != '{',
        forall|j: int| 0 <= j < n.len() ==> n[j] != '}',
    ensures
        render(a + seq!['{'] + n + seq!['}'] + rest, m) == a + expand(n, m) + render(rest, m),
{
    let t = a + seq!['{'] + n + seq!['}'] + rest;
    assert(t[a.len() as int] == '{');
    assert forall|j: int| 0 <= j < a.len() implies t[j] != '{' by {
        assert(t[j] == a[j]);
    }
    assert(is_first_char(t, '{', a.len() as int));
    lemma_find_char_is(t, '{', a.len() as int);
    let r = t.skip(a.len() as int + 1);
    assert(r =~= n + seq!['}'] + rest);
    assert(r[n.len() as int] == '}');
    assert forall|j: int| 0 <= j < n.len() implies r[j] != '}' by {
        assert(r[j] == n[j]);
    }
    assert(is_first_char(r, '}', n.len() as int));
    lemma_find_char_is(r, '}', n.len() as int);
    assert(t.take(a.len() as int) =~= a);
    assert(r.take(n.len() as int) =~= n);
    assert(r.skip(n.len() as int + 1) =~= rest);
}

/// A bare name, with no `:` and no white space at either end, expands to
/// its value (empty when unset).
pub proof fn lemma_expand_name(n: Seq<char>, m: Map<Seq<char>, Seq<char>>)
    requires
        forall|j: int| 0 <= j < n.len() ==> n[j] != ':',
        n.len() > 0 ==> !is_white(n[0]) && !is_white(n.last()),
    ensures
        expand(n, m) == lookup(m, n),
{
    lemma_find_char_none(n, ':');
    lemma_strip_noop(n, CharClass::White);
}

/// `-$1` with `$1` replaced by `v` is `-` followed by `v`.
pub proof fn lemma_replace_dash_dollar(v: Seq<char>)
    ensures
        replace_all(seq!['-', '$', '1'], dollar_one(), v) == seq!['-'] + v,
{
    let s = seq!['-', '$', '1'];
    let p = dollar_one();
    assert(s.subrange(1, 3) =~= p);
    assert(occurs_at(s, p, 1));
    assert(!occurs_at(s, p, 0)) by {
        assert(s.subrange(0, 2)[0] != p[0]);
    }
    assert(is_first_occurrence(s, p, 1));
    lemma_find_seq_is(s, p, 1);
    let e = s.skip(3);
    assert(e =~= Seq::<char>::empty());
    assert forall|j: int| !occurs_at(e, p, j) by {}
    lemma_find_seq_none(e, p);
    assert(replace_all(e, p, v) == e);
    assert(s.take(1) =~= seq!['-']);
    assert(seq!['-'] + v + e =~= seq!['-'] + v);
}

/// A text with no backslash is its own unescaping.
pub proof fn lemma_unescape_plain(s: Seq<char>)
    requires
        forall|j: int| 0 <= j < s.len() ==> s[j] != '\\',
    ensures
        unescaped(s) == s,
    decreases s.len(),
{
    if s.len() > 0 {
        assert forall|j: int| 0 <= j < s.skip(1).len() implies s.skip(1)[j] != '\\' by {
            assert(s.skip(1)[j] == s[j + 1]);
        }
        lemma_unescape_plain(s.skip(1));
        assert(seq![s[0]] + s.skip(1) =~= s);
    }
}

// ── Asked values ────────────────────────────────────────────────────────────

/// `m` with each asked value `(k, v)` set as `ask.k`, later ones replacing earlier ones.
pub open spec fn with_asks(m: Map<Seq<char>, Seq<char>>, asks: Seq<(String, String)>) -> Map<
    Seq<char>,
    Seq<char>,
>
    decreases asks.len(),
{
    if asks.len() == 0 {
        m
    } else {
        with_asks(m, asks.drop_last()).insert("ask."@ + asks.last().0@, asks.last().1@)
    }
}

/// Setting asked values leaves every variable whose name does not start
/// with `ask.` as it was.
pub proof fn lemma_with_asks_keeps(m: Map<Seq<char>, Seq<char>>, asks: Seq<(String, String)>, k: Seq<char>)
    requires
        !(k.len() >= 4 && k.take(4) == "ask."@),
    ensures
        lookup(with_asks(m, asks), k) == lookup(m, k),
    decreases asks.len(),
{
    if asks.len() > 0 {
        lemma_with_asks_keeps(m, asks.drop_last(), k);
        reveal_strlit("ask.");
        let a = "ask."@ + asks.last().0@;
        assert(a.take(4) =~= "ask."@);
        assert(a != k);
    }
}

/// A template that is one placeholder `{name}` renders to the value of
/// `name` (empty when unset), for a name without `:`, `}` or white space at
/// either end.
pub proof fn lemma_render_lone_placeholder(n: Seq<char>, m: Map<Seq<char>, Seq<char>>)
    requires
        forall|j: int| 0 <= j < n.len() ==> n[j] != '}' && n[j] != ':',
        n.len() > 0 ==> !is_white(n[0]) && !is_white(n.last()),
    ensures
        render(seq!['{'] + n + seq!['}'], m) == lookup(m, n),
{
    let e = Seq::<char>::empty();
    lemma_render_placeholder(e, n, e, m);
    assert(e + seq!['{'] + n + seq!['}'] + e =~= seq!['{'] + n + seq!['}']);
    lemma_expand_name(n, m);
    assert(find_char(e, '{') is None) by {
        lemma_find_char_none(e, '{');
    }
    assert(render(e, m) == e);
    assert(e + lookup(m, n) + e =~= lookup(m, n));
}

impl TemplateVars {
    /// Sets `ask.<key>` to the value of each asked value, in order.
    pub fn insert_asks(&mut self, asks: &Vec<(String, String)>)
        ensures
            final(self)@ == with_asks(old(self)@, asks@),
    {
        let ghost start = self@;
        let mut i: usize = 0;
        while i < asks.len()
            invariant
                i <= asks@.len(),
                self@ == with_asks(start, asks@.take(i as int)),
            decreases asks.len() - i,
        {
            let mut key = chars_of("ask.");
            let name = chars_of(asks[i].0.as_str());
            crate::text::push_all(&mut key, &name);
            let value = chars_of(asks[i].1.as_str());
            self.insert_chars(key, value);
            proof {
                assert(asks@.take(i + 1).drop_last() =~= asks@.take(i as int));
                assert(asks@.take(i + 1).last() == asks@[i as int]);
            }
            i += 1;
        }
        assert(asks@.take(asks@.len() as int) =~= asks@);
    }
}

/// A placeholder naming a variable that is not set renders as nothing.
pub proof fn lemma_missing_variable_renders_empty(
    a: Seq<char>,
    n: Seq<char>,
    rest: Seq<char>,
    m: Map<Seq<char>, Seq<char>>,
)
    requires
        forall|j: int| 0 <= j < a.len() ==> a[j] != '{',
        forall|j: int| 0 <= j < n.len() ==> n[j] != '}' && n[j] != ':',
        n.len() > 0 ==> !is_white(n[0]) && !is_white(n.last()),
        !m.contains_key(n),
    ensures
        render(a + seq!['{'] + n + seq!['}'] + rest, m) == a + render(rest, m),
{
    lemma_render_placeholder(a, n, rest, m);
    lemma_expand_name(n, m);
    assert(a + Seq::<char>::empty() + render(rest, m) =~= a + render(rest, m));
}

/// A conditional placeholder `{name: fmt}` renders as nothing when its
/// variable is unset or empty, and as the format with `$1` replaced by the
/// value otherwise.
pub proof fn lemma_conditional_placeholder(
    n: Seq<char>,
    f: Seq<char>,
    m: Map<Seq<char>, Seq<char>>,
)
    requires
        forall|j: int| 0 <= j < n.len() ==> n[j] != ':',
    ensures
        expand(n + seq![':'] + f, m) == if lookup(m, trim(n)).len() == 0 {
            Seq::<char>::empty()
        } else {
            replace_all(strip(trim(f), CharClass::Quote), dollar_one(), lookup(m, trim(n)))
        },
{
    let inner = n + seq![':'] + f;
    assert forall|j: int| 0 <= j < n.len() implies inner[j] != ':' by {
        assert(inner[j] == n[j]);
    }
    assert(inner[n.len() as int] == ':');
    assert(is_first_char(inner, ':', n.len() as int));
    lemma_find_char_is(inner, ':', n.len() as int);
    assert(inner.take(n.len() as int) =~= n);
    assert(inner.skip(n.len() as int + 1) =~= f);
}

/// A `{` with no `}` after it is copied as it is, and what follows it is
/// rendered on its own.
pub proof fn lemma_unclosed_brace_kept(a: Seq<char>, rest: Seq<char>, m: Map<Seq<char>, Seq<char>>)
    requires
        forall|j: int| 0 <= j < a.len() ==> a[j] != '{',
        forall|j: int| 0 <= j < rest.len() ==> rest[j] != '}',
    ensures
        render(a + seq!['{'] + rest, m) == a + seq!['{'] + render(rest, m),
{
    let t = a + seq!['{'] + rest;
    assert(t[a.len() as int] == '{');
    assert forall|j: int| 0 <= j < a.len() implies t[j] != '{' by {
        assert(t[j] == a[j]);
    }
    assert(is_first_char(t, '{', a.len() as int));
    lemma_find_char_is(t, '{', a.len() as int);
    assert(t.skip(a.len() as int + 1) =~= rest);
    lemma_find_char_none(rest, '}');
    assert(t.take(a.len() as int) =~= a);
}

/// A backslash before anything but `n`, `t`, `r` or another backslash is kept.
pub proof fn lemma_unknown_escape_kept(c: char, rest: Seq<char>)
    requires
        escaped(c) is None,
    ensures
        unescaped(seq!['\\', c] + rest) == seq!['\\'] + unescaped(seq![c] + rest),
{
    let s = seq!['\\', c] + rest;
    assert(s[0] == '\\' && s[1] == c);
    assert(s.skip(1) =~= seq![c] + rest);
}

} // verus!
