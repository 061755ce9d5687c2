//! The logic of `fi pr` and `fi sync`: reading a branch name back into its
//! parts, the PR state reported by `gh`, what each target needs, and the
//! variables PR templates are rendered with.
use vstd::prelude::*;
use crate::template::{dollar_one, render, render_template, unescape, unescaped, with_asks, TemplateVars};
use crate::config::{
    branch_format_of, format_of, join_path, opt_view, path_join, CommonConfig, RepoConfig, RepoType,
    branch_vars, conflict_branch_format, default_branch_format, lemma_conflict_format_renders,
    lemma_default_format_renders,
};
use crate::text::{
    chars_of, find_char, find_char_from, find_seq, find_seq_from, is_first_char, join, join_vecs,
    lemma_find_char_is, lemma_find_char_props, lemma_find_seq_props, lemma_find_seq_is,
    lemma_find_seq_none, is_first_occurrence, occurs_at, strip_end, push_all, slice_of,
    strip, strip_range, strip_start, string_of, string_of_all, trim, vec_eq, vec_views,
    CharClass, str_eq, spec_to_uppercase, to_uppercase, split_on, split_vec, starts_with_seq, first_index, is_first_index, lemma_first_index_is, lemma_first_index_none,
    spec_to_lowercase, to_lowercase, lemma_split_nonempty,
};

verus! {

// ── Branch parsing ──────────────────────────────────────────────────────────

/// The parts of a branch name.
#[derive(Clone, Debug)]
pub struct BranchInfo {
    /// e.g. "fix"
    pub prefix: String,
    /// e.g. "CAPY-1234"
    pub ticket: String,
    /// e.g. "some-feature"
    pub slug: String,
    /// e.g. "Some Feature"
    pub pretty_title: String,
    /// Set when this is a conflict branch (e.g. "DEVELOP").
    pub conflict_base: Option<String>,
}

impl BranchInfo {
    /// A copy holding the same parts and title.
    pub fn duplicate(&self) -> (r: BranchInfo)
        ensures
            branch_parts(r) == branch_parts(*self),
            r.pretty_title@ == self.pretty_title@,
    {
        let conflict_base = match &self.conflict_base {
            Some(c) => Some(c.clone()),
            None => None,
        };
        BranchInfo {
            prefix: self.prefix.clone(),
            ticket: self.ticket.clone(),
            slug: self.slug.clone(),
            pretty_title: self.pretty_title.clone(),
            conflict_base,
        }
    }
}

/// An ASCII capital letter.
pub open spec fn is_upper(c: char) -> bool {
    'A' <= c && c <= 'Z'
}

/// An ASCII digit.
pub open spec fn is_digit(c: char) -> bool {
    '0' <= c && c <= '9'
}

/// A capital letter, or a digit when `digits` holds.
pub open spec fn run_class(digits: bool, c: char) -> bool {
    if digits { is_digit(c) } else { is_upper(c) }
}

/// The number of leading characters of `s` in the run class.
pub open spec fn run_len(s: Seq<char>, digits: bool) -> nat
    decreases s.len(),
{
    if s.len() > 0 && run_class(digits, s[0]) {
        1 + run_len(s.skip(1), digits)
    } else {
        0
    }
}

/// The end of the ticket key (`PROJECT-1234`: capitals, `-`, digits) that
/// starts `s`, or `None` when `s` does not start with one.
pub open spec fn ticket_end(s: Seq<char>) -> Option<int> {
    let i = run_len(s, false) as int;
    if i == 0 || i >= s.len() || s[i] != '-' {
        None
    } else {
        let d = run_len(s.skip(i + 1), true) as int;
        if d == 0 {
            None
        } else {
            Some(i + 1 + d)
        }
    }
}

/// The tag that opens the conflict-base clause of a branch format.
pub open spec fn cb_tag() -> Seq<char> {
    "{conflictBase:"@
}

/// The text that precedes `$1` in the `{conflictBase: '...'}` clause of the
/// format `f`, or `None` when `f` has no such clause.
pub open spec fn conflict_sep(f: Seq<char>) -> Option<Seq<char>> {
    match find_seq(f, cb_tag()) {
        Some(a) => {
            let rest = f.skip(a + cb_tag().len());
            match find_char(rest, '}') {
                Some(c) => {
                    let inner = strip(trim(rest.take(c)), CharClass::Quote);
                    match find_seq(inner, dollar_one()) {
                        Some(d) => Some(inner.take(d)),
                        None => None,
                    }
                },
                None => None,
            }
        },
        None => None,
    }
}

/// The number of capital letters in `w`.
pub open spec fn upper_count(w: Seq<char>) -> nat
    decreases w.len(),
{
    if w.len() == 0 {
        0
    } else {
        upper_count(w.drop_last()) + if is_upper(w.last()) {
            1nat
        } else {
            0nat
        }
    }
}

/// At least two capital letters, every character a capital letter or `_`.
pub open spec fn all_caps_word(w: Seq<char>) -> bool {
    upper_count(w) >= 2 && forall|i: int| 0 <= i < w.len() ==> is_upper(w[i]) || w[i] == '_'
}

/// What follows the ticket, read as an optional conflict base and the slug,
/// given the separator that precedes the conflict base in the format.
pub open spec fn split_conflict(at: Seq<char>, sep: Option<Seq<char>>) -> (Option<Seq<char>>, Seq<char>) {
    match sep {
        Some(p) => if starts_with_seq(at, p) {
            let rest = at.skip(p.len() as int);
            match find_char(rest, '-') {
                Some(d) => if rest.skip(d + 1).len() > 0 && all_caps_word(rest.take(d)) {
                    (Some(rest.take(d)), rest.skip(d + 1))
                } else {
                    (None, rest)
                },
                None => (None, rest),
            }
        } else {
            (None, strip_start(at, CharClass::Dash))
        },
        None => (None, strip_start(at, CharClass::Dash)),
    }
}

/// The branch `b` read with the format `f`: prefix (before the first `/`),
/// ticket key, slug and conflict base; `None` when `b` has no `/` or no
/// ticket key right after it.
pub open spec fn parse_spec(b: Seq<char>, f: Seq<char>) -> Option<
    (Seq<char>, Seq<char>, Seq<char>, Option<Seq<char>>),
> {
    match find_char(b, '/') {
        Some(sl) => {
            let after = b.skip(sl + 1);
            match ticket_end(after) {
                Some(te) => {
                    let parts = split_conflict(after.skip(te), conflict_sep(f));
                    Some((b.take(sl), after.take(te), parts.1, parts.0))
                },
                None => None,
            }
        },
        None => None,
    }
}

/// The view of an optional string.
pub open spec fn opt_string_view(o: Option<String>) -> Option<Seq<char>> {
    match o {
        Some(s) => Some(s@),
        None => None,
    }
}

/// The parts a `BranchInfo` holds, without the title.
pub open spec fn branch_parts(b: BranchInfo) -> (Seq<char>, Seq<char>, Seq<char>, Option<Seq<char>>) {
    (b.prefix@, b.ticket@, b.slug@, opt_string_view(b.conflict_base))
}

/// A capital letter, or a digit when `digits` holds.
fn in_run_class(digits: bool, c: char) -> (r: bool)
    ensures
        r == run_class(digits, c),
{
    if digits {
        '0' <= c && c <= '9'
    } else {
        'A' <= c && c <= 'Z'
    }
}

/// The length of the run of `v[from..]` in the run class.
fn run_exec(v: &Vec<char>, from: usize, digits: bool) -> (k: usize)
    requires
        from <= v@.len(),
    ensures
        from <= k <= v@.len(),
        k - from == run_len(v@.skip(from as int), digits),
{
    let mut k = from;
    while k < v.len() && in_run_class(digits, v[k])
        invariant
            from <= k <= v@.len(),
            run_len(v@.skip(from as int), digits) == (k - from) + run_len(v@.skip(k as int), digits),
        decreases v.len() - k,
    {
        assert(v@.skip(k as int).skip(1) =~= v@.skip(k + 1));
        k += 1;
    }
    k
}

/// The end of the ticket key that starts `v` (see [`ticket_end`]).
fn ticket_end_index(v: &Vec<char>) -> (r: Option<usize>)
    ensures
        match r {
            Some(i) => ticket_end(v@) == Some(i as int) && i <= v@.len(),
            None => ticket_end(v@) is None,
        },
{
    assert(v@.skip(0) =~= v@);
    let i = run_exec(v, 0, false);
    if i == 0 || i >= v.len() || v[i] != '-' {
        return None;
    }
    let j = run_exec(v, i + 1, true);
    if j == i + 1 {
        return None;
    }
    Some(j)
}

/// The separator before `$1` in the conflict-base clause of `f` (see [`conflict_sep`]).
fn conflict_base_separator(f: &Vec<char>) -> (r: Option<Vec<char>>)
    ensures
        match r {
            Some(s) => conflict_sep(f@) == Some(s@),
            None => conflict_sep(f@) is None,
        },
{
    let tag = chars_of("{conflictBase:");
    let fl = f.len();
    assert(f@.skip(0) =~= f@);
    let a = match find_seq_from(f, &tag, 0) {
        Some(a) => a,
        None => return None,
    };
    proof {
        lemma_find_seq_props(f@, tag@);
        assert(a + tag@.len() <= fl);
    }
    let start = a + tag.len();
    let ghost rest = f@.skip(start as int);
    let c = match find_char_from(f, '}', start) {
        Some(c) => c,
        None => return None,
    };
    proof {
        lemma_find_char_props(rest, '}');
        assert(c < rest.len());
        assert(rest.take(c as int) =~= f@.subrange(start as int, start + c));
    }
    let trimmed = strip_range(f, start, start + c, CharClass::White);
    let inner = strip_range(&trimmed, 0, trimmed.len(), CharClass::Quote);
    assert(trimmed@.subrange(0, trimmed@.len() as int) =~= trimmed@);
    let mut dollar: Vec<char> = Vec::new();
    dollar.push('$');
    dollar.push('1');
    assert(dollar@ =~= dollar_one());
    assert(inner@.skip(0) =~= inner@);
    match find_seq_from(&inner, &dollar, 0) {
        Some(d) => {
            proof {
                lemma_find_seq_props(inner@, dollar@);
            }
            Some(slice_of(&inner, 0, d))
        },
        None => None,
    }
}

/// At least two capital letters, every character a capital letter or `_`.
fn is_all_caps_word(v: &Vec<char>, from: usize, to: usize) -> (r: bool)
    requires
        from <= to <= v@.len(),
    ensures
        r == all_caps_word(v@.subrange(from as int, to as int)),
{
    let ghost w = v@.subrange(from as int, to as int);
    let mut k = from;
    let mut n: usize = 0;
    while k < to
        invariant
            from <= k <= to <= v@.len(),
            w == v@.subrange(from as int, to as int),
            n == upper_count(w.take(k - from)),
            n <= k - from,
            forall|j: int| from <= j < k ==> is_upper(v@[j]) || v@[j] == '_',
        decreases to - k,
    {
        let c = v[k];
        assert(w[k - from] == c);
        if !(('A' <= c && c <= 'Z') || c == '_') {
            assert(!(is_upper(w[k - from]) || w[k - from] == '_'));
            return false;
        }
        assert(w.take(k - from + 1).drop_last() =~= w.take(k - from));
        assert(w.take(k - from + 1).last() == c);
        if 'A' <= c && c <= 'Z' {
            n += 1;
        }
        k += 1;
    }
    assert(w.take(to - from) =~= w);
    n >= 2
}

/// Index just past the leading `-` characters of `v`.
fn skip_dashes(v: &Vec<char>) -> (k: usize)
    ensures
        k <= v@.len(),
        strip_start(v@, CharClass::Dash) == v@.skip(k as int),
{
    let mut k: usize = 0;
    assert(v@.skip(0) =~= v@);
    while k < v.len() && v[k] == '-'
        invariant
            k <= v@.len(),
            strip_start(v@, CharClass::Dash) == strip_start(v@.skip(k as int), CharClass::Dash),
        decreases v.len() - k,
    {
        assert(v@.skip(k as int).skip(1) =~= v@.skip(k + 1));
        k += 1;
    }
    k
}

/// Splits what follows the ticket into conflict base and slug (see [`split_conflict`]).
fn split_conflict_exec(at: &Vec<char>, sep: &Option<Vec<char>>) -> (r: (Option<Vec<char>>, Vec<char>))
    ensures
        ({
            let s = split_conflict(at@, opt_vec_view(*sep));
            &&& s.1 == r.1@
            &&& match r.0 {
                Some(c) => s.0 == Some(c@),
                None => s.0 is None,
            }
        }),
{
    match sep {
        Some(p) => {
            let starts = p.len() <= at.len() && vec_eq(&slice_of(at, 0, p.len()), p);
            if starts {
                let ghost rest = at@.skip(p@.len() as int);
                let base = p.len();
                assert(at@.skip(base as int) =~= rest);
                match find_char_from(at, '-', base) {
                    Some(d) => {
                        proof {
                            lemma_find_char_props(rest, '-');
                            assert(rest.take(d as int) =~= at@.subrange(base as int, base + d));
                            assert(rest.skip(d + 1) =~= at@.skip(base + d + 1));
                        }
                        if base + d + 1 < at.len() && is_all_caps_word(at, base, base + d) {
                            (Some(slice_of(at, base, base + d)), slice_of(at, base + d + 1, at.len()))
                        } else {
                            (None, slice_of(at, base, at.len()))
                        }
                    },
                    None => (None, slice_of(at, base, at.len())),
                }
            } else {
                proof {
                    if p@.len() <= at@.len() {
                        assert(at@.take(p@.len() as int) =~= at@.subrange(0, p@.len() as int));
                    }
                }
                let k = skip_dashes(at);
                (None, slice_of(at, k, at.len()))
            }
        },
        None => {
            let k = skip_dashes(at);
            (None, slice_of(at, k, at.len()))
        },
    }
}

/// The view of an optional character vector.
pub open spec fn opt_vec_view(o: Option<Vec<char>>) -> Option<Seq<char>> {
    match o {
        Some(v) => Some(v@),
        None => None,
    }
}

/// Parses a branch name into its parts, guided by the configured branch format.
///
/// Normal feature branch: `fix/CAPY-1234-some-feature`
///   gives prefix `fix`, ticket `CAPY-1234`, slug `some-feature`, no conflict base.
///
/// Conflict branch: `fix/CAPY-1234-DEVELOP-some-feature`
///   gives prefix `fix`, ticket `CAPY-1234`, slug `some-feature`, conflict base `DEVELOP`.
///
/// Conflict detection is driven entirely by the `{conflictBase: '...'}` clause
/// of the format; a format without it never yields a conflict base.
pub fn parse_branch(branch: &str, branch_format: &str) -> (r: Option<BranchInfo>)
    ensures
        match r {
            Some(info) => parse_spec(branch@, branch_format@) == Some(branch_parts(info))
                && info.pretty_title@ == title_case(info.slug@),
            None => parse_spec(branch@, branch_format@) is None,
        },
{
    let b = chars_of(branch);
    let bl = b.len();
    assert(b@.skip(0) =~= b@);
    let slash = match find_char_from(&b, '/', 0) {
        Some(s) => s,
        None => return None,
    };
    proof {
        lemma_find_char_props(b@, '/');
        assert(slash < bl);
    }
    let prefix = string_of(&b, 0, slash);
    let after = slice_of(&b, slash + 1, b.len());
    assert(after@ =~= b@.skip(slash + 1));
    let te = match ticket_end_index(&after) {
        Some(t) => t,
        None => return None,
    };
    assert(te <= after@.len());
    let ticket = string_of(&after, 0, te);
    let at = slice_of(&after, te, after.len());
    assert(at@ =~= after@.skip(te as int));
    assert(ticket@ =~= after@.take(te as int));
    assert(prefix@ =~= b@.take(slash as int));
    let f = chars_of(branch_format);
    let sep = conflict_base_separator(&f);
    let (cb, slug) = split_conflict_exec(&at, &sep);
    let pretty_title = title_case_of(&slug);
    let conflict_base = match cb {
        Some(c) => Some(string_of_all(&c)),
        None => None,
    };
    Some(BranchInfo { prefix, ticket, slug: string_of_all(&slug), pretty_title, conflict_base })
}

// ── Titles ──────────────────────────────────────────────────────────────────

/// Words kept in lower case inside a title.
pub open spec fn is_minor(w: Seq<char>) -> bool {
    ||| w == "a"@
    ||| w == "an"@
    ||| w == "the"@
    ||| w == "in"@
    ||| w == "on"@
    ||| w == "at"@
    ||| w == "to"@
    ||| w == "by"@
    ||| w == "for"@
    ||| w == "of"@
    ||| w == "from"@
}

/// `char::to_ascii_uppercase`.
pub open spec fn ascii_upper(c: char) -> char {
    if 'a' <= c && c <= 'z' {
        ((c as int) - 32) as char
    } else {
        c
    }
}

/// `w` with its first character upper-cased when it is an ASCII letter.
pub open spec fn capitalize(w: Seq<char>) -> Seq<char> {
    if w.len() > 0 {
        w.update(0, ascii_upper(w[0]))
    } else {
        w
    }
}

/// Every character of `w` is a capital letter or a digit.
pub open spec fn upper_or_digits(w: Seq<char>) -> bool {
    forall|i: int| 0 <= i < w.len() ==> is_upper(w[i]) || is_digit(w[i])
}

/// How the `i`-th word of a slug appears in its title: acronyms and numbers
/// of two or more characters as they are, minor words after the first as
/// they are, any other word capitalized.
pub open spec fn title_word(w: Seq<char>, i: int) -> Seq<char> {
    if w.len() > 1 && upper_or_digits(w) {
        w
    } else if i > 0 && is_minor(w) {
        w
    } else {
        capitalize(w)
    }
}

/// The title of a slug: its `-`-separated words, each as [`title_word`] says,
/// joined with single spaces.
pub open spec fn title_case(slug: Seq<char>) -> Seq<char> {
    let ws = split_on(slug, '-');
    join(Seq::new(ws.len(), |i: int| title_word(ws[i], i)), seq![' '])
}

/// The lower-case words a title keeps after its first word.
fn is_minor_word(w: &Vec<char>) -> (r: bool)
    ensures
        r == is_minor(w@),
{
    vec_eq(w, &chars_of("a")) || vec_eq(w, &chars_of("an")) || vec_eq(w, &chars_of("the"))
        || vec_eq(w, &chars_of("in")) || vec_eq(w, &chars_of("on")) || vec_eq(w, &chars_of("at"))
        || vec_eq(w, &chars_of("to")) || vec_eq(w, &chars_of("by")) || vec_eq(
        w,
        &chars_of("for"),
    ) || vec_eq(w, &chars_of("of")) || vec_eq(w, &chars_of("from"))
}

/// `char::to_ascii_uppercase`.
fn ascii_upper_char(c: char) -> (r: char)
    ensures
        r == ascii_upper(c),
{
    if 'a' <= c && c <= 'z' {
        let b = c as u8;
        ((b - 32) as char)
    } else {
        c
    }
}

/// The title form of one word (see [`title_word`]).
fn title_word_exec(w: &Vec<char>, i: usize) -> (r: Vec<char>)
    ensures
        r@ == title_word(w@, i as int),
{
    let mut all = true;
    let mut k: usize = 0;
    while k < w.len()
        invariant
            k <= w@.len(),
            all == (forall|j: int| 0 <= j < k ==> is_upper(w@[j]) || is_digit(w@[j])),
        decreases w.len() - k,
    {
        let c = w[k];
        all = all && (('A' <= c && c <= 'Z') || ('0' <= c && c <= '9'));
        k += 1;
    }
    if w.len() > 1 && all {
        w.clone()
    } else if i > 0 && is_minor_word(w) {
        w.clone()
    } else if w.len() > 0 {
        let mut r = w.clone();
        let u = ascii_upper_char(w[0]);
        r.set(0, u);
        r
    } else {
        w.clone()
    }
}

/// The title of a slug (see [`title_case`]).
fn title_case_of(slug: &Vec<char>) -> (r: String)
    ensures
        r@ == title_case(slug@),
{
    let words = split_vec(slug, '-');
    let ghost ws = split_on(slug@, '-');
    let mut titled: Vec<Vec<char>> = Vec::new();
    let mut i: usize = 0;
    while i < words.len()
        invariant
            i <= words@.len(),
            vec_views(words@) == ws,
            titled@.len() == i,
            forall|j: int| 0 <= j < i ==> titled@[j]@ == title_word(ws[j], j),
        decreases words.len() - i,
    {
        let t = title_word_exec(&words[i], i);
        titled.push(t);
        i += 1;
    }
    let mut space: Vec<char> = Vec::new();
    space.push(' ');
    let joined = join_vecs(&titled, &space);
    assert(vec_views(titled@) =~= Seq::new(ws.len(), |i: int| title_word(ws[i], i)));
    string_of_all(&joined)
}

/// Converts a slug such as `fix-wy-claim-report` to a title such as
/// `Fix Wy Claim Report`.
pub fn to_title_case(slug: &str) -> (r: String)
    ensures
        r@ == title_case(slug@),
{
    let v = chars_of(slug);
    title_case_of(&v)
}

// ── PR state ────────────────────────────────────────────────────────────────

/// The state of the pull request from one branch to another.
#[derive(Clone, Debug)]
pub enum PrStatus {
    NoPr,
    Open(String),
    Merged(String),
    Closed(String),
}

impl PrStatus {
    /// The state's name as shown in a summary.
    pub fn label(&self) -> (r: &str)
        ensures
            r@ == match *self {
                PrStatus::NoPr => "none"@,
                PrStatus::Open(_) => "open"@,
                PrStatus::Merged(_) => "merged"@,
                PrStatus::Closed(_) => "closed"@,
            },
    {
        match self {
            PrStatus::NoPr => "none",
            PrStatus::Open(_) => "open",
            PrStatus::Merged(_) => "merged",
            PrStatus::Closed(_) => "closed",
        }
    }

    /// Whether there is no pull request at all.
    pub fn is_none(&self) -> (r: bool)
        ensures
            r == (*self matches PrStatus::NoPr),
    {
        match self {
            PrStatus::NoPr => true,
            _ => false,
        }
    }
}

/// The text `"key":` that precedes a string field of a JSON object.
pub open spec fn json_needle(key: Seq<char>) -> Seq<char> {
    seq!['"'] + key + seq!['"', ':']
}

/// The string value of the first `"key":` field in `json`, read the way a
/// two-field scan does: after the field name and any white space, a `"`,
/// then everything up to the next `"`.
pub open spec fn json_str_field(json: Seq<char>, key: Seq<char>) -> Option<Seq<char>> {
    match find_seq(json, json_needle(key)) {
        Some(a) => {
            let rest = strip_start(json.skip(a + json_needle(key).len()), CharClass::White);
            if rest.len() > 0 && rest[0] == '"' {
                match find_char(rest.skip(1), '"') {
                    Some(e) => Some(rest.skip(1).take(e)),
                    None => None,
                }
            } else {
                None
            }
        },
        None => None,
    }
}

/// Index of the first character of `v[from..]` outside the class, or the length.
fn skip_class(v: &Vec<char>, from: usize, cls: CharClass) -> (k: usize)
    requires
        from <= v@.len(),
    ensures
        from <= k <= v@.len(),
        strip_start(v@.skip(from as int), cls) == v@.skip(k as int),
{
    let mut k = from;
    while k < v.len() && crate::text::in_class_char(cls, v[k])
        invariant
            from <= k <= v@.len(),
            strip_start(v@.skip(from as int), cls) == strip_start(v@.skip(k as int), cls),
        decreases v.len() - k,
    {
        assert(v@.skip(k as int).skip(1) =~= v@.skip(k + 1));
        k += 1;
    }
    k
}

/// The string value of the first `"key":` field of `json` (see [`json_str_field`]).
pub fn extract_json_str(json: &str, key: &str) -> (r: Option<String>)
    ensures
        match r {
            Some(v) => json_str_field(json@, key@) == Some(v@),
            None => json_str_field(json@, key@) is None,
        },
{
    let j = chars_of(json);
    let n = j.len();
    let mut needle: Vec<char> = Vec::new();
    needle.push('"');
    push_all(&mut needle, &chars_of(key));
    needle.push('"');
    needle.push(':');
    assert(needle@ =~= json_needle(key@));
    assert(j@.skip(0) =~= j@);
    let a = match find_seq_from(&j, &needle, 0) {
        Some(a) => a,
        None => return None,
    };
    proof {
        lemma_find_seq_props(j@, needle@);
        assert(a + needle@.len() <= n);
    }
    let k = skip_class(&j, a + needle.len(), CharClass::White);
    if k < n && j[k] == '"' {
        let ghost rest = j@.skip(k as int);
        assert(rest.skip(1) =~= j@.skip(k + 1));
        match find_char_from(&j, '"', k + 1) {
            Some(e) => {
                proof {
                    lemma_find_char_props(j@.skip(k + 1), '"');
                    assert(e < n - k - 1);
                    assert(j@.skip(k + 1).take(e as int) =~= j@.subrange(k + 1, k + 1 + e));
                }
                Some(string_of(&j, k + 1, k + 1 + e))
            },
            None => None,
        }
    } else {
        None
    }
}

/// The PR state for a URL and a state name already upper-cased: `OPEN`,
/// `MERGED`, and anything else read as closed.
pub open spec fn status_from(url: Seq<char>, state_upper: Seq<char>) -> (Seq<char>, int) {
    (url, if state_upper == "OPEN"@ { 1int } else if state_upper == "MERGED"@ { 2int } else { 3int })
}

/// The URL a PR state carries, and which state it is (0 none, 1 open, 2 merged, 3 closed).
pub open spec fn status_view(s: PrStatus) -> (Seq<char>, int) {
    match s {
        PrStatus::NoPr => (Seq::empty(), 0int),
        PrStatus::Open(u) => (u@, 1int),
        PrStatus::Merged(u) => (u@, 2int),
        PrStatus::Closed(u) => (u@, 3int),
    }
}

/// The PR state for a URL and an upper-cased state name.
pub fn pr_status_from_fields(url: String, state_upper: &str) -> (r: PrStatus)
    ensures
        status_view(r) == status_from(url@, state_upper@),
{
    if str_eq(state_upper, "OPEN") {
        PrStatus::Open(url)
    } else if str_eq(state_upper, "MERGED") {
        PrStatus::Merged(url)
    } else {
        PrStatus::Closed(url)
    }
}

/// The output of `gh pr list --json url,state --limit 1` carries no PR: it
/// is empty or `[]` once trimmed.
pub open spec fn lists_no_pr(out: Seq<char>) -> bool {
    trim(out) == "[]"@ || trim(out).len() == 0
}

/// The value of an optional string, empty when absent.
pub open spec fn or_empty(o: Option<Seq<char>>) -> Seq<char> {
    match o {
        Some(s) => s,
        None => Seq::empty(),
    }
}

/// Reads the PR state out of the standard output of
/// `gh pr list --json url,state --limit 1`.
pub fn pr_status_from_output(out: &str) -> (r: PrStatus)
    ensures
        lists_no_pr(out@) ==> r == PrStatus::NoPr,
        !lists_no_pr(out@) ==> status_view(r) == status_from(
            or_empty(json_str_field(trim(out@), "url"@)),
            spec_to_uppercase(or_empty(json_str_field(trim(out@), "state"@))),
        ),
{
    let v = chars_of(out);
    let t = crate::text::trim_vec(&v);
    let text = string_of_all(&t);
    if str_eq(text.as_str(), "[]") || t.len() == 0 {
        return PrStatus::NoPr;
    }
    let url = match extract_json_str(text.as_str(), "url") {
        Some(u) => u,
        None => String::new(),
    };
    let state = match extract_json_str(text.as_str(), "state") {
        Some(s) => s,
        None => String::new(),
    };
    let upper = to_uppercase(state.as_str());
    pr_status_from_fields(url, upper.as_str())
}

// ── Per-target assessment ───────────────────────────────────────────────────

/// What merging the feature branch into one target needs.
#[derive(Debug)]
pub struct TargetAssessment {
    pub target: String,
    pub is_default: bool,
    /// True if merging feature into `origin/<target>` would conflict.
    pub has_conflict: bool,
    pub conflict_branch: String,
    pub conflict_branch_exists: bool,
    /// The feature branch has been merged into the conflict branch.
    pub feature_merged_in: bool,
    /// Unresolved merge conflicts remain in the conflict worktree.
    pub conflict_unresolved: bool,
    /// Path to the conflict worktree (worktree repos only).
    pub conflict_worktree_path: Option<String>,
    pub conflict_pr: PrStatus,
    pub main_pr: PrStatus,
}

/// How a piece of a summary line is shown.
#[derive(Clone, Copy, PartialEq, Eq, Structural, Debug)]
pub enum Style {
    Plain,
    Yellow,
    Magenta,
    Cyan,
    Green,
}

/// A piece of a summary line and how it is shown.
pub struct Span {
    pub text: String,
    pub style: Style,
}

/// The text and style of each piece.
pub open spec fn spans_view(v: Seq<Span>) -> Seq<(Seq<char>, Style)> {
    v.map_values(|s: Span| (s.text@, s.style))
}

/// The one-line summary of an assessment, piece by piece.
pub open spec fn summary_spans(a: TargetAssessment) -> Seq<(Seq<char>, Style)> {
    if a.has_conflict {
        if !a.conflict_branch_exists {
            seq![
                ("⚠"@, Style::Yellow),
                (" "@, Style::Plain),
                (a.target@, Style::Magenta),
                (" (conflict branch needed)"@, Style::Plain),
            ]
        } else if a.conflict_unresolved {
            seq![
                ("⚡"@, Style::Yellow),
                (" "@, Style::Plain),
                (a.target@, Style::Magenta),
                (" (conflicts unresolved in "@, Style::Plain),
                (a.conflict_branch@, Style::Cyan),
                (")"@, Style::Plain),
            ]
        } else if !a.feature_merged_in {
            seq![
                ("⚡"@, Style::Yellow),
                (" "@, Style::Plain),
                (a.target@, Style::Magenta),
                (" (feature not merged into "@, Style::Plain),
                (a.conflict_branch@, Style::Cyan),
                (")"@, Style::Plain),
            ]
        } else if (a.conflict_pr matches PrStatus::NoPr) {
            seq![
                ("●"@, Style::Cyan),
                (" "@, Style::Plain),
                (a.target@, Style::Magenta),
                (" (conflict branch ready → PR needed)"@, Style::Plain),
            ]
        } else {
            seq![
                ("✓"@, Style::Green),
                (" "@, Style::Plain),
                (a.target@, Style::Magenta),
                (" ("@, Style::Plain),
                (a.conflict_branch@, Style::Cyan),
                (" PR: "@ + label_of(a.conflict_pr) + ")"@, Style::Plain),
            ]
        }
    } else if (a.main_pr matches PrStatus::NoPr) {
        seq![("○"@, Style::Cyan), (" "@ + a.target@ + " (PR needed)"@, Style::Plain)]
    } else {
        seq![
            ("✓"@, Style::Green),
            (" "@ + a.target@ + " (PR: "@ + label_of(a.main_pr) + ")"@, Style::Plain),
        ]
    }
}

/// The name of a PR state.
pub open spec fn label_of(s: PrStatus) -> Seq<char> {
    match s {
        PrStatus::NoPr => "none"@,
        PrStatus::Open(_) => "open"@,
        PrStatus::Merged(_) => "merged"@,
        PrStatus::Closed(_) => "closed"@,
    }
}

/// A piece of text in a style.
fn span(text: &str, style: Style) -> (r: Span)
    ensures
        r.text@ == text@,
        r.style == style,
{
    Span { text: crate::text::to_owned_string(text), style }
}

/// A piece holding a copy of a string, in a style.
fn span_of(text: &String, style: Style) -> (r: Span)
    ensures
        r.text@ == text@,
        r.style == style,
{
    Span { text: text.clone(), style }
}

/// Three strings one after the other.
fn concat3(a: &str, b: &str, c: &str) -> (r: String)
    ensures
        r@ == a@ + b@ + c@,
{
    let mut r = crate::text::to_owned_string(a);
    r.append(b);
    r.append(c);
    r
}

impl TargetAssessment {
    /// The one-line summary shown for this target, piece by piece.
    pub fn summary(&self) -> (r: Vec<Span>)
        ensures
            spans_view(r@) == summary_spans(*self),
    {
        let mut r: Vec<Span> = Vec::new();
        if self.has_conflict {
            if !self.conflict_branch_exists {
                r.push(span("⚠", Style::Yellow));
                r.push(span(" ", Style::Plain));
                r.push(span_of(&self.target, Style::Magenta));
                r.push(span(" (conflict branch needed)", Style::Plain));
            } else if self.conflict_unresolved {
                r.push(span("⚡", Style::Yellow));
                r.push(span(" ", Style::Plain));
                r.push(span_of(&self.target, Style::Magenta));
                r.push(span(" (conflicts unresolved in ", Style::Plain));
                r.push(span_of(&self.conflict_branch, Style::Cyan));
                r.push(span(")", Style::Plain));
            } else if !self.feature_merged_in {
                r.push(span("⚡", Style::Yellow));
                r.push(span(" ", Style::Plain));
                r.push(span_of(&self.target, Style::Magenta));
                r.push(span(" (feature not merged into ", Style::Plain));
                r.push(span_of(&self.conflict_branch, Style::Cyan));
                r.push(span(")", Style::Plain));
            } else if self.conflict_pr.is_none() {
                r.push(span("●", Style::Cyan));
                r.push(span(" ", Style::Plain));
                r.push(span_of(&self.target, Style::Magenta));
                r.push(span(" (conflict branch ready → PR needed)", Style::Plain));
            } else {
                r.push(span("✓", Style::Green));
                r.push(span(" ", Style::Plain));
                r.push(span_of(&self.target, Style::Magenta));
                r.push(span(" (", Style::Plain));
                r.push(span_of(&self.conflict_branch, Style::Cyan));
                r.push(span(concat3(" PR: ", self.conflict_pr.label(), ")").as_str(), Style::Plain));
            }
        } else if self.main_pr.is_none() {
            r.push(span("○", Style::Cyan));
            r.push(span(concat3(" ", self.target.as_str(), " (PR needed)").as_str(), Style::Plain));
        } else {
            r.push(span("✓", Style::Green));
            let head = concat3(" ", self.target.as_str(), " (PR: ");
            r.push(span(concat3(head.as_str(), self.main_pr.label(), ")").as_str(), Style::Plain));
        }
        assert(spans_view(r@) =~= summary_spans(*self));
        r
    }
}

// ── Assessing one target ────────────────────────────────────────────────────

/// The checks made while assessing one target, each run by the caller.
#[derive(Clone, Copy, PartialEq, Eq, Structural, Debug)]
pub enum Check {
    /// Would merging the feature branch into `origin/<target>` conflict?
    MergeConflicts,
    /// Does the conflict branch exist?
    BranchExists,
    /// Is the feature branch merged into the conflict branch?
    Ancestor,
    /// Which worktree, if any, has the conflict branch checked out?
    FindWorktree,
    /// Do unresolved conflicts remain (in the directory `unresolved_path` gives)?
    Unresolved,
    /// The PR from the conflict branch into the target.
    ConflictPr,
    /// The PR from the feature branch into the target.
    MainPr,
    /// Nothing left to check.
    Done,
}

/// The results of the checks made so far for one target; `None` where the
/// check has not been made.
pub struct Gathered {
    pub conflicts: Option<bool>,
    pub exists: Option<bool>,
    pub ancestor: Option<bool>,
    pub worktree: Option<Option<String>>,
    pub unresolved: Option<bool>,
    pub conflict_pr: Option<PrStatus>,
    pub main_pr: Option<PrStatus>,
}

impl Gathered {
    /// No check made yet.
    pub fn new() -> (r: Gathered)
        ensures
            r.conflicts is None,
            r.exists is None,
            r.ancestor is None,
            r.worktree is None,
            r.unresolved is None,
            r.conflict_pr is None,
            r.main_pr is None,
    {
        Gathered {
            conflicts: None,
            exists: None,
            ancestor: None,
            worktree: None,
            unresolved: None,
            conflict_pr: None,
            main_pr: None,
        }
    }
}

/// The check to make next, in this order: the merge check (skipped in a dry
/// run), whether the conflict branch exists, then (only if it does) whether
/// the feature branch is merged into it and where it is checked out, then
/// (only if the feature branch is merged in) unresolved conflicts, then
/// (only if the merge conflicts) the conflict PR, and last the main PR.
pub open spec fn next_check_of(dry_run: bool, g: Gathered) -> Check {
    if !dry_run && g.conflicts is None {
        Check::MergeConflicts
    } else if g.exists is None {
        Check::BranchExists
    } else if g.exists == Some(true) && g.ancestor is None {
        Check::Ancestor
    } else if g.exists == Some(true) && g.worktree is None {
        Check::FindWorktree
    } else if g.exists == Some(true) && g.ancestor == Some(true) && g.unresolved is None {
        Check::Unresolved
    } else if !dry_run && g.conflicts == Some(true) && g.conflict_pr is None {
        Check::ConflictPr
    } else if g.main_pr is None {
        Check::MainPr
    } else {
        Check::Done
    }
}

/// The check to make next for one target (see [`next_check_of`]).
pub fn next_check(dry_run: bool, g: &Gathered) -> (c: Check)
    ensures
        c == next_check_of(dry_run, *g),
{
    if !dry_run && g.conflicts.is_none() {
        Check::MergeConflicts
    } else if g.exists.is_none() {
        Check::BranchExists
    } else if g.exists == Some(true) && g.ancestor.is_none() {
        Check::Ancestor
    } else if g.exists == Some(true) && g.worktree.is_none() {
        Check::FindWorktree
    } else if g.exists == Some(true) && g.ancestor == Some(true) && g.unresolved.is_none() {
        Check::Unresolved
    } else if !dry_run && g.conflicts == Some(true) && g.conflict_pr.is_none() {
        Check::ConflictPr
    } else if g.main_pr.is_none() {
        Check::MainPr
    } else {
        Check::Done
    }
}

/// Where unresolved conflicts are looked for: the conflict branch's
/// worktree when it has one, else the repository root.
pub fn unresolved_path(worktree: &Option<Option<String>>, root: &str) -> (r: String)
    ensures
        r@ == match *worktree {
            Some(Some(w)) => w@,
            _ => root@,
        },
{
    match worktree {
        Some(Some(w)) => w.clone(),
        _ => crate::text::to_owned_string(root),
    }
}

/// The path of an optional worktree location.
pub open spec fn flat_path(w: Option<Option<String>>) -> Option<Seq<char>> {
    match w {
        Some(Some(p)) => Some(p@),
        _ => None,
    }
}

/// The assessment of `target` from the checks made for it: it conflicts
/// when the merge check (not made in a dry run) said so; the feature branch
/// is merged in when the conflict branch exists and contains it; conflicts
/// are unresolved only then and when the check found some; the conflict
/// worktree is the one found for an existing conflict branch, else the
/// `planned` one; the conflict PR is known only for a conflicting target.
pub fn assess_target(
    target: String,
    default_branch: &str,
    conflict_branch: String,
    dry_run: bool,
    planned: Option<String>,
    g: Gathered,
) -> (r: TargetAssessment)
    ensures
        r.target == target,
        r.conflict_branch == conflict_branch,
        r.is_default == (target@ == default_branch@),
        r.has_conflict == (!dry_run && g.conflicts == Some(true)),
        r.conflict_branch_exists == (g.exists == Some(true)),
        r.feature_merged_in == (g.exists == Some(true) && g.ancestor == Some(true)),
        r.conflict_unresolved == (r.feature_merged_in && g.unresolved == Some(true)),
        opt_string_view(r.conflict_worktree_path) == if g.exists == Some(true) {
            flat_path(g.worktree)
        } else {
            opt_string_view(planned)
        },
        r.conflict_pr == match g.conflict_pr {
            Some(p) => if r.has_conflict { p } else { PrStatus::NoPr },
            None => PrStatus::NoPr,
        },
        r.main_pr == match g.main_pr {
            Some(p) => p,
            None => PrStatus::NoPr,
        },
{
    let Gathered { conflicts, exists, ancestor, worktree, unresolved, conflict_pr, main_pr } = g;
    let is_default = str_eq(target.as_str(), default_branch);
    let has_conflict = !dry_run && conflicts == Some(true);
    let branch_exists = exists == Some(true);
    let merged_in = branch_exists && ancestor == Some(true);
    let conflict_unresolved = merged_in && unresolved == Some(true);
    let conflict_worktree_path = if branch_exists {
        match worktree {
            Some(Some(w)) => Some(w),
            _ => None,
        }
    } else {
        planned
    };
    let conflict_pr = match conflict_pr {
        Some(p) => if has_conflict {
            p
        } else {
            PrStatus::NoPr
        },
        None => PrStatus::NoPr,
    };
    let main_pr = match main_pr {
        Some(p) => p,
        None => PrStatus::NoPr,
    };
    TargetAssessment {
        target,
        is_default,
        has_conflict,
        conflict_branch,
        conflict_branch_exists: branch_exists,
        feature_merged_in: merged_in,
        conflict_unresolved,
        conflict_worktree_path,
        conflict_pr,
        main_pr,
    }
}

/// Once every check `next_check` asks for is made, the assessment rests on
/// made checks only: the merge check unless in a dry run, whether the branch
/// exists, and only where they matter, the ancestor check, the worktree, the
/// unresolved check and the conflict PR; the main PR always.
pub proof fn lemma_done_checks_made(dry_run: bool, g: Gathered)
    requires
        next_check_of(dry_run, g) == Check::Done,
    ensures
        !dry_run ==> g.conflicts is Some,
        g.exists is Some,
        g.exists == Some(true) ==> g.ancestor is Some && g.worktree is Some,
        g.exists == Some(true) && g.ancestor == Some(true) ==> g.unresolved is Some,
        !dry_run && g.conflicts == Some(true) ==> g.conflict_pr is Some,
        g.main_pr is Some,
{
}

// ── What each target needs ─────────────────────────────────────────────────

/// The kinds of follow-up a target may need.
#[derive(Clone, Copy, PartialEq, Eq, Structural, Debug)]
pub enum TargetNeed {
    /// A clean merge and no PR yet: a PR from the feature branch.
    CleanPr,
    /// A conflicting non-default target without a conflict branch.
    ConflictBranch,
    /// A conflict branch that does not contain the feature branch yet.
    MergeIntoConflict,
    /// A conflicting target whose conflict branch exists: kept in sync.
    Sync,
}

/// Whether the assessment `a` needs `n`.
pub open spec fn needs(a: TargetAssessment, n: TargetNeed) -> bool {
    match n {
        TargetNeed::CleanPr => !a.has_conflict && (a.main_pr matches PrStatus::NoPr),
        TargetNeed::ConflictBranch => !a.is_default && a.has_conflict && !a.conflict_branch_exists,
        TargetNeed::MergeIntoConflict => a.conflict_branch_exists && !a.feature_merged_in,
        TargetNeed::Sync => a.has_conflict && a.conflict_branch_exists,
    }
}

/// The positions of the assessments that need `n`, in order.
pub open spec fn indices_needing(s: Seq<TargetAssessment>, n: TargetNeed) -> Seq<int>
    decreases s.len(),
{
    if s.len() == 0 {
        Seq::empty()
    } else {
        indices_needing(s.drop_last(), n) + if needs(s.last(), n) {
            seq![s.len() - 1]
        } else {
            Seq::empty()
        }
    }
}

/// The positions of the assessments that need `n`, in order.
pub fn targets_needing(assessments: &Vec<TargetAssessment>, n: TargetNeed) -> (r: Vec<usize>)
    ensures
        r@.map_values(|i: usize| i as int) == indices_needing(assessments@, n),
{
    let mut r: Vec<usize> = Vec::new();
    let mut i: usize = 0;
    while i < assessments.len()
        invariant
            i <= assessments@.len(),
            r@.map_values(|k: usize| k as int) == indices_needing(assessments@.take(i as int), n),
        decreases assessments.len() - i,
    {
        let ghost t = assessments@.take(i + 1);
        assert(t.drop_last() =~= assessments@.take(i as int));
        assert(t.last() == assessments@[i as int]);
        let a = &assessments[i];
        let hit = match n {
            TargetNeed::CleanPr => !a.has_conflict && a.main_pr.is_none(),
            TargetNeed::ConflictBranch => !a.is_default && a.has_conflict
                && !a.conflict_branch_exists,
            TargetNeed::MergeIntoConflict => a.conflict_branch_exists && !a.feature_merged_in,
            TargetNeed::Sync => a.has_conflict && a.conflict_branch_exists,
        };
        let ghost before = r@;
        if hit {
            r.push(i);
            assert(r@.map_values(|k: usize| k as int) =~= before.map_values(|k: usize| k as int)
                + seq![i as int]);
        } else {
            assert(r@.map_values(|k: usize| k as int) =~= before.map_values(|k: usize| k as int)
                + Seq::<int>::empty());
        }
        i += 1;
    }
    assert(assessments@.take(assessments@.len() as int) =~= assessments@);
    r
}

/// The default target, when it conflicts and has no PR: the flow stops there.
pub open spec fn blocked_default(s: Seq<TargetAssessment>) -> Option<int> {
    match first_index(s, |a: TargetAssessment| a.is_default) {
        Some(i) => if s[i].has_conflict && (s[i].main_pr matches PrStatus::NoPr) {
            Some(i)
        } else {
            None
        },
        None => None,
    }
}

/// The position of the default target when merging into it conflicts and no
/// PR exists yet; the PR flow cannot go on then.
pub fn blocked_default_target(assessments: &Vec<TargetAssessment>) -> (r: Option<usize>)
    ensures
        match r {
            Some(i) => blocked_default(assessments@) == Some(i as int),
            None => blocked_default(assessments@) is None,
        },
{
    let ghost p = |a: TargetAssessment| a.is_default;
    let mut i: usize = 0;
    while i < assessments.len()
        invariant
            i <= assessments@.len(),
            p == (|a: TargetAssessment| a.is_default),
            forall|j: int| 0 <= j < i ==> !p(assessments@[j]),
        decreases assessments.len() - i,
    {
        if assessments[i].is_default {
            proof {
                assert(is_first_index(assessments@, p, i as int));
                lemma_first_index_is(assessments@, p, i as int);
            }
            let a = &assessments[i];
            if a.has_conflict && a.main_pr.is_none() {
                return Some(i);
            }
            return None;
        }
        i += 1;
    }
    proof {
        lemma_first_index_none(assessments@, p);
    }
    None
}

/// The first assessment for the target named `target`.
pub fn find_assessment(assessments: &Vec<TargetAssessment>, target: &str) -> (r: Option<usize>)
    ensures
        match r {
            Some(i) => first_index(assessments@, |a: TargetAssessment| a.target@ == target@) == Some(
                i as int,
            ),
            None => first_index(assessments@, |a: TargetAssessment| a.target@ == target@) is None,
        },
{
    let ghost p = |a: TargetAssessment| a.target@ == target@;
    let mut i: usize = 0;
    while i < assessments.len()
        invariant
            i <= assessments@.len(),
            p == (|a: TargetAssessment| a.target@ == target@),
            forall|j: int| 0 <= j < i ==> !p(assessments@[j]),
        decreases assessments.len() - i,
    {
        if str_eq(assessments[i].target.as_str(), target) {
            proof {
                assert(is_first_index(assessments@, p, i as int));
                lemma_first_index_is(assessments@, p, i as int);
            }
            return Some(i);
        }
        i += 1;
    }
    proof {
        lemma_first_index_none(assessments@, p);
    }
    None
}

/// The assessment of the target a conflict branch belongs to: the target
/// named by the conflict base in lower case.
pub fn assessment_for_conflict_base(assessments: &Vec<TargetAssessment>, conflict_base: &str) -> (r:
    Option<usize>)
    ensures
        match r {
            Some(i) => first_index(
                assessments@,
                |a: TargetAssessment| a.target@ == spec_to_lowercase(conflict_base@),
            ) == Some(i as int),
            None => first_index(
                assessments@,
                |a: TargetAssessment| a.target@ == spec_to_lowercase(conflict_base@),
            ) is None,
        },
{
    let lower = to_lowercase(conflict_base);
    let r = find_assessment(assessments, lower.as_str());
    assert((|a: TargetAssessment| a.target@ == lower@) =~= (|a: TargetAssessment| a.target@
        == spec_to_lowercase(conflict_base@)));
    r
}

// ── Branches of the PR flow ─────────────────────────────────────────────────

/// The feature branch behind the current branch: on a conflict branch, the
/// branch rendered from the same parts without a conflict base; otherwise
/// the current branch itself.
pub fn feature_branch_of(parsed: &BranchInfo, current_branch: &str, common: &CommonConfig) -> (r:
    String)
    ensures
        parsed.conflict_base is Some ==> r@ == render(
            format_of(*common),
            branch_vars(parsed.prefix@, parsed.ticket@, parsed.slug@, Seq::empty()),
        ),
        parsed.conflict_base is None ==> r@ == current_branch@,
{
    match &parsed.conflict_base {
        Some(_) => {
            let r = common.render_branch(
                parsed.prefix.as_str(),
                parsed.ticket.as_str(),
                parsed.slug.as_str(),
                None,
            );
            r
        },
        None => crate::text::to_owned_string(current_branch),
    }
}

/// Why the PR flow refuses the branch it starts from.
#[derive(Clone, Debug)]
pub enum BranchRefusal {
    /// The branch (given) does not read as `prefix/TICKET-123-slug`.
    Unparsable(String),
    /// The branch is a conflict branch (its conflict base given), and the
    /// flow does not continue one.
    ConflictBranch(String),
}

impl BranchRefusal {
    /// The message shown for the refusal.
    pub fn message(&self) -> (r: String)
        ensures
            r@ == match *self {
                BranchRefusal::Unparsable(b) => "Cannot parse ticket from branch: "@ + b@,
                BranchRefusal::ConflictBranch(cb) => "You appear to be on a conflict branch (conflict base: "@
                    + cb@ + "). Use `fi pr --continue` to submit the PR."@,
            },
    {
        match self {
            BranchRefusal::Unparsable(b) => {
                let mut r = crate::text::to_owned_string("Cannot parse ticket from branch: ");
                r.append(b.as_str());
                r
            },
            BranchRefusal::ConflictBranch(cb) => {
                let mut r = crate::text::to_owned_string(
                    "You appear to be on a conflict branch (conflict base: ",
                );
                r.append(cb.as_str());
                r.append("). Use `fi pr --continue` to submit the PR.");
                r
            },
        }
    }
}

/// The parts a parsed branch holds, with the title its slug gives.
pub open spec fn read_as(info: BranchInfo, parts: (Seq<char>, Seq<char>, Seq<char>, Option<Seq<char>>)) -> bool {
    branch_parts(info) == parts && info.pretty_title@ == title_case(info.slug@)
}

/// What the PR flow reads from the current branch `b` with the branch
/// format of `common`: refused when `b` does not parse, or is a conflict
/// branch and `allow_conflict_branch` is off; otherwise the branch's parts,
/// the feature branch behind it and the feature branch's parts (refused
/// when the feature branch rendered from a conflict branch does not parse).
pub open spec fn pr_branches_ok(
    b: Seq<char>,
    common: CommonConfig,
    allow_conflict_branch: bool,
    r: Result<(BranchInfo, String, BranchInfo), BranchRefusal>,
) -> bool {
    let f = format_of(common);
    match parse_spec(b, f) {
        None => r matches Err(BranchRefusal::Unparsable(x)) && x@ == b,
        Some(p) => match p.3 {
            None => r matches Ok((pi, fb, fi)) && read_as(pi, p) && fb@ == b && read_as(fi, p),
            Some(cb) => if !allow_conflict_branch {
                r matches Err(BranchRefusal::ConflictBranch(x)) && x@ == cb
            } else {
                let feature = render(f, branch_vars(p.0, p.1, p.2, Seq::empty()));
                match parse_spec(feature, f) {
                    None => r matches Err(BranchRefusal::Unparsable(x)) && x@ == feature,
                    Some(q) => r matches Ok((pi, fb, fi)) && read_as(pi, p) && fb@ == feature
                        && read_as(fi, q),
                }
            },
        },
    }
}

/// The branches the PR flow works on, read from the current branch (see
/// [`pr_branches_ok`]): `fi pr` refuses a conflict branch unless it
/// continues one; `fi sync` accepts it.
pub fn pr_branches(current_branch: &str, common: &CommonConfig, allow_conflict_branch: bool) -> (r:
    Result<(BranchInfo, String, BranchInfo), BranchRefusal>)
    ensures
        pr_branches_ok(current_branch@, *common, allow_conflict_branch, r),
{
    let fmt = branch_format_of(common);
    let parsed = match parse_branch(current_branch, fmt.as_str()) {
        Some(p) => p,
        None => {
            return Err(BranchRefusal::Unparsable(crate::text::to_owned_string(current_branch)));
        },
    };
    match &parsed.conflict_base {
        Some(cb) => {
            if !allow_conflict_branch {
                return Err(BranchRefusal::ConflictBranch(cb.clone()));
            }
            let feature = feature_branch_of(&parsed, current_branch, common);
            match parse_branch(feature.as_str(), fmt.as_str()) {
                Some(fi) => Ok((parsed, feature, fi)),
                None => Err(BranchRefusal::Unparsable(feature)),
            }
        },
        None => {
            let feature = crate::text::to_owned_string(current_branch);
            let fi = parsed.duplicate();
            Ok((parsed, feature, fi))
        },
    }
}

/// The conflict branch for a target: the branch name rendered with the
/// target, upper-cased, as conflict base.
pub fn conflict_branch_name(common: &CommonConfig, info: &BranchInfo, target: &str) -> (r: String)
    ensures
        r@ == render(
            format_of(*common),
            branch_vars(info.prefix@, info.ticket@, info.slug@, spec_to_uppercase(target@)),
        ),
{
    let upper = to_uppercase(target);
    common.render_branch(
        info.prefix.as_str(),
        info.ticket.as_str(),
        info.slug.as_str(),
        Some(upper.as_str()),
    )
}

/// Where the worktree of a conflict branch goes: `<root>/<mergeConflictPath>/<branch>`.
pub fn conflict_worktree_dir(root: &str, merge_conflict_path: &str, branch: &str) -> (r: String)
    ensures
        r@ == path_join(path_join(root@, merge_conflict_path@), branch@),
{
    let base = join_path(root, merge_conflict_path);
    join_path(base.as_str(), branch)
}

/// The worktree of a conflict branch that does not exist yet: in a worktree
/// repository with a merge-conflict path, the directory it would be created
/// in; otherwise none.
pub fn planned_conflict_worktree(repo: &RepoConfig, root: &str, branch: &str) -> (r: Option<String>)
    ensures
        match r {
            Some(p) => repo.repo_type == RepoType::Worktree && repo.merge_conflict_path is Some
                && p@ == path_join(path_join(root@, repo.merge_conflict_path->0@), branch@),
            None => !(repo.repo_type == RepoType::Worktree && repo.merge_conflict_path is Some),
        },
{
    match (&repo.repo_type, &repo.merge_conflict_path) {
        (RepoType::Worktree, Some(mcp)) => Some(conflict_worktree_dir(root, mcp.as_str(), branch)),
        _ => None,
    }
}

/// Where a conflict branch is created.
#[derive(Clone, Debug)]
pub enum ConflictCheckout {
    /// A new worktree at the given path (worktree repositories).
    Worktree(String),
    /// A new branch checked out in the repository root (standard repositories).
    Branch,
}

/// How the conflict branch `branch` of `repo` (rooted at `root`) is created:
/// in a worktree repository, as a worktree under its merge-conflict path,
/// which must be set; in a standard repository, as a branch in the root.
pub fn conflict_checkout(repo: &RepoConfig, root: &str, branch: &str) -> (r: Result<
    ConflictCheckout,
    String,
>)
    ensures
        match repo.repo_type {
            RepoType::Worktree => match repo.merge_conflict_path {
                Some(m) => r matches Ok(ConflictCheckout::Worktree(p)) && p@ == path_join(
                    path_join(root@, m@),
                    branch@,
                ),
                None => r matches Err(e) && e@ == "mergeConflictPath not set for worktree repo "@
                    + repo.name@,
            },
            RepoType::Standard => r matches Ok(ConflictCheckout::Branch),
        },
{
    match repo.repo_type {
        RepoType::Worktree => match &repo.merge_conflict_path {
            Some(m) => Ok(ConflictCheckout::Worktree(conflict_worktree_dir(root, m.as_str(), branch))),
            None => {
                let mut e = crate::text::to_owned_string("mergeConflictPath not set for worktree repo ");
                e.append(repo.name.as_str());
                Err(e)
            },
        },
        RepoType::Standard => Ok(ConflictCheckout::Branch),
    }
}

/// The variables PR titles and bodies are rendered with.
pub open spec fn pr_vars(
    ticket: Seq<char>,
    pretty_title: Seq<char>,
    target: Seq<char>,
    default_branch: Seq<char>,
    conflict_base: Seq<char>,
    asks: Seq<(String, String)>,
) -> Map<Seq<char>, Seq<char>> {
    with_asks(
        Map::<Seq<char>, Seq<char>>::empty().insert(
            "pr.targetPrefix"@,
            if target == default_branch {
                Seq::empty()
            } else {
                target
            },
        ).insert("branch.prettyTitle"@, pretty_title).insert("ticket.key"@, ticket).insert(
            "pr.conflictBase"@,
            conflict_base,
        ),
        asks,
    )
}

/// Builds the variables of a PR's templates: `pr.targetPrefix` (the target,
/// or empty for the default branch), `branch.prettyTitle`, `ticket.key`,
/// `pr.conflictBase` and `ask.<name>` for each asked value.
pub fn build_pr_vars(
    info: &BranchInfo,
    ticket: &str,
    pretty_title: &str,
    target: &str,
    default_branch: &str,
    conflict_base: Option<&str>,
    ask_vals: &Vec<(String, String)>,
) -> (r: TemplateVars)
    ensures
        r@ == pr_vars(
            ticket@,
            pretty_title@,
            target@,
            default_branch@,
            opt_view(conflict_base),
            ask_vals@,
        ),
{
    let mut vars = TemplateVars::new();
    if str_eq(target, default_branch) {
        vars.insert("pr.targetPrefix", "");
    } else {
        vars.insert("pr.targetPrefix", target);
    }
    vars.insert("branch.prettyTitle", pretty_title);
    vars.insert("ticket.key", ticket);
    match conflict_base {
        Some(c) => vars.insert("pr.conflictBase", c),
        None => vars.insert("pr.conflictBase", ""),
    }
    proof {
        assert(""@ =~= Seq::<char>::empty()) by {
            reveal_strlit("");
        }
    }
    vars.insert_asks(ask_vals);
    vars
}

/// A PR title or body: the template rendered, then its escapes processed.
pub fn render_pr_text(template: &str, vars: &TemplateVars) -> (r: String)
    ensures
        r@ == unescaped(render(template@, vars@)),
{
    let rendered = render_template(template, vars);
    unescape(rendered.as_str())
}

// ── Which repository the working directory is in ────────────────────────────

/// What `Path::eq` says of two paths (component-wise equality).
pub uninterp spec fn spec_same_path(a: Seq<char>, b: Seq<char>) -> bool;

/// `Path::eq`: two paths with the same components.
#[verifier::external_body]
fn same_path(a: &str, b: &str) -> (r: bool)
    ensures
        r == spec_same_path(a@, b@),
{
    std::path::Path::new(a) == std::path::Path::new(b)
}

/// The git common directory `git rev-parse --git-common-dir` printed, as a
/// path: absolute as printed, relative to the working directory otherwise.
pub fn git_dir_path(pwd: &str, raw: &str) -> (r: String)
    ensures
        r@ == if raw@.len() > 0 && raw@[0] == '/' {
            raw@
        } else {
            path_join(pwd@, raw@)
        },
{
    let v = chars_of(raw);
    if v.len() > 0 && v[0] == '/' {
        string_of_all(&v)
    } else {
        join_path(pwd, raw)
    }
}

/// A repository owns the git common directory `dir` when `dir` is its root
/// (worktree repositories) or its root's `.git` (standard repositories).
pub open spec fn owns_git_dir(repo_type: RepoType, root: Seq<char>, dir: Seq<char>) -> bool {
    match repo_type {
        RepoType::Worktree => spec_same_path(dir, root),
        RepoType::Standard => spec_same_path(dir, path_join(root, ".git"@)),
    }
}

/// The first repository that owns the git common directory `dir`, given
/// each repository's resolved root.
pub fn repo_for_git_dir(repos: &Vec<RepoConfig>, roots: &Vec<String>, dir: &str) -> (r: Option<
    usize,
>)
    requires
        roots@.len() == repos@.len(),
    ensures
        match r {
            Some(i) => i < repos@.len() && owns_git_dir(repos@[i as int].repo_type, roots@[i as int]@, dir@)
                && forall|j: int| 0 <= j < i ==> !owns_git_dir(repos@[j].repo_type, roots@[j]@, dir@),
            None => forall|j: int| 0 <= j < repos@.len() ==> !owns_git_dir(repos@[j].repo_type, roots@[j]@, dir@),
        },
{
    let mut i: usize = 0;
    while i < repos.len()
        invariant
            i <= repos@.len(),
            roots@.len() == repos@.len(),
            forall|j: int| 0 <= j < i ==> !owns_git_dir(repos@[j].repo_type, roots@[j]@, dir@),
        decreases repos.len() - i,
    {
        let hit = match repos[i].repo_type {
            RepoType::Worktree => same_path(dir, roots[i].as_str()),
            RepoType::Standard => {
                let g = join_path(roots[i].as_str(), ".git");
                same_path(dir, g.as_str())
            },
        };
        if hit {
            return Some(i);
        }
        i += 1;
    }
    None
}

// ── Laws of branch parsing ──────────────────────────────────────────────────

/// The run at the start of `a + b` stops inside `a`, or runs through `a`
/// into `b`.
pub proof fn lemma_run_len_concat(a: Seq<char>, b: Seq<char>, digits: bool)
    ensures
        run_len(a, digits) <= a.len(),
        run_len(a + b, digits) == if run_len(a, digits) < a.len() {
            run_len(a, digits)
        } else {
            a.len() + run_len(b, digits)
        },
    decreases a.len(),
{
    if a.len() == 0 {
        assert(a + b =~= b);
    } else if run_class(digits, a[0]) {
        assert((a + b)[0] == a[0]);
        assert((a + b).skip(1) =~= a.skip(1) + b);
        lemma_run_len_concat(a.skip(1), b, digits);
    } else {
        assert((a + b)[0] == a[0]);
    }
}

/// A ticket key followed by anything that does not start with a digit is
/// still read as that ticket key.
pub proof fn lemma_ticket_end_concat(k: Seq<char>, tail: Seq<char>)
    requires
        ticket_end(k) == Some(k.len() as int),
        tail.len() > 0,
        !is_digit(tail[0]),
    ensures
        ticket_end(k + tail) == Some(k.len() as int),
{
    let i = run_len(k, false) as int;
    lemma_run_len_concat(k, tail, false);
    assert(i < k.len());
    assert((k + tail)[i] == k[i]);
    let u = k.skip(i + 1);
    lemma_run_len_concat(u, tail, true);
    assert((k + tail).skip(i + 1) =~= u + tail);
    assert(run_len(tail, true) == 0);
}

/// In `p + "/" + rest` with no `/` in `p`, the first `/` ends `p`.
pub proof fn lemma_find_slash(p: Seq<char>, rest: Seq<char>)
    requires
        forall|j: int| 0 <= j < p.len() ==> p[j] != '/',
    ensures
        find_char(p + seq!['/'] + rest, '/') == Some(p.len() as int),
{
    let b = p + seq!['/'] + rest;
    assert forall|j: int| 0 <= j < p.len() implies b[j] != '/' by {
        assert(b[j] == p[j]);
    }
    assert(is_first_char(b, '/', p.len() as int));
    lemma_find_char_is(b, '/', p.len() as int);
}

/// `$1` is found at position 1 of `-$1`.
proof fn lemma_find_dollar()
    ensures
        find_seq(seq!['-', '$', '1'], dollar_one()) == Some(1int),
{
    let s = seq!['-', '$', '1'];
    let p = dollar_one();
    assert(s.subrange(1, 3) =~= p);
    assert(!occurs_at(s, p, 0)) by {
        assert(s.subrange(0, 2)[0] != p[0]);
    }
    assert(is_first_occurrence(s, p, 1));
    lemma_find_seq_is(s, p, 1);
}

/// The default format has no conflict-base clause.
pub proof fn lemma_default_format_has_no_conflict_clause()
    ensures
        conflict_sep(default_branch_format()) is None,
{
    reveal_strlit("{branchPrefix}/{ticket.key}-{slug}");
    reveal_strlit("{conflictBase:");
    let f = default_branch_format();
    let tag = cb_tag();
    assert(f =~= seq![
        '{', 'b', 'r', 'a', 'n', 'c', 'h', 'P', 'r', 'e', 'f', 'i', 'x', '}', '/', '{', 't', 'i',
        'c', 'k', 'e', 't', '.', 'k', 'e', 'y', '}', '-', '{', 's', 'l', 'u', 'g', '}',
    ]);
    assert(tag[9] == 'B');
    assert(forall|i: int| 0 <= i < f.len() ==> f[i] != 'B');
    assert forall|j: int| !occurs_at(f, tag, j) by {
        if occurs_at(f, tag, j) {
            assert(f.subrange(j, j + tag.len())[9] == tag[9]);
            assert(f[j + 9] == 'B');
        }
    }
    lemma_find_seq_none(f, tag);
}

/// The separator before the conflict base in the conflict format is `-`.
pub proof fn lemma_conflict_format_separator()
    ensures
        conflict_sep(conflict_branch_format()) == Some(seq!['-']),
{
    reveal_strlit("{branchPrefix}/{ticket.key}{conflictBase: '-$1'}-{slug}");
    reveal_strlit("{conflictBase:");
    let f = conflict_branch_format();
    let tag = cb_tag();
    assert(f =~= seq![
        '{', 'b', 'r', 'a', 'n', 'c', 'h', 'P', 'r', 'e', 'f', 'i', 'x', '}', '/', '{', 't', 'i',
        'c', 'k', 'e', 't', '.', 'k', 'e', 'y', '}', '{', 'c', 'o', 'n', 'f', 'l', 'i', 'c', 't',
        'B', 'a', 's', 'e', ':', ' ', '\'', '-', '$', '1', '\'', '}', '-', '{', 's', 'l', 'u',
        'g', '}',
    ]);
    assert(tag =~= seq!['{', 'c', 'o', 'n', 'f', 'l', 'i', 'c', 't', 'B', 'a', 's', 'e', ':']);
    assert(f.subrange(27, 41) =~= tag);
    assert(occurs_at(f, tag, 27));
    assert(forall|i: int| 0 <= i < 36 ==> f[i] != 'B');
    assert forall|j: int| 0 <= j < 27 implies !occurs_at(f, tag, j) by {
        if occurs_at(f, tag, j) {
            assert(f.subrange(j, j + tag.len())[9] == tag[9]);
            assert(f[j + 9] == 'B');
        }
    }
    assert(is_first_occurrence(f, tag, 27));
    lemma_find_seq_is(f, tag, 27);
    let rest = f.skip(41);
    assert(rest[6] == '}');
    assert(is_first_char(rest, '}', 6));
    lemma_find_char_is(rest, '}', 6);
    let raw = rest.take(6);
    let q = seq!['\'', '-', '$', '1', '\''];
    let d = seq!['-', '$', '1'];
    assert(raw =~= seq![' ', '\'', '-', '$', '1', '\'']);
    assert(raw.skip(1) =~= q);
    assert(strip_start(raw, CharClass::White) == strip_start(q, CharClass::White));
    assert(strip_start(q, CharClass::White) == q);
    assert(strip_end(q, CharClass::White) == q);
    assert(trim(raw) == q);
    assert(q.skip(1) =~= seq!['-', '$', '1', '\'']);
    assert(strip_start(q, CharClass::Quote) == strip_start(q.skip(1), CharClass::Quote));
    assert(strip_start(q.skip(1), CharClass::Quote) == q.skip(1));
    assert(q.skip(1).drop_last() =~= d);
    assert(strip_end(q.skip(1), CharClass::Quote) == strip_end(d, CharClass::Quote));
    assert(strip_end(d, CharClass::Quote) == d);
    assert(strip(trim(raw), CharClass::Quote) == d);
    lemma_find_dollar();
    assert(d.take(1) =~= seq!['-']);
}

/// What follows the ticket reads as a conflict base and a slug: its first
/// `-`-separated word is a conflict base (see [`all_caps_word`]) and more
/// follows.
pub open spec fn reads_as_conflict(s: Seq<char>) -> bool {
    match find_char(s, '-') {
        Some(d) => s.skip(d + 1).len() > 0 && all_caps_word(s.take(d)),
        None => false,
    }
}

/// A branch rendered with the default format parses back into the prefix,
/// ticket key and slug it was rendered from, when the prefix has no `/`, the
/// key is a ticket key and the slug does not start with `-`.
#[verifier::spinoff_prover]
pub proof fn lemma_default_branch_roundtrip(p: Seq<char>, k: Seq<char>, s: Seq<char>, cb: Seq<char>)
    requires
        forall|j: int| 0 <= j < p.len() ==> p[j] != '/',
        ticket_end(k) == Some(k.len() as int),
        s.len() > 0 ==> s[0] != '-',
    ensures
        parse_spec(render(default_branch_format(), branch_vars(p, k, s, cb)), default_branch_format())
            == Some((p, k, s, None::<Seq<char>>)),
{
    lemma_default_format_renders(p, k, s, cb);
    lemma_default_format_has_no_conflict_clause();
    let tail = seq!['-'] + s;
    let b = p + seq!['/'] + (k + tail);
    assert(p + seq!['/'] + k + seq!['-'] + s =~= b);
    lemma_find_slash(p, k + tail);
    assert(b.take(p.len() as int) =~= p);
    let after = b.skip(p.len() as int + 1);
    assert(after =~= k + tail);
    lemma_ticket_end_concat(k, tail);
    assert(after.take(k.len() as int) =~= k);
    assert(after.skip(k.len() as int) =~= tail);
    assert(tail.skip(1) =~= s);
    assert(strip_start(tail, CharClass::Dash) == strip_start(s, CharClass::Dash));
}

/// A branch rendered with the conflict format parses back into the prefix,
/// ticket key, slug and conflict base it was rendered from, when the prefix
/// has no `/`, the key is a ticket key, a conflict base is capitals and `_`
/// with at least two capitals, followed by a non-empty slug, and without a conflict base
/// the slug does not itself read as one.
#[verifier::spinoff_prover]
#[verifier::rlimit(60)]
pub proof fn lemma_conflict_branch_roundtrip(p: Seq<char>, k: Seq<char>, s: Seq<char>, cb: Seq<char>)
    requires
        forall|j: int| 0 <= j < p.len() ==> p[j] != '/',
        ticket_end(k) == Some(k.len() as int),
        cb.len() > 0 ==> all_caps_word(cb) && s.len() > 0,
        cb.len() == 0 ==> !reads_as_conflict(s),
    ensures
        parse_spec(
            render(conflict_branch_format(), branch_vars(p, k, s, cb)),
            conflict_branch_format(),
        ) == Some((p, k, s, if cb.len() > 0 { Some(cb) } else { None::<Seq<char>> })),
{
    lemma_conflict_format_renders(p, k, s, cb);
    lemma_conflict_format_separator();
    let e = Seq::<char>::empty();
    let c = if cb.len() > 0 { seq!['-'] + cb } else { e };
    let tail = c + seq!['-'] + s;
    let b = p + seq!['/'] + (k + tail);
    assert(p + seq!['/'] + k + c + seq!['-'] + s =~= b);
    lemma_find_slash(p, k + tail);
    assert(b.take(p.len() as int) =~= p);
    let after = b.skip(p.len() as int + 1);
    assert(after =~= k + tail);
    assert(tail[0] == '-');
    lemma_ticket_end_concat(k, tail);
    assert(after.take(k.len() as int) =~= k);
    assert(after.skip(k.len() as int) =~= tail);
    assert(starts_with_seq(tail, seq!['-'])) by {
        assert(tail.take(1) =~= seq!['-']);
    }
    let rest = tail.skip(1);
    if cb.len() > 0 {
        assert(rest =~= cb + seq!['-'] + s);
        assert forall|j: int| 0 <= j < cb.len() implies rest[j] != '-' by {
            assert(rest[j] == cb[j]);
        }
        assert(rest[cb.len() as int] == '-');
        assert(is_first_char(rest, '-', cb.len() as int));
        lemma_find_char_is(rest, '-', cb.len() as int);
        assert(rest.take(cb.len() as int) =~= cb);
        assert(rest.skip(cb.len() as int + 1) =~= s);
    } else {
        assert(rest =~= s);
    }
}

/// A format without a conflict-base clause never yields a conflict base.
pub proof fn lemma_no_clause_no_conflict_base(b: Seq<char>, f: Seq<char>)
    requires
        conflict_sep(f) is None,
    ensures
        parse_spec(b, f) matches Some(parts) ==> parts.3 is None,
{
}

/// On a conflict branch rendered with the conflict format, the feature
/// branch read back from it (its parts rendered without a conflict base) is
/// the branch the parts render to without one.
pub proof fn lemma_conflict_branch_feature(p: Seq<char>, k: Seq<char>, s: Seq<char>, cb: Seq<char>)
    requires
        forall|j: int| 0 <= j < p.len() ==> p[j] != '/',
        ticket_end(k) == Some(k.len() as int),
        cb.len() > 0,
        all_caps_word(cb),
        s.len() > 0,
    ensures
        ({
            let parsed = parse_spec(
                render(conflict_branch_format(), branch_vars(p, k, s, cb)),
                conflict_branch_format(),
            );
            &&& parsed matches Some(x)
            &&& x.3 == Some(cb)
            &&& render(conflict_branch_format(), branch_vars(x.0, x.1, x.2, Seq::empty()))
                == render(conflict_branch_format(), branch_vars(p, k, s, Seq::empty()))
        }),
{
    lemma_conflict_branch_roundtrip(p, k, s, cb);
}

/// With the conflict format, `fi pr --continue` and `fi sync` on a conflict
/// branch work on the feature branch its parts render to without a conflict
/// base, read back into the same parts; `fi pr` without `--continue` refuses
/// the conflict branch, naming its conflict base.
pub proof fn lemma_pr_branches_on_conflict_branch(
    common: CommonConfig,
    p: Seq<char>,
    k: Seq<char>,
    s: Seq<char>,
    cb: Seq<char>,
    allow_conflict_branch: bool,
    r: Result<(BranchInfo, String, BranchInfo), BranchRefusal>,
)
    requires
        format_of(common) == conflict_branch_format(),
        forall|j: int| 0 <= j < p.len() ==> p[j] != '/',
        ticket_end(k) == Some(k.len() as int),
        all_caps_word(cb),
        s.len() > 0,
        !reads_as_conflict(s),
        pr_branches_ok(
            render(conflict_branch_format(), branch_vars(p, k, s, cb)),
            common,
            allow_conflict_branch,
            r,
        ),
    ensures
        allow_conflict_branch ==> (r matches Ok((pi, fb, fi)) && branch_parts(pi) == (p, k, s, Some(cb))
            && fb@ == render(conflict_branch_format(), branch_vars(p, k, s, Seq::empty()))
            && branch_parts(fi) == (p, k, s, None::<Seq<char>>)),
        !allow_conflict_branch ==> (r matches Err(BranchRefusal::ConflictBranch(x)) && x@ == cb),
{
    lemma_conflict_branch_roundtrip(p, k, s, cb);
    lemma_conflict_branch_roundtrip(p, k, s, Seq::empty());
}

/// A run that is all of one class is read whole.
proof fn lemma_run_len_full(s: Seq<char>, digits: bool)
    requires
        forall|j: int| 0 <= j < s.len() ==> run_class(digits, s[j]),
    ensures
        run_len(s, digits) == s.len(),
    decreases s.len(),
{
    if s.len() > 0 {
        assert forall|j: int| 0 <= j < s.skip(1).len() implies run_class(digits, s.skip(1)[j]) by {
            assert(s.skip(1)[j] == s[j + 1]);
        }
        lemma_run_len_full(s.skip(1), digits);
    }
}

/// Right after the first `/` of a branch, ASCII capitals (any number of
/// them), `-` and ASCII digits are read as the ticket key, whatever the
/// format and whatever follows, as long as what follows does not go on with
/// a digit; what precedes the `/` is the prefix.
pub proof fn lemma_ticket_key_read(
    p: Seq<char>,
    u: Seq<char>,
    d: Seq<char>,
    tail: Seq<char>,
    f: Seq<char>,
)
    requires
        forall|j: int| 0 <= j < p.len() ==> p[j] != '/',
        u.len() > 0,
        forall|j: int| 0 <= j < u.len() ==> 'A' <= u[j] && u[j] <= 'Z',
        d.len() > 0,
        forall|j: int| 0 <= j < d.len() ==> '0' <= d[j] && d[j] <= '9',
        tail.len() > 0 ==> !('0' <= tail[0] && tail[0] <= '9'),
    ensures
        parse_spec(p + seq!['/'] + u + seq!['-'] + d + tail, f) matches Some(x) && x.0 == p && x.1
            == u + seq!['-'] + d,
{
    let k = u + seq!['-'] + d;
    let rest = seq!['-'] + d;
    assert(k =~= u + rest);
    lemma_run_len_full(u, false);
    lemma_run_len_concat(u, rest, false);
    assert(run_len(rest, false) == 0);
    assert(k[u.len() as int] == '-');
    assert(k.skip(u.len() as int + 1) =~= d);
    lemma_run_len_full(d, true);
    assert(ticket_end(k) == Some(k.len() as int));
    if tail.len() > 0 {
        lemma_ticket_end_concat(k, tail);
    } else {
        assert(k + tail =~= k);
    }
    let b = p + seq!['/'] + u + seq!['-'] + d + tail;
    assert(b =~= p + seq!['/'] + (k + tail));
    lemma_find_slash(p, k + tail);
    assert(b.take(p.len() as int) =~= p);
    assert(b.skip(p.len() as int + 1) =~= k + tail);
    assert((k + tail).take(k.len() as int) =~= k);
}

/// The positions listed for `n` are exactly those whose assessment needs
/// `n`, in increasing order.
proof fn lemma_indices_needing(s: Seq<TargetAssessment>, n: TargetNeed)
    ensures
        forall|i: int| #[trigger] indices_needing(s, n).contains(i) <==> 0 <= i < s.len() && needs(s[i], n),
        forall|a: int, b: int|
            0 <= a < b < indices_needing(s, n).len() ==> #[trigger] indices_needing(s, n)[a]
                < #[trigger] indices_needing(s, n)[b],
        forall|a: int| 0 <= a < indices_needing(s, n).len() ==> 0 <= #[trigger] indices_needing(s, n)[a] < s.len(),
    decreases s.len(),
{
    if s.len() > 0 {
        let t = s.drop_last();
        lemma_indices_needing(t, n);
        let l = indices_needing(t, n);
        let tail = if needs(s.last(), n) { seq![s.len() - 1] } else { Seq::<int>::empty() };
        assert(indices_needing(s, n) == l + tail);
        assert forall|i: int| #[trigger] indices_needing(s, n).contains(i) <==> 0 <= i < s.len() && needs(s[i], n) by {
            if indices_needing(s, n).contains(i) {
                let w = choose|w: int| 0 <= w < (l + tail).len() && (l + tail)[w] == i;
                if w < l.len() {
                    assert(l.contains(i));
                    assert(t[i] == s[i]);
                } else {
                    assert(i == s.len() - 1);
                }
            }
            if 0 <= i < s.len() && needs(s[i], n) {
                if i < s.len() - 1 {
                    assert(t[i] == s[i]);
                    assert(l.contains(i));
                    let w = choose|w: int| 0 <= w < l.len() && l[w] == i;
                    assert((l + tail)[w] == i);
                } else {
                    assert((l + tail)[l.len() as int] == i);
                }
            }
        }
    }
}

/// What each target needs, by its assessment: a clean PR exactly when it
/// merges cleanly and has no PR yet (an open, merged or closed PR means
/// none is offered); a conflict branch exactly when it is not the default
/// target, merging into it conflicts and its conflict branch does not exist;
/// a merge into the conflict branch exactly when that branch exists without
/// the feature branch; a sync exactly when it conflicts and its conflict
/// branch exists. The positions come in increasing order.
pub proof fn lemma_target_needs(s: Seq<TargetAssessment>)
    ensures
        forall|i: int| #[trigger] indices_needing(s, TargetNeed::CleanPr).contains(i) <==> 0 <= i
            < s.len() && !s[i].has_conflict && (s[i].main_pr matches PrStatus::NoPr),
        forall|i: int| #[trigger] indices_needing(s, TargetNeed::ConflictBranch).contains(i) <==> 0
            <= i < s.len() && !s[i].is_default && s[i].has_conflict && !s[i].conflict_branch_exists,
        forall|i: int| #[trigger] indices_needing(s, TargetNeed::MergeIntoConflict).contains(i)
            <==> 0 <= i < s.len() && s[i].conflict_branch_exists && !s[i].feature_merged_in,
        forall|i: int| #[trigger] indices_needing(s, TargetNeed::Sync).contains(i) <==> 0 <= i
            < s.len() && s[i].has_conflict && s[i].conflict_branch_exists,
        forall|n: TargetNeed, a: int, b: int|
            0 <= a < b < indices_needing(s, n).len() ==> #[trigger] indices_needing(s, n)[a]
                < #[trigger] indices_needing(s, n)[b],
{
    lemma_indices_needing(s, TargetNeed::CleanPr);
    lemma_indices_needing(s, TargetNeed::ConflictBranch);
    lemma_indices_needing(s, TargetNeed::MergeIntoConflict);
    lemma_indices_needing(s, TargetNeed::Sync);
    assert forall|n: TargetNeed, a: int, b: int|
        0 <= a < b < indices_needing(s, n).len() implies #[trigger] indices_needing(s, n)[a]
            < #[trigger] indices_needing(s, n)[b] by {
        lemma_indices_needing(s, n);
    }
}

/// Upper-casing a lower-case ASCII letter gives a capital.
proof fn lemma_ascii_upper(c: char)
    ensures
        'a' <= c <= 'z' ==> 'A' <= ascii_upper(c) <= 'Z',
        !('a' <= c <= 'z') ==> ascii_upper(c) == c,
{
}

/// The titles of the words `ws`, counted from `start`.
spec fn titled_from(ws: Seq<Seq<char>>, start: int) -> Seq<Seq<char>> {
    Seq::new(ws.len(), |i: int| title_word(ws[i], i + start))
}

/// `t` is `s` with each `-` a space and some lower-case ASCII letters
/// made capitals.
spec fn title_of(s: Seq<char>, t: Seq<char>) -> bool {
    &&& t.len() == s.len()
    &&& forall|i: int|
        0 <= i < s.len() ==> (s[i] == '-' ==> t[i] == ' ') && (s[i] != '-' ==> t[i] == s[i] || (
        'a' <= s[i] <= 'z' && 'A' <= #[trigger] t[i] <= 'Z'))
}

/// A word's title keeps its characters, or makes a lower-case first letter
/// a capital; the first word's first letter is always a capital.
proof fn lemma_title_word_shape(w: Seq<char>, i: int)
    ensures
        title_word(w, i).len() == w.len(),
        forall|j: int|
            0 <= j < w.len() ==> #[trigger] title_word(w, i)[j] == w[j] || ('a' <= w[j] <= 'z' && 'A'
                <= title_word(w, i)[j] <= 'Z'),
        i == 0 && w.len() > 0 && 'a' <= w[0] <= 'z' ==> 'A' <= title_word(w, i)[0] <= 'Z',
{
    if w.len() > 0 {
        lemma_ascii_upper(w[0]);
    }
}

/// The words of `s`, titled from `start` and joined with spaces, are `s`
/// with each `-` a space and some lower-case letters made capitals; with
/// `start` zero a lower-case first letter becomes a capital.
proof fn lemma_titled_join(s: Seq<char>, start: int)
    requires
        start >= 0,
    ensures
        title_of(s, join(titled_from(split_on(s, '-'), start), seq![' '])),
        start == 0 && s.len() > 0 && 'a' <= s[0] <= 'z' ==> 'A' <= join(
            titled_from(split_on(s, '-'), start),
            seq![' '],
        )[0] <= 'Z',
    decreases s.len(),
{
    lemma_find_char_props(s, '-');
    let ws = split_on(s, '-');
    let parts = titled_from(ws, start);
    let t = join(parts, seq![' ']);
    match find_char(s, '-') {
        None => {
            assert(ws == seq![s]);
            assert(parts.len() == 1);
            assert(t == title_word(s, start));
            lemma_title_word_shape(s, start);
            assert forall|i: int| 0 <= i < s.len() implies (s[i] == '-' ==> t[i] == ' ') && (s[i]
                != '-' ==> t[i] == s[i] || ('a' <= s[i] <= 'z' && 'A' <= #[trigger] t[i] <= 'Z')) by {
                assert(t[i] == title_word(s, start)[i]);
            }
        },
        Some(k) => {
            let w0 = s.take(k);
            let rest = s.skip(k + 1);
            lemma_split_nonempty(rest, '-');
            let ws2 = split_on(rest, '-');
            assert(ws == seq![w0] + ws2);
            assert(parts.len() >= 2);
            assert(parts[0] == title_word(w0, start));
            assert(parts.skip(1) =~= titled_from(ws2, start + 1));
            let a = title_word(w0, start);
            let b = join(titled_from(ws2, start + 1), seq![' ']);
            assert(t == a + seq![' '] + b);
            lemma_title_word_shape(w0, start);
            lemma_titled_join(rest, start + 1);
            assert forall|i: int| 0 <= i < s.len() implies (s[i] == '-' ==> t[i] == ' ') && (s[i]
                != '-' ==> t[i] == s[i] || ('a' <= s[i] <= 'z' && 'A' <= #[trigger] t[i] <= 'Z')) by {
                if i < k {
                    assert(s[i] == w0[i]);
                    assert(t[i] == a[i]);
                } else if i == k {
                    assert(t[i] == ' ');
                } else {
                    assert(s[i] == rest[i - k - 1]);
                    assert(t[i] == b[i - k - 1]);
                }
            }
            if start == 0 && s.len() > 0 && 'a' <= s[0] <= 'z' {
                assert(k > 0);
                assert(w0[0] == s[0]);
                assert(t[0] == a[0]);
            }
        },
    }
}

/// A branch's title is its slug with each `-` a space and nothing else
/// changed but some lower-case ASCII letters made capitals (words are
/// never dropped, cut or reordered), and a slug starting with a lower-case
/// letter gets a title starting with a capital.
pub proof fn lemma_title_shape(slug: Seq<char>)
    ensures
        title_case(slug).len() == slug.len(),
        forall|i: int|
            0 <= i < slug.len() ==> (slug[i] == '-' ==> title_case(slug)[i] == ' ') && (slug[i] != '-'
                ==> title_case(slug)[i] == slug[i] || ('a' <= slug[i] <= 'z' && 'A'
                <= #[trigger] title_case(slug)[i] <= 'Z')),
        slug.len() > 0 && 'a' <= slug[0] <= 'z' ==> 'A' <= title_case(slug)[0] <= 'Z',
{
    let ws = split_on(slug, '-');
    assert(Seq::new(ws.len(), |i: int| title_word(ws[i], i)) =~= titled_from(ws, 0));
    lemma_titled_join(slug, 0);
}

} // verus!
