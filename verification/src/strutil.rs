//! Character-level string utilities shared by the whole crate.
//!
//! All logic works on `Vec<char>` / `Seq<char>`; strings cross into this
//! representation at the public boundaries.
use vstd::prelude::*;

verus! {

/// A whitespace character in the sense of Unicode's `White_Space`
/// property, which is what `str::trim` removes.
pub open spec fn is_space_char(c: char) -> bool {
    c == ' ' || c == '\t' || c == '\n' || c == '\u{b}' || c == '\u{c}' || c == '\r'
        || c == '\u{85}' || c == '\u{a0}' || c == '\u{1680}'
        || ('\u{2000}' <= c && c <= '\u{200a}')
        || c == '\u{2028}' || c == '\u{2029}' || c == '\u{202f}' || c == '\u{205f}'
        || c == '\u{3000}'
}

pub fn is_space(c: char) -> (r: bool)
    ensures
        r == is_space_char(c),
{
    c == ' ' || c == '\t' || c == '\n' || c == '\u{b}' || c == '\u{c}' || c == '\r'
        || c == '\u{85}' || c == '\u{a0}' || c == '\u{1680}'
        || ('\u{2000}' <= c && c <= '\u{200a}')
        || c == '\u{2028}' || c == '\u{2029}' || c == '\u{202f}' || c == '\u{205f}'
        || c == '\u{3000}'
}

/// What `str::to_lowercase` returns: the Unicode-lowercased text; the
/// result depends on the characters alone. An empty input stays empty.
pub uninterp spec fn lower_of(s: Seq<char>) -> Seq<char>;

/// Relies on `str::to_lowercase`: Unicode lowercasing of the whole string.
#[verifier::external_body]
pub fn lowercase(s: &str) -> (r: String)
    ensures
        r@ == lower_of(s@),
        s@.len() == 0 ==> r@.len() == 0,
{
    s.to_lowercase()
}

/// Relies on `String::push`: appends one character to the string.
#[verifier::external_body]
pub fn push_char(s: &mut String, c: char)
    ensures
        final(s)@ == old(s)@.push(c),
{
    s.push(c);
}

/// The characters of a `&str`, as a vector.
pub fn str_chars(s: &str) -> (r: Vec<char>)
    ensures
        r@ == s@,
{
    let n = s.unicode_len();
    let mut r: Vec<char> = Vec::new();
    let mut i: usize = 0;
    while i < n
        invariant
            i <= n,
            n == s@.len(),
            r@ == s@.take(i as int),
        decreases n - i,
    {
        r.push(s.get_char(i));
        i = i + 1;
    }
    proof {
        assert(s@.take(n as int) =~= s@);
    }
    r
}

/// A `String` holding exactly the given characters.
pub fn chars_to_string(v: &[char]) -> (r: String)
    ensures
        r@ == v@,
{
    let mut r = String::new();
    let mut i: usize = 0;
    while i < v.len()
        invariant
            i <= v@.len(),
            r@ == v@.take(i as int),
        decreases v@.len() - i,
    {
        push_char(&mut r, v[i]);
        i = i + 1;
    }
    proof {
        assert(v@.take(v@.len() as int) =~= v@);
    }
    r
}

/// Equality of two string slices, decided character by character.
pub fn str_eq(a: &str, b: &str) -> (r: bool)
    ensures
        r == (a@ == b@),
{
    let na = a.unicode_len();
    let nb = b.unicode_len();
    if na != nb {
        proof {
            assert(a@ != b@) by {
                if a@ == b@ {
                    assert(a@.len() == b@.len());
                }
            }
        }
        return false;
    }
    let mut i: usize = 0;
    while i < na
        invariant
            i <= na,
            na == a@.len(),
            na == b@.len(),
            forall|j: int| 0 <= j < i ==> a@[j] == b@[j],
        decreases na - i,
    {
        if a.get_char(i) != b.get_char(i) {
            return false;
        }
        i = i + 1;
    }
    proof {
        assert(a@ =~= b@);
    }
    true
}

/// Equality of a character vector and a string slice.
pub fn chars_eq_str(v: &[char], s: &str) -> (r: bool)
    ensures
        r == (v@ == s@),
{
    let n = s.unicode_len();
    if v.len() != n {
        proof {
            assert(v@ != s@) by {
                if v@ == s@ {
                    assert(v@.len() == s@.len());
                }
            }
        }
        return false;
    }
    let mut i: usize = 0;
    while i < n
        invariant
            i <= n,
            n == v@.len(),
            n == s@.len(),
            forall|j: int| 0 <= j < i ==> v@[j] == s@[j],
        decreases n - i,
    {
        if v[i] != s.get_char(i) {
            return false;
        }
        i = i + 1;
    }
    proof {
        assert(v@ =~= s@);
    }
    true
}

/// ASCII lowercasing of one character.
pub open spec fn lower_char(c: char) -> char {
    if 'A' <= c && c <= 'Z' {
        ((c as u8) + 32) as char
    } else {
        c
    }
}

/// ASCII lowercasing of a character sequence, as done by
/// `str::to_ascii_lowercase`.
pub open spec fn lower_seq(s: Seq<char>) -> Seq<char> {
    s.map_values(|c: char| lower_char(c))
}

pub fn to_lower_char(c: char) -> (r: char)
    ensures
        r == lower_char(c),
{
    if 'A' <= c && c <= 'Z' {
        ((c as u8) + 32) as char
    } else {
        c
    }
}

/// ASCII lowercasing of a character vector.
pub fn lower_chars(v: &[char]) -> (r: Vec<char>)
    ensures
        r@ == lower_seq(v@),
{
    let mut r: Vec<char> = Vec::new();
    let mut i: usize = 0;
    while i < v.len()
        invariant
            i <= v@.len(),
            r@ == lower_seq(v@.take(i as int)),
        decreases v@.len() - i,
    {
        r.push(to_lower_char(v[i]));
        proof {
            assert(lower_seq(v@.take(i + 1)) =~= lower_seq(v@.take(i as int)).push(
                lower_char(v@[i as int]),
            ));
        }
        i = i + 1;
    }
    proof {
        assert(v@.take(v@.len() as int) =~= v@);
    }
    r
}

/// Leading whitespace removed.
pub open spec fn trim_start_seq(s: Seq<char>) -> Seq<char>
    decreases s.len(),
{
    if s.len() > 0 && is_space_char(s[0]) {
        trim_start_seq(s.drop_first())
    } else {
        s
    }
}

/// Trailing whitespace removed.
pub open spec fn trim_end_seq(s: Seq<char>) -> Seq<char>
    decreases s.len(),
{
    if s.len() > 0 && is_space_char(s.last()) {
        trim_end_seq(s.drop_last())
    } else {
        s
    }
}

/// Both ends trimmed, as `str::trim` does.
pub open spec fn trim_seq(s: Seq<char>) -> Seq<char> {
    trim_end_seq(trim_start_seq(s))
}

pub proof fn lemma_trim_start_no_lead(s: Seq<char>)
    ensures
        trim_start_seq(s).len() > 0 ==> !is_space_char(trim_start_seq(s)[0]),
    decreases s.len(),
{
    if s.len() > 0 && is_space_char(s[0]) {
        lemma_trim_start_no_lead(s.drop_first());
    }
}

pub proof fn lemma_trim_end_prefix(s: Seq<char>)
    ensures
        trim_end_seq(s).len() <= s.len(),
        trim_end_seq(s) == s.take(trim_end_seq(s).len() as int),
        trim_end_seq(s).len() > 0 ==> !is_space_char(trim_end_seq(s).last()),
    decreases s.len(),
{
    if s.len() > 0 && is_space_char(s.last()) {
        lemma_trim_end_prefix(s.drop_last());
        assert(s.drop_last().take(trim_end_seq(s.drop_last()).len() as int) =~= s.take(
            trim_end_seq(s.drop_last()).len() as int,
        ));
    } else {
        assert(s.take(s.len() as int) =~= s);
    }
}

/// Trimming is idempotent.
pub proof fn lemma_trim_idempotent(s: Seq<char>)
    ensures
        trim_seq(trim_seq(s)) == trim_seq(s),
{
    let a = trim_start_seq(s);
    let t = trim_end_seq(a);
    lemma_trim_start_no_lead(s);
    lemma_trim_end_prefix(a);
    assert(trim_start_seq(t) == t) by {
        if t.len() > 0 {
            assert(t[0] == a.take(t.len() as int)[0]);
            assert(t[0] == a[0]);
        }
    }
    assert(trim_end_seq(t) == t);
}

proof fn lemma_trim_start_subrange(s: Seq<char>, i: int)
    requires
        0 <= i <= s.len(),
        forall|j: int| 0 <= j < i ==> is_space_char(s[j]),
    ensures
        trim_start_seq(s) == trim_start_seq(s.subrange(i, s.len() as int)),
    decreases i,
{
    if i > 0 {
        assert(trim_start_seq(s) == trim_start_seq(s.drop_first()));
        assert(s.drop_first() =~= s.subrange(1, s.len() as int));
        lemma_trim_start_subrange(s.subrange(1, s.len() as int), i - 1);
        assert(s.subrange(1, s.len() as int).subrange(i - 1, s.len() - 1) =~= s.subrange(
            i,
            s.len() as int,
        ));
    } else {
        assert(s.subrange(0, s.len() as int) =~= s);
    }
}

proof fn lemma_trim_end_subrange(s: Seq<char>, i: int)
    requires
        0 <= i <= s.len(),
        forall|j: int| i <= j < s.len() ==> is_space_char(s[j]),
    ensures
        trim_end_seq(s) == trim_end_seq(s.subrange(0, i)),
    decreases s.len() - i,
{
    if i < s.len() {
        assert(is_space_char(s.last()));
        assert(trim_end_seq(s) == trim_end_seq(s.drop_last()));
        assert(s.drop_last() =~= s.subrange(0, s.len() - 1));
        lemma_trim_end_subrange(s.subrange(0, s.len() - 1), i);
        assert(s.subrange(0, s.len() - 1).subrange(0, i) =~= s.subrange(0, i));
    } else {
        assert(s.subrange(0, s.len() as int) =~= s);
    }
}

/// The trimmed middle of a character vector.
pub fn trim_chars(v: &[char]) -> (r: Vec<char>)
    ensures
        r@ == trim_seq(v@),
{
    let n = v.len();
    let mut start: usize = 0;
    while start < n && is_space(v[start])
        invariant
            start <= n,
            n == v@.len(),
            forall|j: int| 0 <= j < start ==> is_space_char(v@[j]),
        decreases n - start,
    {
        start = start + 1;
    }
    let mut end: usize = n;
    while end > start && is_space(v[end - 1])
        invariant
            start <= end <= n,
            n == v@.len(),
            forall|j: int| 0 <= j < start ==> is_space_char(v@[j]),
            forall|j: int| end <= j < n ==> is_space_char(v@[j]),
        decreases end,
    {
        end = end - 1;
    }
    let mut r: Vec<char> = Vec::new();
    let mut i: usize = start;
    while i < end
        invariant
            start <= i <= end <= n,
            n == v@.len(),
            r@ == v@.subrange(start as int, i as int),
        decreases end - i,
    {
        r.push(v[i]);
        proof {
            assert(v@.subrange(start as int, i + 1) =~= v@.subrange(start as int, i as int).push(
                v@[i as int],
            ));
        }
        i = i + 1;
    }
    proof {
        lemma_trim_start_subrange(v@, start as int);
        let t = v@.subrange(start as int, n as int);
        assert(trim_start_seq(t) == t) by {
            if t.len() > 0 {
                assert(t[0] == v@[start as int]);
                if start < n {
                    assert(!is_space_char(v@[start as int]));
                }
            }
        }
        assert(trim_seq(v@) == trim_end_seq(t));
        lemma_trim_end_subrange(t, end - start);
        let u = t.subrange(0, end - start);
        assert(u =~= v@.subrange(start as int, end as int));
        assert(trim_end_seq(u) == u) by {
            if u.len() > 0 {
                assert(u.last() == v@[end - 1]);
                assert(!is_space_char(v@[end - 1]));
            }
        }
    }
    r
}

/// The trimmed form of a string, as a fresh `String`.
pub fn trim_str(s: &str) -> (r: String)
    ensures
        r@ == trim_seq(s@),
{
    let cs = str_chars(s);
    let t = trim_chars(cs.as_slice());
    chars_to_string(t.as_slice())
}

/// `p` occurs in `s` starting at index `i`.
pub open spec fn match_at(s: Seq<char>, p: Seq<char>, i: int) -> bool {
    0 <= i && i + p.len() <= s.len() && s.subrange(i, i + p.len()) == p
}

pub open spec fn starts_with_seq(s: Seq<char>, p: Seq<char>) -> bool {
    match_at(s, p, 0)
}

pub open spec fn ends_with_seq(s: Seq<char>, p: Seq<char>) -> bool {
    p.len() <= s.len() && match_at(s, p, s.len() - p.len())
}

pub open spec fn contains_seq(s: Seq<char>, p: Seq<char>) -> bool {
    exists|i: int| match_at(s, p, i)
}

/// Whether `p` occurs in `v` starting at `i`.
pub fn matches_at(v: &[char], p: &[char], i: usize) -> (r: bool)
    requires
        i + p@.len() <= v@.len(),
    ensures
        r == match_at(v@, p@, i as int),
{
    let n = v.len();
    let mut j: usize = 0;
    while j < p.len()
        invariant
            j <= p@.len(),
            i + p@.len() <= v@.len(),
            n == v@.len(),
            forall|k: int| 0 <= k < j ==> v@[i + k] == p@[k],
        decreases p@.len() - j,
    {
        if v[i + j] != p[j] {
            proof {
                assert(v@.subrange(i as int, i + p@.len())[j as int] == v@[i + j]);
            }
            return false;
        }
        j = j + 1;
    }
    proof {
        assert(v@.subrange(i as int, i + p@.len()) =~= p@);
    }
    true
}

pub fn chars_starts_with(v: &[char], p: &[char]) -> (r: bool)
    ensures
        r == starts_with_seq(v@, p@),
{
    if p.len() > v.len() {
        return false;
    }
    matches_at(v, p, 0)
}

pub fn chars_ends_with(v: &[char], p: &[char]) -> (r: bool)
    ensures
        r == ends_with_seq(v@, p@),
{
    if p.len() > v.len() {
        return false;
    }
    matches_at(v, p, v.len() - p.len())
}

/// First occurrence of `p` in `v`, if any.
pub fn find_sub(v: &[char], p: &[char]) -> (r: Option<usize>)
    ensures
        match r {
            Some(i) => match_at(v@, p@, i as int) && forall|j: int|
                0 <= j < i ==> !match_at(v@, p@, j),
            None => forall|j: int| !match_at(v@, p@, j),
        },
{
    if p.len() > v.len() {
        return None;
    }
    let mut i: usize = 0;
    loop
        invariant_except_break
            p@.len() <= v@.len(),
            i <= v@.len() - p@.len(),
            forall|j: int| 0 <= j < i ==> !match_at(v@, p@, j),
        ensures
            forall|j: int| !match_at(v@, p@, j),
        decreases v@.len() - p@.len() - i,
    {
        if matches_at(v, p, i) {
            return Some(i);
        }
        if i == v.len() - p.len() {
            break;
        }
        i = i + 1;
    }
    None
}

/// Last occurrence of `p` in `v`, if any.
pub fn rfind_sub(v: &[char], p: &[char]) -> (r: Option<usize>)
    ensures
        match r {
            Some(i) => match_at(v@, p@, i as int) && forall|j: int|
                i < j ==> !match_at(v@, p@, j),
            None => forall|j: int| !match_at(v@, p@, j),
        },
{
    if p.len() > v.len() {
        return None;
    }
    let mut i: usize = v.len() - p.len();
    loop
        invariant_except_break
            p@.len() <= v@.len(),
            i <= v@.len() - p@.len(),
            forall|j: int| i < j ==> !match_at(v@, p@, j),
        ensures
            forall|j: int| !match_at(v@, p@, j),
        decreases i,
    {
        if matches_at(v, p, i) {
            return Some(i);
        }
        if i == 0 {
            break;
        }
        i = i - 1;
    }
    None
}

/// The greatest index at which `p` occurs in `s`, or -1.
pub open spec fn last_match_idx(s: Seq<char>, p: Seq<char>) -> int {
    if exists|i: int| match_at(s, p, i) {
        choose|i: int| match_at(s, p, i) && (forall|j: int| j > i ==> !match_at(s, p, j))
    } else {
        -1
    }
}

/// The least index at which `p` occurs in `s`, or -1.
pub open spec fn first_match_idx(s: Seq<char>, p: Seq<char>) -> int {
    if exists|i: int| match_at(s, p, i) {
        choose|i: int| match_at(s, p, i) && (forall|j: int| j < i ==> !match_at(s, p, j))
    } else {
        -1
    }
}

/// The last occurrence of `p` in `v`, as `last_match_idx` gives it.
pub fn rfind_sub_idx(v: &[char], p: &[char]) -> (r: Option<usize>)
    ensures
        match r {
            Some(i) => last_match_idx(v@, p@) == i as int && match_at(v@, p@, i as int)
                && forall|j: int| j > i ==> !match_at(v@, p@, j),
            None => last_match_idx(v@, p@) == -1 && forall|j: int| !match_at(v@, p@, j),
        },
{
    let r = rfind_sub(v, p);
    proof {
        match r {
            Some(i) => {
                assert(match_at(v@, p@, i as int));
                let w = choose|w: int|
                    match_at(v@, p@, w) && (forall|j: int| j > w ==> !match_at(v@, p@, j));
                if w != i as int {
                    if w < i as int {
                        assert(!match_at(v@, p@, i as int));
                    } else {
                        assert(!match_at(v@, p@, w));
                    }
                }
            },
            None => {
                if exists|i: int| match_at(v@, p@, i) {
                    let w = choose|w: int| match_at(v@, p@, w);
                    assert(!match_at(v@, p@, w));
                }
            },
        }
    }
    r
}

/// The first occurrence of `p` in `v`, as `first_match_idx` gives it.
pub fn find_sub_idx(v: &[char], p: &[char]) -> (r: Option<usize>)
    ensures
        match r {
            Some(i) => first_match_idx(v@, p@) == i as int && match_at(v@, p@, i as int)
                && forall|j: int| 0 <= j < i ==> !match_at(v@, p@, j),
            None => first_match_idx(v@, p@) == -1 && forall|j: int| !match_at(v@, p@, j),
        },
{
    let r = find_sub(v, p);
    proof {
        match r {
            Some(i) => {
                assert(match_at(v@, p@, i as int));
                let w = choose|w: int|
                    match_at(v@, p@, w) && (forall|j: int| j < w ==> !match_at(v@, p@, j));
                if w != i as int {
                    if w > i as int {
                        assert(!match_at(v@, p@, i as int));
                    } else {
                        assert(!match_at(v@, p@, w));
                    }
                }
            },
            None => {
                if exists|i: int| match_at(v@, p@, i) {
                    let w = choose|w: int| match_at(v@, p@, w);
                    assert(!match_at(v@, p@, w));
                }
            },
        }
    }
    r
}

/// The least index of `c` in `s`, or -1.
pub open spec fn first_char_idx(s: Seq<char>, c: char) -> int {
    if exists|i: int| 0 <= i < s.len() && s[i] == c {
        choose|i: int|
            0 <= i < s.len() && s[i] == c && (forall|j: int| 0 <= j < i ==> s[j] != c)
    } else {
        -1
    }
}

/// The first occurrence of `c` in `v`, as `first_char_idx` gives it.
pub fn find_char_idx(v: &[char], c: char) -> (r: Option<usize>)
    ensures
        match r {
            Some(i) => first_char_idx(v@, c) == i as int && i < v@.len() && v@[i as int] == c
                && forall|j: int| 0 <= j < i ==> v@[j] != c,
            None => first_char_idx(v@, c) == -1 && forall|j: int|
                0 <= j < v@.len() ==> v@[j] != c,
        },
{
    let r = find_char(v, c);
    proof {
        match r {
            Some(i) => {
                let w = choose|w: int|
                    0 <= w < v@.len() && v@[w] == c && (forall|j: int|
                        0 <= j < w ==> v@[j] != c);
                if w != i as int {
                    if w > i as int {
                        assert(v@[i as int] != c);
                    } else {
                        assert(v@[w] != c);
                    }
                }
            },
            None => {
                if exists|i: int| 0 <= i < v@.len() && v@[i] == c {
                    let w = choose|w: int| 0 <= w < v@.len() && v@[w] == c;
                    assert(v@[w] != c);
                }
            },
        }
    }
    r
}

/// First index of the character `c` in `v`, if any.
pub fn find_char(v: &[char], c: char) -> (r: Option<usize>)
    ensures
        match r {
            Some(i) => i < v@.len() && v@[i as int] == c && forall|j: int|
                0 <= j < i ==> v@[j] != c,
            None => forall|j: int| 0 <= j < v@.len() ==> v@[j] != c,
        },
{
    let mut i: usize = 0;
    while i < v.len()
        invariant
            i <= v@.len(),
            forall|j: int| 0 <= j < i ==> v@[j] != c,
        decreases v@.len() - i,
    {
        if v[i] == c {
            return Some(i);
        }
        i = i + 1;
    }
    None
}

/// Last index of the character `c` in `v`, if any.
pub fn rfind_char(v: &[char], c: char) -> (r: Option<usize>)
    ensures
        match r {
            Some(i) => i < v@.len() && v@[i as int] == c && forall|j: int|
                i < j < v@.len() ==> v@[j] != c,
            None => forall|j: int| 0 <= j < v@.len() ==> v@[j] != c,
        },
{
    let mut i: usize = v.len();
    while i > 0
        invariant
            i <= v@.len(),
            forall|j: int| i <= j < v@.len() ==> v@[j] != c,
        decreases i,
    {
        i = i - 1;
        if v[i] == c {
            return Some(i);
        }
    }
    None
}

/// The pieces of `s` split on `sep`, keeping empty pieces; there is always
/// at least one piece.
pub open spec fn split_seq(s: Seq<char>, sep: char) -> Seq<Seq<char>>
    decreases s.len(),
{
    if s.len() == 0 {
        seq![Seq::empty()]
    } else if s[0] == sep {
        seq![Seq::<char>::empty()] + split_seq(s.drop_first(), sep)
    } else {
        let rest = split_seq(s.drop_first(), sep);
        seq![seq![s[0]] + rest[0]] + rest.drop_first()
    }
}

pub proof fn lemma_split_seq_len(s: Seq<char>, sep: char)
    ensures
        split_seq(s, sep).len() >= 1,
    decreases s.len(),
{
    if s.len() > 0 {
        lemma_split_seq_len(s.drop_first(), sep);
    }
}

/// The pieces of `v` split on `sep`, empty pieces kept.
pub fn split_char(v: &[char], sep: char) -> (r: Vec<Vec<char>>)
    ensures
        r@.map_values(|p: Vec<char>| p@) == split_seq(v@, sep),
        r@.len() >= 1,
{
    let mut r: Vec<Vec<char>> = Vec::new();
    r.push(Vec::new());
    let mut i: usize = v.len();
    proof {
        assert(v@.skip(v@.len() as int) =~= Seq::<char>::empty());
        assert(r@.map_values(|p: Vec<char>| p@) =~= split_seq(v@.skip(i as int), sep));
    }
    while i > 0
        invariant
            i <= v@.len(),
            r@.len() >= 1,
            r@.map_values(|p: Vec<char>| p@) == split_seq(v@.skip(i as int), sep),
        decreases i,
    {
        i = i - 1;
        proof {
            assert(v@.skip(i as int).drop_first() =~= v@.skip(i + 1));
            assert(v@.skip(i as int)[0] == v@[i as int]);
        }
        if v[i] == sep {
            r.insert(0, Vec::new());
            proof {
                assert(r@.map_values(|p: Vec<char>| p@) =~= seq![Seq::<char>::empty()]
                    + split_seq(v@.skip(i + 1), sep));
            }
        } else {
            proof {
                lemma_split_seq_len(v@.skip(i + 1), sep);
            }
            let ghost rest = split_seq(v@.skip(i + 1), sep);
            let ghost old_r = r@;
            let mut first = r.remove(0);
            proof {
                assert(old_r.map_values(|p: Vec<char>| p@)[0] == first@);
            }
            first.insert(0, v[i]);
            r.insert(0, first);
            proof {
                assert(first@ =~= seq![v@[i as int]] + rest[0]);
                assert(r@ =~= seq![first] + old_r.drop_first());
                let target = seq![seq![v@[i as int]] + rest[0]] + rest.drop_first();
                assert forall|k: int| 0 <= k < r@.len() implies r@.map_values(|p: Vec<char>| p@)[k]
                    == #[trigger] target[k] by {
                    if k > 0 {
                        assert(old_r.map_values(|p: Vec<char>| p@)[k] == rest[k]);
                        assert(r@[k] == old_r[k]);
                    }
                }
                assert(r@.map_values(|p: Vec<char>| p@) =~= target);
            }
        }
    }
    proof {
        assert(v@.skip(0) =~= v@);
    }
    r
}

/// The concatenation of `pieces` with `sep` between them.
pub open spec fn join_seq(pieces: Seq<Seq<char>>, sep: Seq<char>) -> Seq<char>
    decreases pieces.len(),
{
    if pieces.len() == 0 {
        Seq::empty()
    } else if pieces.len() == 1 {
        pieces[0]
    } else {
        pieces[0] + sep + join_seq(pieces.drop_first(), sep)
    }
}

/// The tail of a join: a separator before every remaining piece.
pub open spec fn join_tail(pieces: Seq<Seq<char>>, sep: Seq<char>) -> Seq<char>
    decreases pieces.len(),
{
    if pieces.len() == 0 {
        Seq::empty()
    } else {
        sep + pieces[0] + join_tail(pieces.drop_first(), sep)
    }
}

pub proof fn lemma_join_unfold(pieces: Seq<Seq<char>>, sep: Seq<char>)
    requires
        pieces.len() >= 1,
    ensures
        join_seq(pieces, sep) == pieces[0] + join_tail(pieces.drop_first(), sep),
    decreases pieces.len(),
{
    if pieces.len() == 1 {
        assert(pieces[0] + join_tail(pieces.drop_first(), sep) =~= pieces[0]);
    } else {
        lemma_join_unfold(pieces.drop_first(), sep);
        assert(pieces[0] + sep + join_seq(pieces.drop_first(), sep) =~= pieces[0] + (sep
            + pieces.drop_first()[0] + join_tail(pieces.drop_first().drop_first(), sep)));
    }
}

/// Joins strings with a separator.
pub fn join_strings(pieces: &Vec<String>, sep: &str) -> (r: String)
    ensures
        r@ == join_seq(pieces@.map_values(|p: String| p@), sep@),
{
    let ghost gp = pieces@.map_values(|p: String| p@);
    let mut r = String::new();
    let mut i: usize = 0;
    while i < pieces.len()
        invariant
            i <= pieces@.len(),
            gp == pieces@.map_values(|p: String| p@),
            gp.len() == pieces@.len(),
            i == 0 ==> r@ == Seq::<char>::empty(),
            i >= 1 ==> join_seq(gp, sep@) == r@ + join_tail(gp.skip(i as int), sep@),
        decreases pieces@.len() - i,
    {
        proof {
            assert(gp.skip(i as int).drop_first() =~= gp.skip(i + 1));
            assert(gp.skip(i as int)[0] == gp[i as int]);
        }
        if i > 0 {
            let ghost r0 = r@;
            r.append(sep);
            r.append(pieces[i].as_str());
            proof {
                assert(r@ + join_tail(gp.skip(i + 1), sep@) =~= r0 + (sep@ + gp[i as int]
                    + join_tail(gp.skip(i + 1), sep@)));
            }
        } else {
            r.append(pieces[i].as_str());
            proof {
                lemma_join_unfold(gp, sep@);
                assert(gp.drop_first() =~= gp.skip(1));
            }
        }
        i = i + 1;
    }
    proof {
        if gp.len() >= 1 {
            assert(gp.skip(gp.len() as int) =~= Seq::<Seq<char>>::empty());
            assert(r@ + join_tail(Seq::<Seq<char>>::empty(), sep@) =~= r@);
        }
    }
    r
}

/// A copy of `v[from..to]`.
pub fn subrange_vec(v: &[char], from: usize, to: usize) -> (r: Vec<char>)
    requires
        from <= to <= v@.len(),
    ensures
        r@ == v@.subrange(from as int, to as int),
{
    let mut r: Vec<char> = Vec::new();
    let mut i: usize = from;
    while i < to
        invariant
            from <= i <= to <= v@.len(),
            r@ == v@.subrange(from as int, i as int),
        decreases to - i,
    {
        r.push(v[i]);
        proof {
            assert(v@.subrange(from as int, i + 1) =~= v@.subrange(from as int, i as int).push(
                v@[i as int],
            ));
        }
        i = i + 1;
    }
    r
}

/// The last index at which `c` occurs, or -1.
pub open spec fn last_index_of(s: Seq<char>, c: char) -> int
    decreases s.len(),
{
    if s.len() == 0 {
        -1
    } else if s.last() == c {
        s.len() - 1
    } else {
        last_index_of(s.drop_last(), c)
    }
}

pub proof fn lemma_last_index_of(s: Seq<char>, c: char)
    ensures
        -1 <= last_index_of(s, c) < s.len(),
        last_index_of(s, c) == -1 ==> forall|j: int| 0 <= j < s.len() ==> s[j] != c,
        last_index_of(s, c) >= 0 ==> s[last_index_of(s, c)] == c && forall|j: int|
            last_index_of(s, c) < j < s.len() ==> s[j] != c,
    decreases s.len(),
{
    if s.len() > 0 && s.last() != c {
        lemma_last_index_of(s.drop_last(), c);
        assert(forall|j: int| 0 <= j < s.len() - 1 ==> s[j] == s.drop_last()[j]);
    }
}

/// The last index at which `c` occurs in `v`, as `last_index_of` gives it.
pub fn rfind_char_index(v: &[char], c: char) -> (r: Option<usize>)
    ensures
        match r {
            Some(i) => last_index_of(v@, c) == i as int,
            None => last_index_of(v@, c) == -1,
        },
{
    let r = rfind_char(v, c);
    proof {
        lemma_last_index_of(v@, c);
        let li = last_index_of(v@, c);
        match r {
            Some(i) => {
                if li != i as int {
                    if li < i as int {
                        assert(v@[i as int] == c);
                    } else {
                        assert(v@[li] == c);
                    }
                }
            },
            None => {
                if li >= 0 {
                    assert(v@[li] == c);
                }
            },
        }
    }
    r
}

/// Every trailing copy of `suf` removed.
pub open spec fn strip_suffix_all(s: Seq<char>, suf: Seq<char>) -> Seq<char>
    decreases s.len(),
{
    if suf.len() > 0 && ends_with_seq(s, suf) {
        strip_suffix_all(s.take(s.len() - suf.len()), suf)
    } else {
        s
    }
}

/// Removes every trailing copy of `suf` from `v`, as
/// `str::trim_end_matches` does with a string pattern.
pub fn strip_suffix_chars(v: Vec<char>, suf: &[char]) -> (r: Vec<char>)
    requires
        suf@.len() > 0,
    ensures
        r@ == strip_suffix_all(v@, suf@),
{
    let ghost orig = v@;
    let mut w = v;
    while chars_ends_with(w.as_slice(), suf)
        invariant
            suf@.len() > 0,
            strip_suffix_all(orig, suf@) == strip_suffix_all(w@, suf@),
        decreases w@.len(),
    {
        let ghost before = w@;
        let n = w.len() - suf.len();
        w.truncate(n);
        proof {
            assert(w@ =~= before.take(before.len() - suf@.len()));
        }
    }
    w
}

/// `c` occurs somewhere in `s`.
pub open spec fn seq_contains_char(s: Seq<char>, c: char) -> bool {
    exists|j: int| 0 <= j < s.len() && s[j] == c
}

/// The digit character of a value below ten.
pub open spec fn dec_digit(d: nat) -> char {
    (48 + d) as u8 as char
}

/// The decimal numeral of `n`, most significant digit first.
pub open spec fn dec_seq(n: nat) -> Seq<char>
    decreases n,
{
    if n < 10 {
        seq![dec_digit(n)]
    } else {
        dec_seq(n / 10).push(dec_digit(n % 10))
    }
}

pub proof fn lemma_dec_seq_len(n: nat)
    ensures
        dec_seq(n).len() >= 1,
        n >= 10 ==> dec_seq(n).len() >= 2,
    decreases n,
{
    if n >= 10 {
        lemma_dec_seq_len(n / 10);
    }
}

/// Distinct numbers have distinct numerals.
pub proof fn lemma_dec_seq_injective(a: nat, b: nat)
    requires
        dec_seq(a) == dec_seq(b),
    ensures
        a == b,
    decreases a,
{
    lemma_dec_seq_len(a);
    lemma_dec_seq_len(b);
    if a < 10 && b < 10 {
        assert(dec_seq(a)[0] == dec_digit(a));
        assert(dec_seq(b)[0] == dec_digit(b));
        assert((48 + a) as u8 as char as u32 == 48 + a);
        assert((48 + b) as u8 as char as u32 == 48 + b);
    } else if a < 10 {
        assert(dec_seq(a).len() == 1);
        assert(dec_seq(b).len() >= 2);
    } else if b < 10 {
        assert(dec_seq(a).len() >= 2);
        assert(dec_seq(b).len() == 1);
    } else {
        assert(dec_seq(a).last() == dec_digit(a % 10));
        assert(dec_seq(b).last() == dec_digit(b % 10));
        assert((48 + a % 10) as u8 as char as u32 == 48 + a % 10);
        assert((48 + b % 10) as u8 as char as u32 == 48 + b % 10);
        assert(a % 10 == b % 10);
        assert(dec_seq(a).drop_last() =~= dec_seq(a / 10));
        assert(dec_seq(b).drop_last() =~= dec_seq(b / 10));
        lemma_dec_seq_injective(a / 10, b / 10);
        assert(a == 10 * (a / 10) + a % 10);
        assert(b == 10 * (b / 10) + b % 10);
    }
}

/// ASCII-case-insensitive equality of two strings.
pub fn eq_ignore_ascii(a: &str, b: &str) -> (r: bool)
    ensures
        r == (lower_seq(a@) == lower_seq(b@)),
{
    let la = lower_chars(str_chars(a).as_slice());
    let lb = lower_chars(str_chars(b).as_slice());
    let mut i: usize = 0;
    if la.len() != lb.len() {
        proof {
            assert(lower_seq(a@).len() == a@.len());
            assert(lower_seq(b@).len() == b@.len());
        }
        return false;
    }
    while i < la.len()
        invariant
            i <= la@.len(),
            la@.len() == lb@.len(),
            la@ == lower_seq(a@),
            lb@ == lower_seq(b@),
            forall|j: int| 0 <= j < i ==> la@[j] == lb@[j],
        decreases la@.len() - i,
    {
        if la[i] != lb[i] {
            return false;
        }
        i = i + 1;
    }
    proof {
        assert(la@ =~= lb@);
    }
    true
}

/// The decimal numeral of `n`, as a string.
pub fn u64_to_dec(n: u64) -> (r: String)
    ensures
        r@ == dec_seq(n as nat),
    decreases n,
{
    if n < 10 {
        let mut s = String::new();
        push_char(&mut s, ((48 + n as u8)) as char);
        proof {
            assert(s@ =~= seq![dec_digit(n as nat)]);
        }
        s
    } else {
        let mut s = u64_to_dec(n / 10);
        push_char(&mut s, (48 + (n % 10) as u8) as char);
        s
    }
}

/// Joins the pieces from index `from` on with a separator character.
pub fn join_pieces(pieces: &Vec<Vec<char>>, from: usize, sep: char) -> (r: Vec<char>)
    requires
        from <= pieces@.len(),
    ensures
        r@ == join_seq(pieces@.skip(from as int).map_values(|p: Vec<char>| p@), seq![sep]),
{
    let ghost gp = pieces@.skip(from as int).map_values(|p: Vec<char>| p@);
    let mut r: Vec<char> = Vec::new();
    let mut i: usize = from;
    while i < pieces.len()
        invariant
            from <= i <= pieces@.len(),
            gp == pieces@.skip(from as int).map_values(|p: Vec<char>| p@),
            gp.len() == pieces@.len() - from,
            i == from ==> r@ == Seq::<char>::empty(),
            i > from ==> join_seq(gp, seq![sep]) == r@ + join_tail(
                gp.skip(i - from),
                seq![sep],
            ),
        decreases pieces@.len() - i,
    {
        proof {
            assert(gp.skip(i - from).drop_first() =~= gp.skip(i - from + 1));
            assert(gp.skip(i - from)[0] == gp[i - from]);
            assert(gp[i - from] == pieces@[i as int]@);
        }
        if i > from {
            let ghost r0 = r@;
            r.push(sep);
            let mut piece = pieces[i].clone();
            r.append(&mut piece);
            proof {
                assert(r@ =~= r0 + seq![sep] + gp[i - from]);
                assert(r@ + join_tail(gp.skip(i - from + 1), seq![sep]) =~= r0 + (seq![sep] + gp[
                    i - from] + join_tail(gp.skip(i - from + 1), seq![sep])));
            }
        } else {
            let mut piece = pieces[i].clone();
            r.append(&mut piece);
            proof {
                lemma_join_unfold(gp, seq![sep]);
                assert(gp.drop_first() =~= gp.skip(1));
                assert(r@ =~= gp[0]);
            }
        }
        i = i + 1;
    }
    proof {
        if gp.len() >= 1 {
            assert(gp.skip(gp.len() as int) =~= Seq::<Seq<char>>::empty());
            assert(r@ + join_tail(Seq::<Seq<char>>::empty(), seq![sep]) =~= r@);
        } else {
            assert(pieces@.skip(from as int).len() == 0);
        }
    }
    r
}

} // verus!
