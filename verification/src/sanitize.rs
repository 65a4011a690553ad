//! Install-name sanitization: the collision-safe, filesystem-safe form of a
//! skill name.
use crate::strutil::{chars_to_string, lower_chars, lower_seq, str_chars};
use vstd::prelude::*;

verus! {

/// A character that survives sanitization unchanged: lower-case ASCII
/// letters, digits, `.` and `_`.
pub open spec fn is_keep_char(c: char) -> bool {
    ('a' <= c && c <= 'z') || ('0' <= c && c <= '9') || c == '.' || c == '_'
}

pub fn keep_char(c: char) -> (r: bool)
    ensures
        r == is_keep_char(c),
{
    ('a' <= c && c <= 'z') || ('0' <= c && c <= '9') || c == '.' || c == '_'
}

/// The collapsing pass of sanitization: keep-characters pass through, every
/// maximal run of other characters becomes one `-`. `prev_dash` records
/// whether the previous output character was a collapsing dash.
pub open spec fn sanitize_core(s: Seq<char>, prev_dash: bool) -> Seq<char>
    decreases s.len(),
{
    if s.len() == 0 {
        Seq::empty()
    } else if is_keep_char(s[0]) {
        seq![s[0]] + sanitize_core(s.drop_first(), false)
    } else if !prev_dash {
        seq!['-'] + sanitize_core(s.drop_first(), true)
    } else {
        sanitize_core(s.drop_first(), true)
    }
}

/// True of the characters stripped from the ends of a sanitized name.
pub open spec fn is_dot_dash(c: char) -> bool {
    c == '.' || c == '-'
}

pub open spec fn strip_lead_dots(s: Seq<char>) -> Seq<char>
    decreases s.len(),
{
    if s.len() > 0 && is_dot_dash(s[0]) {
        strip_lead_dots(s.drop_first())
    } else {
        s
    }
}

pub open spec fn strip_trail_dots(s: Seq<char>) -> Seq<char>
    decreases s.len(),
{
    if s.len() > 0 && is_dot_dash(s.last()) {
        strip_trail_dots(s.drop_last())
    } else {
        s
    }
}

/// What `sanitize_name` returns: lowercase, collapse disallowed characters
/// into single dashes, strip leading and trailing `.`/`-`, fall back to a
/// fixed token when nothing is left, and cap the length at 255 characters.
pub open spec fn spec_sanitize(name: Seq<char>) -> Seq<char> {
    let collapsed = sanitize_core(lower_seq(name), false);
    let stripped = strip_trail_dots(strip_lead_dots(collapsed));
    if stripped.len() == 0 {
        "unnamed-skill"@
    } else if stripped.len() > 255 {
        stripped.take(255)
    } else {
        stripped
    }
}

proof fn lemma_strip_lead_subrange(s: Seq<char>, i: int)
    requires
        0 <= i <= s.len(),
        forall|j: int| 0 <= j < i ==> is_dot_dash(s[j]),
    ensures
        strip_lead_dots(s) == strip_lead_dots(s.subrange(i, s.len() as int)),
    decreases i,
{
    if i > 0 {
        assert(strip_lead_dots(s) == strip_lead_dots(s.drop_first()));
        assert(s.drop_first() =~= s.subrange(1, s.len() as int));
        lemma_strip_lead_subrange(s.subrange(1, s.len() as int), i - 1);
        assert(s.subrange(1, s.len() as int).subrange(i - 1, s.len() - 1) =~= s.subrange(
            i,
            s.len() as int,
        ));
    } else {
        assert(s.subrange(0, s.len() as int) =~= s);
    }
}

proof fn lemma_strip_trail_subrange(s: Seq<char>, i: int)
    requires
        0 <= i <= s.len(),
        forall|j: int| i <= j < s.len() ==> is_dot_dash(s[j]),
    ensures
        strip_trail_dots(s) == strip_trail_dots(s.subrange(0, i)),
    decreases s.len() - i,
{
    if i < s.len() {
        assert(is_dot_dash(s.last()));
        assert(strip_trail_dots(s) == strip_trail_dots(s.drop_last()));
        assert(s.drop_last() =~= s.subrange(0, s.len() - 1));
        lemma_strip_trail_subrange(s.subrange(0, s.len() - 1), i);
        assert(s.subrange(0, s.len() - 1).subrange(0, i) =~= s.subrange(0, i));
    } else {
        assert(s.subrange(0, s.len() as int) =~= s);
    }
}

/// Strips leading and trailing `.`/`-` characters.
fn strip_dot_dash_ends(v: &[char]) -> (r: Vec<char>)
    ensures
        r@ == strip_trail_dots(strip_lead_dots(v@)),
{
    let n = v.len();
    let mut start: usize = 0;
    while start < n && (v[start] == '.' || v[start] == '-')
        invariant
            start <= n,
            n == v@.len(),
            forall|j: int| 0 <= j < start ==> is_dot_dash(v@[j]),
        decreases n - start,
    {
        start = start + 1;
    }
    let mut end: usize = n;
    while end > start && (v[end - 1] == '.' || v[end - 1] == '-')
        invariant
            start <= end <= n,
            n == v@.len(),
            forall|j: int| 0 <= j < start ==> is_dot_dash(v@[j]),
            forall|j: int| end <= j < n ==> is_dot_dash(v@[j]),
        decreases end,
    {
        end = end - 1;
    }
    let mut r: Vec<char> = Vec::new();
    let mut i: usize = start;
    while i < end
        invariant
            start <= i <= end <= n,
            n == v@.len(),
            r@ == v@.subrange(start as int, i as int),
        decreases end - i,
    {
        r.push(v[i]);
        proof {
            assert(v@.subrange(start as int, i + 1) =~= v@.subrange(start as int, i as int).push(
                v@[i as int],
            ));
        }
        i = i + 1;
    }
    proof {
        lemma_strip_lead_subrange(v@, start as int);
        let t = v@.subrange(start as int, n as int);
        assert(strip_lead_dots(t) == t) by {
            if t.len() > 0 && start < n {
                assert(t[0] == v@[start as int]);
            }
        }
        lemma_strip_trail_subrange(t, end - start);
        let u = t.subrange(0, end - start);
        assert(u =~= v@.subrange(start as int, end as int));
        assert(strip_trail_dots(u) == u) by {
            if u.len() > 0 {
                assert(u.last() == v@[end - 1]);
            }
        }
        assert(r@ == strip_trail_dots(strip_lead_dots(v@)));
    }
    r
}

/// The sanitized install name of a raw skill name.
pub fn sanitize_name(name: &str) -> (r: String)
    ensures
        r@ == spec_sanitize(name@),
{
    let cs = str_chars(name);
    let lower = lower_chars(cs.as_slice());
    let mut out: Vec<char> = Vec::new();
    let mut prev_dash = false;
    let mut i: usize = 0;
    proof {
        assert(lower@.skip(0) =~= lower@);
        assert(out@ + sanitize_core(lower@, false) =~= sanitize_core(lower@, false));
    }
    while i < lower.len()
        invariant
            i <= lower@.len(),
            sanitize_core(lower@, false) == out@ + sanitize_core(
                lower@.skip(i as int),
                prev_dash,
            ),
        decreases lower@.len() - i,
    {
        let c = lower[i];
        proof {
            assert(lower@.skip(i as int).drop_first() =~= lower@.skip(i + 1));
            assert(lower@.skip(i as int)[0] == lower@[i as int]);
        }
        if keep_char(c) {
            out.push(c);
            proof {
                assert(out@ + sanitize_core(lower@.skip(i + 1), false) =~= out@.drop_last() + (
                seq![c] + sanitize_core(lower@.skip(i + 1), false)));
            }
            prev_dash = false;
        } else if !prev_dash {
            out.push('-');
            proof {
                assert(out@ + sanitize_core(lower@.skip(i + 1), true) =~= out@.drop_last() + (
                seq!['-'] + sanitize_core(lower@.skip(i + 1), true)));
            }
            prev_dash = true;
        }
        i = i + 1;
    }
    proof {
        assert(lower@.skip(lower@.len() as int) =~= Seq::<char>::empty());
        assert(out@ + Seq::<char>::empty() =~= out@);
    }
    let mut stripped = strip_dot_dash_ends(out.as_slice());
    if stripped.len() == 0 {
        String::from_str("unnamed-skill")
    } else {
        if stripped.len() > 255 {
            stripped.truncate(255);
        }
        proof {
            if stripped@.len() <= 255 {
                assert(stripped@.take(stripped@.len() as int) =~= stripped@);
            }
        }
        chars_to_string(stripped.as_slice())
    }
}

} // verus!
