//! The `SKILL.md` manifest format: YAML frontmatter bounded by `---` lines
//! (the closing line may also be `...`), followed by a markdown body.
use crate::strutil::{
    chars_eq_str, chars_to_string, join_pieces, join_seq, split_char, split_seq, str_chars,
    subrange_vec, trim_chars, trim_seq,
};
use vstd::prelude::*;

verus! {

/// One trailing carriage return removed, as `str::lines` strips it.
pub open spec fn strip_one_cr(p: Seq<char>) -> Seq<char> {
    if p.len() > 0 && p.last() == '\r' {
        p.drop_last()
    } else {
        p
    }
}

/// Every trailing `\r` removed (pieces of a split on `\n` hold no `\n`).
pub open spec fn strip_trailing_crs(p: Seq<char>) -> Seq<char>
    decreases p.len(),
{
    if p.len() > 0 && p.last() == '\r' {
        strip_trailing_crs(p.drop_last())
    } else {
        p
    }
}

/// The lines of `s`, as `str::lines` yields them: split on `\n`, one
/// trailing `\r` stripped from each, no final empty line.
pub open spec fn lines_seq(s: Seq<char>) -> Seq<Seq<char>> {
    let ps = split_seq(s, '\n');
    let ps2 = if ps.last().len() == 0 {
        ps.drop_last()
    } else {
        ps
    };
    ps2.map_values(|p: Seq<char>| strip_one_cr(p))
}

/// The lines of a character vector.
pub fn lines_of(v: &[char]) -> (r: Vec<Vec<char>>)
    ensures
        r@.map_values(|p: Vec<char>| p@) == lines_seq(v@),
{
    let mut ps = split_char(v, '\n');
    let ghost gps = split_seq(v@, '\n');
    if ps[ps.len() - 1].len() == 0 {
        proof {
            assert(gps.last() == ps@.map_values(|p: Vec<char>| p@).last());
        }
        let _ = ps.pop();
    }
    let ghost ps2 = if gps.last().len() == 0 {
        gps.drop_last()
    } else {
        gps
    };
    proof {
        assert(ps@.map_values(|p: Vec<char>| p@) =~= ps2);
    }
    let mut r: Vec<Vec<char>> = Vec::new();
    let mut i: usize = 0;
    proof {
        assert(r@.map_values(|p: Vec<char>| p@) =~= ps2.take(0).map_values(
            |p: Seq<char>| strip_one_cr(p),
        ));
    }
    while i < ps.len()
        invariant
            i <= ps@.len(),
            ps@.map_values(|p: Vec<char>| p@) == ps2,
            ps2.len() == ps@.len(),
            r@.map_values(|p: Vec<char>| p@) == ps2.take(i as int).map_values(
                |p: Seq<char>| strip_one_cr(p),
            ),
        decreases ps@.len() - i,
    {
        let n = ps[i].len();
        let mut piece = subrange_vec(ps[i].as_slice(), 0, n);
        proof {
            assert(piece@ =~= ps2[i as int]);
        }
        if piece.len() > 0 && piece[piece.len() - 1] == '\r' {
            let m = piece.len() - 1;
            let ghost before = piece@;
            piece.truncate(m);
            proof {
                assert(piece@ =~= before.drop_last());
            }
        }
        proof {
            assert(piece@ == strip_one_cr(ps2[i as int]));
        }
        r.push(piece);
        proof {
            assert(ps2.take(i + 1) =~= ps2.take(i as int).push(ps2[i as int]));
            assert(r@.map_values(|p: Vec<char>| p@) =~= ps2.take(i as int).map_values(
                |p: Seq<char>| strip_one_cr(p),
            ).push(strip_one_cr(ps2[i as int])));
            assert(ps2.take(i + 1).map_values(|p: Seq<char>| strip_one_cr(p)) =~= ps2.take(
                i as int,
            ).map_values(|p: Seq<char>| strip_one_cr(p)).push(strip_one_cr(ps2[i as int])));
        }
        i = i + 1;
    }
    proof {
        assert(ps2.take(ps2.len() as int) =~= ps2);
    }
    r
}

/// Strips every trailing `\r` from a piece.
pub fn strip_crs(v: Vec<char>) -> (r: Vec<char>)
    ensures
        r@ == strip_trailing_crs(v@),
{
    let ghost orig = v@;
    let mut w = v;
    while w.len() > 0 && w[w.len() - 1] == '\r'
        invariant
            strip_trailing_crs(orig) == strip_trailing_crs(w@),
        decreases w@.len(),
    {
        let n = w.len() - 1;
        let ghost before = w@;
        w.truncate(n);
        proof {
            assert(w@ =~= before.drop_last());
        }
    }
    w
}

/// The concatenation of lines `from..to`, each followed by a newline.
pub open spec fn cat_lines(ls: Seq<Seq<char>>, from: int, to: int) -> Seq<char>
    decreases to - from,
{
    if from >= to {
        Seq::empty()
    } else {
        ls[from] + seq!['\n'] + cat_lines(ls, from + 1, to)
    }
}

pub proof fn lemma_cat_lines_snoc(ls: Seq<Seq<char>>, from: int, to: int)
    requires
        from <= to,
    ensures
        cat_lines(ls, from, to + 1) == cat_lines(ls, from, to) + ls[to] + seq!['\n'],
    decreases to - from,
{
    if from == to {
        assert(cat_lines(ls, from + 1, to + 1) =~= Seq::<char>::empty());
        assert(cat_lines(ls, from, to) =~= Seq::<char>::empty());
        assert(cat_lines(ls, from, to + 1) =~= cat_lines(ls, from, to) + ls[to] + seq!['\n']);
    } else {
        lemma_cat_lines_snoc(ls, from + 1, to);
        assert(ls[from] + seq!['\n'] + (cat_lines(ls, from + 1, to) + ls[to] + seq!['\n']) =~= (
        ls[from] + seq!['\n'] + cat_lines(ls, from + 1, to)) + ls[to] + seq!['\n']);
    }
}

/// The first index in `[k, to)` whose line, stripped of trailing carriage
/// returns, is `---` or `...`; or -1.
pub open spec fn first_close_index(ls: Seq<Seq<char>>, k: int, to: int) -> int
    decreases to - k,
{
    if k >= to {
        -1
    } else if strip_trailing_crs(ls[k]) == "---"@ || strip_trailing_crs(ls[k]) == "..."@ {
        k
    } else {
        first_close_index(ls, k + 1, to)
    }
}

/// What `split_frontmatter` yields: the raw YAML block between the opening
/// `---` line and the first closing `---`/`...` line, and the trimmed body
/// after the closing line; `None` when either delimiter is missing.
pub open spec fn spec_split_frontmatter(s: Seq<char>) -> Option<(Seq<char>, Seq<char>)> {
    let ps = split_seq(s, '\n');
    let nchunks: int = if ps.last().len() == 0 {
        ps.len() - 1
    } else {
        ps.len() as int
    };
    if nchunks < 1 {
        None
    } else if strip_trailing_crs(ps[0]) != "---"@ {
        None
    } else {
        let k = first_close_index(ps, 1, nchunks as int);
        if k < 0 {
            None
        } else {
            Some(
                (
                    cat_lines(ps, 1, k),
                    trim_seq(join_seq(ps.skip(k + 1), seq!['\n'])),
                ),
            )
        }
    }
}

/// Splits a manifest into its raw YAML block and its trimmed body.
#[verifier::loop_isolation(false)]
pub fn split_frontmatter(content: &str) -> (r: Option<(String, String)>)
    ensures
        match r {
            Some((y, b)) => spec_split_frontmatter(content@) == Some((y@, b@)),
            None => spec_split_frontmatter(content@) is None,
        },
{
    let cs = str_chars(content);
    let ps = split_char(cs.as_slice(), '\n');
    let ghost gps = split_seq(cs@, '\n');
    proof {
        assert(ps@.map_values(|p: Vec<char>| p@)[ps@.len() - 1] == ps@[ps@.len() - 1]@);
        assert(gps.last() == ps@[ps@.len() - 1]@);
    }
    let nchunks: usize = if ps[ps.len() - 1].len() == 0 {
        ps.len() - 1
    } else {
        ps.len()
    };
    let ghost spec_nchunks: int = if gps.last().len() == 0 {
        gps.len() - 1
    } else {
        gps.len() as int
    };
    proof {
        assert(nchunks as int == spec_nchunks);
    }
    if nchunks < 1 {
        return None;
    }
    let n0 = ps[0].len();
    let first = strip_crs(subrange_vec(ps[0].as_slice(), 0, n0));
    proof {
        assert(ps@[0]@ == gps[0]);
        assert(ps@[0]@.subrange(0, ps@[0]@.len() as int) =~= gps[0]);
    }
    if !chars_eq_str(first.as_slice(), "---") {
        return None;
    }
    let mut k: usize = 1;
    while k < nchunks
        invariant
            1 <= k <= nchunks <= ps@.len(),
            gps == ps@.map_values(|p: Vec<char>| p@),
            gps.len() == ps@.len(),
            first_close_index(gps, 1, nchunks as int) == first_close_index(
                gps,
                k as int,
                nchunks as int,
            ),
        decreases nchunks - k,
    {
        let nk = ps[k].len();
        let piece = strip_crs(subrange_vec(ps[k].as_slice(), 0, nk));
        proof {
            assert(ps@[k as int]@.subrange(0, ps@[k as int]@.len() as int) =~= gps[k as int]);
        }
        if chars_eq_str(piece.as_slice(), "---") || chars_eq_str(piece.as_slice(), "...") {
            proof {
                assert(first_close_index(gps, k as int, nchunks as int) == k as int);
            }
            let mut yaml: Vec<char> = Vec::new();
            let mut j: usize = 1;
            proof {
                assert(yaml@ =~= cat_lines(gps, 1, 1));
            }
            while j < k
                invariant
                    1 <= j <= k < gps.len(),
                    gps == ps@.map_values(|p: Vec<char>| p@),
                    gps.len() == ps@.len(),
                    yaml@ == cat_lines(gps, 1, j as int),
                decreases k - j,
            {
                let nj = ps[j].len();
                let mut piece_j = subrange_vec(ps[j].as_slice(), 0, nj);
                proof {
                    assert(piece_j@ =~= gps[j as int]);
                }
                let ghost y0 = yaml@;
                yaml.append(&mut piece_j);
                yaml.push('\n');
                proof {
                    lemma_cat_lines_snoc(gps, 1, j as int);
                    assert(yaml@ =~= y0 + gps[j as int] + seq!['\n']);
                }
                j = j + 1;
            }
            let body_joined = join_pieces(&ps, k + 1, '\n');
            proof {
                assert(ps@.skip(k + 1).map_values(|p: Vec<char>| p@) =~= gps.skip(k + 1));
            }
            let body = trim_chars(body_joined.as_slice());
            return Some((chars_to_string(yaml.as_slice()), chars_to_string(body.as_slice())));
        }
        k = k + 1;
    }
    None
}

/// What the recognized string field `key` of the frontmatter holds: `None`
/// when the YAML does not parse, `Some(None)` when the field is absent or
/// not a string.
pub uninterp spec fn yaml_scalar_of(yaml: Seq<char>, key: Seq<char>) -> Option<Option<Seq<char>>>;

/// What the recognized list field `key` holds: `None` when the YAML does
/// not parse; otherwise the string entries of the list, empty when the
/// field is absent or not a list.
pub uninterp spec fn yaml_list_of(yaml: Seq<char>, key: Seq<char>) -> Option<Seq<Seq<char>>>;

/// What the list field `sub` nested under the mapping `key` holds, with the
/// same conventions as `yaml_list_of`.
pub uninterp spec fn yaml_nested_list_of(
    yaml: Seq<char>,
    key: Seq<char>,
    sub: Seq<char>,
) -> Option<Seq<Seq<char>>>;

pub open spec fn opt_opt_str_view(r: Option<Option<String>>) -> Option<Option<Seq<char>>> {
    match r {
        None => None,
        Some(None) => Some(None),
        Some(Some(s)) => Some(Some(s@)),
    }
}

pub open spec fn opt_list_view(r: Option<Vec<String>>) -> Option<Seq<Seq<char>>> {
    match r {
        None => None,
        Some(v) => Some(v@.map_values(|x: String| x@)),
    }
}

/// Relies on `serde_yaml::from_str::<Value>` and `Value::{get, as_str}`:
/// the string field `key` of the parsed mapping; the result depends on the
/// text alone.
#[verifier::external_body]
pub fn yaml_scalar_field(yaml: &str, key: &str) -> (r: Option<Option<String>>)
    ensures
        opt_opt_str_view(r) == yaml_scalar_of(yaml@, key@),
{
    match serde_yaml::from_str::<serde_yaml::Value>(yaml) {
        Err(_) => None,
        Ok(v) => Some(v.get(key).and_then(serde_yaml::Value::as_str).map(|s| s.to_string())),
    }
}

/// Relies on `serde_yaml::from_str::<Value>` and `Value::{get,
/// as_sequence, as_str}`: the string entries of the list field `key`; the
/// result depends on the text alone.
#[verifier::external_body]
pub fn yaml_list_field(yaml: &str, key: &str) -> (r: Option<Vec<String>>)
    ensures
        opt_list_view(r) == yaml_list_of(yaml@, key@),
{
    match serde_yaml::from_str::<serde_yaml::Value>(yaml) {
        Err(_) => None,
        Ok(v) => Some(
            match v.get(key).and_then(serde_yaml::Value::as_sequence) {
                None => Vec::new(),
                Some(xs) => xs.iter().filter_map(|x| x.as_str().map(|s| s.to_string())).collect(),
            },
        ),
    }
}

/// Relies on `serde_yaml::from_str::<Value>` and `Value::{get,
/// as_sequence, as_str}`: the string entries of the list field `sub` under
/// the mapping `key`; the result depends on the text alone.
#[verifier::external_body]
pub fn yaml_nested_list_field(yaml: &str, key: &str, sub: &str) -> (r: Option<Vec<String>>)
    ensures
        opt_list_view(r) == yaml_nested_list_of(yaml@, key@, sub@),
{
    match serde_yaml::from_str::<serde_yaml::Value>(yaml) {
        Err(_) => None,
        Ok(v) => Some(
            match v.get(key).and_then(|c| c.get(sub)).and_then(serde_yaml::Value::as_sequence) {
                None => Vec::new(),
                Some(xs) => xs.iter().filter_map(|x| x.as_str().map(|s| s.to_string())).collect(),
            },
        ),
    }
}

} // verus!
