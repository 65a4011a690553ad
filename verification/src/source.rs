//! Source address parsing: a raw string is classified as a local path, an
//! owner/repo shorthand, a GitHub web URL, or a raw git URL.
use crate::errors::{SkillError, SkillErrorV};
use crate::strutil::{
    chars_eq_str, chars_starts_with, chars_to_string, contains_seq, find_char, find_sub,
    join_pieces, join_seq, last_index_of, lemma_last_index_of, rfind_char_index,
    seq_contains_char, split_char, split_seq, starts_with_seq, str_chars, strip_suffix_all,
    strip_suffix_chars, subrange_vec, trim_chars, trim_seq,
};
use vstd::prelude::*;
use vstd::seq_lib::*;

verus! {

/// Spec-level shape of a parsed source address.
pub struct ParsedSourceV {
    pub original: Seq<char>,
    pub git_url: Option<Seq<char>>,
    pub local_path: Option<Seq<char>>,
    pub ref_name: Option<Seq<char>>,
    pub subpath: Option<Seq<char>>,
    pub skill_filter: Option<Seq<char>>,
}

/// A parsed source address. Exactly one of `git_url` / `local_path` is set.
pub struct ParsedSource {
    pub original: String,
    pub git_url: Option<String>,
    pub local_path: Option<String>,
    pub ref_name: Option<String>,
    pub subpath: Option<String>,
    pub skill_filter: Option<String>,
}

pub open spec fn opt_str_view(o: Option<String>) -> Option<Seq<char>> {
    match o {
        Some(s) => Some(s@),
        None => None,
    }
}

impl View for ParsedSource {
    type V = ParsedSourceV;

    open spec fn view(&self) -> ParsedSourceV {
        ParsedSourceV {
            original: self.original@,
            git_url: opt_str_view(self.git_url),
            local_path: opt_str_view(self.local_path),
            ref_name: opt_str_view(self.ref_name),
            subpath: opt_str_view(self.subpath),
            skill_filter: opt_str_view(self.skill_filter),
        }
    }
}

pub open spec fn opt_parsed_view(o: Option<ParsedSource>) -> Option<ParsedSourceV> {
    match o {
        Some(p) => Some(p@),
        None => None,
    }
}

/// A string that is taken as a filesystem path: absolute in the POSIX sense
/// (leading `/`), or relative with an explicit `./` or `../` prefix, or
/// exactly `.` or `..`.
pub open spec fn spec_is_local_path(s: Seq<char>) -> bool {
    (s.len() > 0 && s[0] == '/') || starts_with_seq(s, seq!['.', '/']) || starts_with_seq(
        s,
        seq!['.', '.', '/'],
    ) || s == seq!['.'] || s == seq!['.', '.']
}

/// Whether the trimmed source string is treated as a local path.
pub fn is_local_path(input: &str) -> (r: bool)
    ensures
        r == spec_is_local_path(input@),
{
    let cs = str_chars(input);
    if cs.len() > 0 && cs[0] == '/' {
        return true;
    }
    if chars_starts_with(cs.as_slice(), &['.', '/']) {
        proof {
            assert(cs@.subrange(0, 2) =~= seq!['.', '/']);
        }
        return true;
    }
    if chars_starts_with(cs.as_slice(), &['.', '.', '/']) {
        return true;
    }
    if cs.len() == 1 && cs[0] == '.' {
        proof {
            assert(cs@ =~= seq!['.']);
        }
        return true;
    }
    if cs.len() == 2 && cs[0] == '.' && cs[1] == '.' {
        proof {
            assert(cs@ =~= seq!['.', '.']);
        }
        return true;
    }
    proof {
        if cs@ == seq!['.'] {
            assert(cs@.len() == 1);
        }
        if cs@ == seq!['.', '.'] {
            assert(cs@.len() == 2);
        }
    }
    false
}

/// The non-empty pieces of `s` split on `sep`.
pub open spec fn nonempty_pieces(s: Seq<char>, sep: char) -> Seq<Seq<char>> {
    split_seq(s, sep).filter(|p: Seq<char>| p.len() > 0)
}

/// What owner/repo shorthand parsing yields: `None` when the string is not
/// shorthand (URL-like, or fewer than two segments, or a domain-like owner).
pub open spec fn spec_owner_repo(s: Seq<char>) -> Option<ParsedSourceV> {
    if contains_seq(s, seq![':', '/', '/']) || starts_with_seq(s, seq!['g', 'i', 't', '@']) {
        None
    } else {
        let at = last_index_of(s, '@');
        let rp = if at > 0 {
            s.take(at)
        } else {
            s
        };
        let raw = trim_seq(s.skip(at + 1));
        let filt = if at > 0 && raw.len() > 0 {
            Some(raw)
        } else {
            None::<Seq<char>>
        };
        let segs = nonempty_pieces(rp, '/');
        if segs.len() < 2 {
            None
        } else {
            let owner = segs[0];
            let repo = segs[1];
            if owner[0] == '.' || repo[0] == '.' || seq_contains_char(owner, '.') {
                None
            } else {
                Some(
                    ParsedSourceV {
                        original: s,
                        git_url: Some(
                            "https://github.com/"@ + owner + seq!['/'] + repo + ".git"@,
                        ),
                        local_path: None,
                        ref_name: None,
                        subpath: if segs.len() > 2 {
                            Some(join_seq(segs.skip(2), seq!['/']))
                        } else {
                            None
                        },
                        skill_filter: filt,
                    },
                )
            }
        }
    }
}

/// Keeps the non-empty pieces, in order.
pub fn filter_nonempty(pieces: &Vec<Vec<char>>) -> (r: Vec<Vec<char>>)
    ensures
        r@.map_values(|p: Vec<char>| p@) == pieces@.map_values(|p: Vec<char>| p@).filter(
            |p: Seq<char>| p.len() > 0,
        ),
{
    let ghost allp = pieces@.map_values(|p: Vec<char>| p@);
    let mut r: Vec<Vec<char>> = Vec::new();
    let mut i: usize = 0;
    proof {
        assert(allp.take(0) =~= Seq::<Seq<char>>::empty());
        reveal_with_fuel(Seq::<_>::filter, 1);
    }
    while i < pieces.len()
        invariant
            i <= pieces@.len(),
            allp == pieces@.map_values(|p: Vec<char>| p@),
            allp.len() == pieces@.len(),
            r@.map_values(|p: Vec<char>| p@) == allp.take(i as int).filter(
                |p: Seq<char>| p.len() > 0,
            ),
        decreases pieces@.len() - i,
    {
        proof {
            reveal_with_fuel(Seq::<_>::filter, 1);
            assert(allp.take(i + 1).drop_last() =~= allp.take(i as int));
            assert(allp.take(i + 1).last() == allp[i as int]);
        }
        let n = pieces[i].len();
        if n > 0 {
            let piece = subrange_vec(pieces[i].as_slice(), 0, n);
            proof {
                assert(piece@ =~= pieces@[i as int]@);
            }
            r.push(piece);
            proof {
                assert(r@.map_values(|p: Vec<char>| p@) =~= r@.drop_last().map_values(
                    |p: Vec<char>| p@,
                ).push(allp[i as int]));
            }
        }
        i = i + 1;
    }
    proof {
        assert(allp.take(allp.len() as int) =~= allp);
    }
    r
}

/// Tries to read the trimmed source as `owner/repo[/subpath][@filter]`
/// shorthand for a GitHub repository.
pub fn parse_owner_repo_source(source: &str) -> (r: Result<Option<ParsedSource>, SkillError>)
    ensures
        r is Ok,
        match r {
            Ok(o) => opt_parsed_view(o) == spec_owner_repo(source@),
            Err(_) => true,
        },
{
    let cs = str_chars(source);
    if find_sub(cs.as_slice(), &[':', '/', '/']).is_some() {
        return Ok(None);
    }
    if chars_starts_with(cs.as_slice(), &['g', 'i', 't', '@']) {
        return Ok(None);
    }
    proof {
        assert(!contains_seq(source@, seq![':', '/', '/']));
    }
    let at_opt = rfind_char_index(cs.as_slice(), '@');
    proof {
        lemma_last_index_of(cs@, '@');
    }
    let ghost at = last_index_of(cs@, '@');
    let mut rp: Vec<char>;
    let mut filt: Option<Vec<char>> = None;
    match at_opt {
        Some(i) if i > 0 => {
            let n = cs.len();
            proof {
                assert(i < n);
            }
            rp = subrange_vec(cs.as_slice(), 0, i);
            let raw = trim_chars(subrange_vec(cs.as_slice(), i + 1, n).as_slice());
            if raw.len() > 0 {
                filt = Some(raw);
            }
        },
        _ => {
            rp = subrange_vec(cs.as_slice(), 0, cs.len());
            proof {
                assert(cs@.subrange(0, cs@.len() as int) =~= cs@);
                if at > 0 {
                    assert(cs@[at] == '@');
                }
            }
        },
    }
    proof {
        assert(rp@ == if at > 0 {
            source@.take(at)
        } else {
            source@
        });
    }
    let pieces = split_char(rp.as_slice(), '/');
    let segs = filter_nonempty(&pieces);
    let ghost gsegs = nonempty_pieces(rp@, '/');
    proof {
        assert(segs@.map_values(|p: Vec<char>| p@) == gsegs);
    }
    if segs.len() < 2 {
        return Ok(None);
    }
    proof {
        split_seq(rp@, '/').lemma_filter_pred(|p: Seq<char>| p.len() > 0, 0);
        split_seq(rp@, '/').lemma_filter_pred(|p: Seq<char>| p.len() > 0, 1);
        assert(segs@[0]@ == gsegs[0]);
        assert(segs@[1]@ == gsegs[1]);
    }
    let owner = subrange_vec(segs[0].as_slice(), 0, segs[0].len());
    let repo = subrange_vec(segs[1].as_slice(), 0, segs[1].len());
    proof {
        assert(owner@ =~= gsegs[0]);
        assert(repo@ =~= gsegs[1]);
    }
    if owner[0] == '.' || repo[0] == '.' || find_char(owner.as_slice(), '.').is_some() {
        return Ok(None);
    }
    proof {
        assert(!seq_contains_char(owner@, '.'));
    }
    let subpath: Option<String> = if segs.len() > 2 {
        let joined = join_pieces(&segs, 2, '/');
        proof {
            assert(segs@.skip(2).map_values(|p: Vec<char>| p@) =~= gsegs.skip(2));
        }
        Some(chars_to_string(joined.as_slice()))
    } else {
        None
    };
    let mut gu = str_chars("https://github.com/");
    let mut owner_copy = owner;
    gu.append(&mut owner_copy);
    gu.push('/');
    let mut repo_copy = repo;
    gu.append(&mut repo_copy);
    let mut dotgit = str_chars(".git");
    gu.append(&mut dotgit);
    proof {
        assert(gu@ =~= "https://github.com/"@ + gsegs[0] + seq!['/'] + gsegs[1] + ".git"@);
    }
    let parsed = ParsedSource {
        original: String::from_str(source),
        git_url: Some(chars_to_string(gu.as_slice())),
        local_path: None,
        ref_name: None,
        subpath,
        skill_filter: match filt {
            Some(f) => Some(chars_to_string(f.as_slice())),
            None => None,
        },
    };
    Ok(Some(parsed))
}

/// What parsing the string as a URL yields for its path: `None` when the
/// string is not a valid URL, `Some(None)` when the URL has no path
/// segments, otherwise the raw segments of the path split on `/`.
pub uninterp spec fn url_segments_of(s: Seq<char>) -> Option<Option<Seq<Seq<char>>>>;

pub open spec fn opt_segs_view(r: Option<Option<Vec<String>>>) -> Option<Option<Seq<Seq<char>>>> {
    match r {
        None => None,
        Some(None) => Some(None),
        Some(Some(v)) => Some(Some(v@.map_values(|x: String| x@))),
    }
}

/// Relies on `url::Url::parse` and `url::Url::path_segments`: the path
/// segments of the parsed URL; the result depends on the text alone.
#[verifier::external_body]
fn url_path_segments(s: &str) -> (r: Option<Option<Vec<String>>>)
    ensures
        opt_segs_view(r) == url_segments_of(s@),
{
    match url::Url::parse(s) {
        Err(_) => None,
        Ok(u) => match u.path_segments() {
            None => Some(None),
            Some(segs) => Some(Some(segs.map(|x| x.to_string()).collect())),
        },
    }
}

/// What GitHub web URL parsing yields: `Ok(None)` when the string is not a
/// GitHub URL or has fewer than two path segments; an error when the URL
/// does not parse; otherwise owner, repo (`.git` suffix stripped), the ref
/// named by a `tree` segment, and the remaining path as subpath.
pub open spec fn spec_parse_github(s: Seq<char>) -> Result<Option<ParsedSourceV>, SkillErrorV> {
    if !(starts_with_seq(s, "https://github.com/"@) || starts_with_seq(
        s,
        "http://github.com/"@,
    )) {
        Ok(None)
    } else {
        match url_segments_of(s) {
            None => Err(SkillErrorV::SourceResolution("invalid source URL: "@ + s)),
            Some(None) => Err(SkillErrorV::SourceResolution("invalid GitHub URL path"@)),
            Some(Some(raw_segs)) => {
                let segs = raw_segs.filter(|p: Seq<char>| p.len() > 0);
                if segs.len() < 2 {
                    Ok(None)
                } else {
                    let owner = segs[0];
                    let repo = strip_suffix_all(segs[1], ".git"@);
                    let has_tree = segs.len() >= 4 && segs[2] == "tree"@;
                    Ok(
                        Some(
                            ParsedSourceV {
                                original: s,
                                git_url: Some(
                                    "https://github.com/"@ + owner + seq!['/'] + repo + ".git"@,
                                ),
                                local_path: None,
                                ref_name: if has_tree {
                                    Some(segs[3])
                                } else {
                                    None
                                },
                                subpath: if has_tree && segs.len() > 4 {
                                    Some(join_seq(segs.skip(4), seq!['/']))
                                } else {
                                    None
                                },
                                skill_filter: None,
                            },
                        ),
                    )
                }
            },
        }
    }
}

/// Tries to read the trimmed source as a GitHub web URL, possibly naming a
/// ref via a `/tree/<ref>` segment and a subpath below it.
pub fn parse_github_url_source(source: &str) -> (r: Result<Option<ParsedSource>, SkillError>)
    ensures
        match r {
            Ok(o) => spec_parse_github(source@) == Ok::<Option<ParsedSourceV>, SkillErrorV>(
                opt_parsed_view(o),
            ),
            Err(e) => spec_parse_github(source@) == Err::<Option<ParsedSourceV>, SkillErrorV>(
                e@,
            ),
        },
{
    let cs = str_chars(source);
    let https_prefix = str_chars("https://github.com/");
    let http_prefix = str_chars("http://github.com/");
    if !(chars_starts_with(cs.as_slice(), https_prefix.as_slice()) || chars_starts_with(
        cs.as_slice(),
        http_prefix.as_slice(),
    )) {
        return Ok(None);
    }
    let raw = url_path_segments(source);
    match raw {
        None => {
            let mut m = String::from_str("invalid source URL: ");
            m.append(source);
            Err(SkillError::SourceResolution(m))
        },
        Some(None) => Err(
            SkillError::SourceResolution(String::from_str("invalid GitHub URL path")),
        ),
        Some(Some(raw_segs)) => {
            let ghost graw = raw_segs@.map_values(|x: String| x@);
            let mut pieces: Vec<Vec<char>> = Vec::new();
            let mut i: usize = 0;
            proof {
                assert(pieces@.map_values(|p: Vec<char>| p@) =~= graw.take(0));
            }
            while i < raw_segs.len()
                invariant
                    i <= raw_segs@.len(),
                    graw == raw_segs@.map_values(|x: String| x@),
                    graw.len() == raw_segs@.len(),
                    pieces@.map_values(|p: Vec<char>| p@) == graw.take(i as int),
                decreases raw_segs@.len() - i,
            {
                pieces.push(str_chars(raw_segs[i].as_str()));
                proof {
                    assert(pieces@.map_values(|p: Vec<char>| p@) =~= graw.take(
                        i as int,
                    ).push(graw[i as int]));
                    assert(graw.take(i + 1) =~= graw.take(i as int).push(graw[i as int]));
                }
                i = i + 1;
            }
            proof {
                assert(graw.take(graw.len() as int) =~= graw);
            }
            let segs = filter_nonempty(&pieces);
            let ghost gsegs = graw.filter(|p: Seq<char>| p.len() > 0);
            if segs.len() < 2 {
                return Ok(None);
            }
            proof {
                graw.lemma_filter_pred(|p: Seq<char>| p.len() > 0, 0);
                graw.lemma_filter_pred(|p: Seq<char>| p.len() > 0, 1);
            }
            let owner = subrange_vec(segs[0].as_slice(), 0, segs[0].len());
            let repo_raw = subrange_vec(segs[1].as_slice(), 0, segs[1].len());
            proof {
                assert(owner@ =~= gsegs[0]);
                assert(repo_raw@ =~= gsegs[1]);
            }
            let dotgit = str_chars(".git");
            proof {
                reveal_strlit(".git");
            }
            let repo = strip_suffix_chars(repo_raw, dotgit.as_slice());
            let has_tree = segs.len() >= 4 && chars_eq_str(segs[2].as_slice(), "tree");
            let ref_name: Option<String> = if has_tree {
                Some(chars_to_string(segs[3].as_slice()))
            } else {
                None
            };
            let subpath: Option<String> = if has_tree && segs.len() > 4 {
                let joined = join_pieces(&segs, 4, '/');
                proof {
                    assert(segs@.skip(4).map_values(|p: Vec<char>| p@) =~= gsegs.skip(4));
                }
                Some(chars_to_string(joined.as_slice()))
            } else {
                None
            };
            let mut gu = str_chars("https://github.com/");
            let mut owner_copy = owner;
            gu.append(&mut owner_copy);
            gu.push('/');
            let mut repo_copy = repo;
            let ghost grepo = repo_copy@;
            gu.append(&mut repo_copy);
            let mut suffix = str_chars(".git");
            gu.append(&mut suffix);
            proof {
                assert(gu@ =~= "https://github.com/"@ + gsegs[0] + seq!['/'] + grepo + ".git"@);
            }
            Ok(
                Some(
                    ParsedSource {
                        original: String::from_str(source),
                        git_url: Some(chars_to_string(gu.as_slice())),
                        local_path: None,
                        ref_name,
                        subpath,
                        skill_filter: None,
                    },
                ),
            )
        },
    }
}

/// What source parsing yields, over the trimmed input: local paths first,
/// then owner/repo shorthand, then GitHub web URLs, and finally the whole
/// string taken as a raw git URL. An empty trimmed input is rejected.
pub open spec fn spec_parse_source(s: Seq<char>) -> Result<ParsedSourceV, SkillErrorV> {
    let t = trim_seq(s);
    if t.len() == 0 {
        Err(SkillErrorV::Validation("source cannot be empty"@))
    } else if spec_is_local_path(t) {
        Ok(
            ParsedSourceV {
                original: t,
                git_url: None,
                local_path: Some(t),
                ref_name: None,
                subpath: None,
                skill_filter: None,
            },
        )
    } else {
        match spec_owner_repo(t) {
            Some(p) => Ok(p),
            None => match spec_parse_github(t) {
                Err(e) => Err(e),
                Ok(Some(p)) => Ok(p),
                Ok(None) => Ok(
                    ParsedSourceV {
                        original: t,
                        git_url: Some(t),
                        local_path: None,
                        ref_name: None,
                        subpath: None,
                        skill_filter: None,
                    },
                ),
            },
        }
    }
}

/// Classifies a raw source string. The input is trimmed first; an empty
/// result is a validation error.
pub fn parse_source(source: &str) -> (r: Result<ParsedSource, SkillError>)
    ensures
        match r {
            Ok(p) => spec_parse_source(source@) == Ok::<ParsedSourceV, SkillErrorV>(p@),
            Err(e) => spec_parse_source(source@) == Err::<ParsedSourceV, SkillErrorV>(e@),
        },
{
    let trimmed = crate::strutil::trim_str(source);
    if trimmed.as_str().unicode_len() == 0 {
        proof {
            assert(trim_seq(source@).len() == 0);
        }
        return Err(SkillError::Validation(String::from_str("source cannot be empty")));
    }
    if is_local_path(trimmed.as_str()) {
        return Ok(
            ParsedSource {
                original: trimmed.clone(),
                git_url: None,
                local_path: Some(trimmed),
                ref_name: None,
                subpath: None,
                skill_filter: None,
            },
        );
    }
    match parse_owner_repo_source(trimmed.as_str()) {
        Ok(Some(p)) => {
            return Ok(p);
        },
        Ok(None) => {
        },
        Err(e) => {
            return Err(e);
        },
    }
    match parse_github_url_source(trimmed.as_str()) {
        Ok(Some(p)) => Ok(p),
        Ok(None) => Ok(
            ParsedSource {
                original: trimmed.clone(),
                git_url: Some(trimmed),
                local_path: None,
                ref_name: None,
                subpath: None,
                skill_filter: None,
            },
        ),
        Err(e) => Err(e),
    }
}

} // verus!
