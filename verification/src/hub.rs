//! Registry- and source-install planning: the decisions of the install
//! pipeline, from request validation to the chosen skills and their target
//! names. Acquisition itself (HTTP, git, the filesystem) happens outside
//! and feeds these functions plain values.
use crate::discover::{
    path_view, skills_view, spec_filter_skills, strings_view, DiscoveredSkill, DiscoveredSkillV,
    filter_discovered_skills,
};
use crate::errors::{SkillError, SkillErrorV};
use crate::sanitize::{sanitize_name, spec_sanitize};
use crate::source::opt_str_view;
use crate::manager::seq_char_lt;
use crate::strutil::{
    eq_ignore_ascii, join_seq, join_strings, lower_seq, str_eq, trim_seq, trim_str,
};
use vstd::prelude::*;
use vstd::seq_lib::*;

verus! {

/// The search limit, clamped into the accepted range.
pub fn normalize_limit(limit: usize) -> (r: usize)
    ensures
        r == if limit < 1 {
            1usize
        } else if limit > 100 {
            100usize
        } else {
            limit
        },
{
    if limit < 1 {
        1
    } else if limit > 100 {
        100
    } else {
        limit
    }
}

/// What search preparation yields: the trimmed query and the clamped limit
/// to send, or a validation error for a blank query.
pub open spec fn spec_prepare_search(query: Seq<char>, limit: int) -> Result<
    (Seq<char>, Option<int>),
    SkillErrorV,
> {
    let t = trim_seq(query);
    if t.len() == 0 {
        Err(SkillErrorV::Validation("query cannot be empty"@))
    } else {
        Ok(
            (
                t,
                if limit > 0 {
                    Some(
                        if limit < 1 {
                            1int
                        } else if limit > 100 {
                            100int
                        } else {
                            limit
                        },
                    )
                } else {
                    None
                },
            ),
        )
    }
}

/// Validates a search query and clamps its limit; a blank query is
/// rejected before any network call.
pub fn prepare_search(query: &str, limit: usize) -> (r: Result<
    (String, Option<usize>),
    SkillError,
>)
    ensures
        match r {
            Ok((q, l)) => spec_prepare_search(query@, limit as int) == Ok::<
                (Seq<char>, Option<int>),
                SkillErrorV,
            >(
                (
                    q@,
                    match l {
                        Some(v) => Some(v as int),
                        None => None,
                    },
                ),
            ),
            Err(e) => spec_prepare_search(query@, limit as int) == Err::<
                (Seq<char>, Option<int>),
                SkillErrorV,
            >(e@),
        },
{
    let t = trim_str(query);
    if t.as_str().unicode_len() == 0 {
        return Err(SkillError::Validation(String::from_str("query cannot be empty")));
    }
    let l = if limit > 0 {
        Some(normalize_limit(limit))
    } else {
        None
    };
    Ok((t, l))
}

/// One result of the secondary catalog's keyword search.
pub struct SkillsShSearchResult {
    pub slug: String,
    pub name: String,
    pub source: String,
    pub installs: u64,
}

/// Spec shape of a secondary-catalog search result.
pub struct SkillsShSearchResultV {
    pub slug: Seq<char>,
    pub name: Seq<char>,
    pub source: Seq<char>,
    pub installs: u64,
}

impl View for SkillsShSearchResult {
    type V = SkillsShSearchResultV;

    open spec fn view(&self) -> SkillsShSearchResultV {
        SkillsShSearchResultV {
            slug: self.slug@,
            name: self.name@,
            source: self.source@,
            installs: self.installs,
        }
    }
}

pub open spec fn results_view(v: Seq<SkillsShSearchResult>) -> Seq<SkillsShSearchResultV> {
    v.map_values(|x: SkillsShSearchResult| x@)
}

/// A registry install request.
pub struct ClawhubInstallRequest {
    pub slug: String,
    pub version: Option<String>,
    pub tag: Option<String>,
    pub skills_root: String,
    pub force: bool,
}

/// A source install request.
pub struct SkillsSourceInstallRequest {
    pub source: String,
    pub skill_filters: Vec<String>,
    pub skills_root: String,
    pub force: bool,
}

/// A secondary-catalog install request.
pub struct SkillsShInstallRequest {
    pub slug_or_query: String,
    pub skills_root: String,
    pub force: bool,
}

/// One installed skill: its collision-free install name, its target path,
/// the provenance of its content, and a version when the registry named
/// one.
pub struct InstalledSkill {
    pub install_name: String,
    pub path: String,
    pub source: String,
    pub version: Option<String>,
}

/// Spec shape of an installed skill.
pub struct InstalledSkillV {
    pub install_name: Seq<char>,
    pub path: Seq<char>,
    pub source: Seq<char>,
    pub version: Option<Seq<char>>,
}

impl View for InstalledSkill {
    type V = InstalledSkillV;

    open spec fn view(&self) -> InstalledSkillV {
        InstalledSkillV {
            install_name: self.install_name@,
            path: self.path@,
            source: self.source@,
            version: opt_str_view(self.version),
        }
    }
}

/// One listed skill of a source: its directory's base name and its
/// declared name.
pub struct SourceSkill {
    pub directory: String,
    pub name: Option<String>,
}

/// Spec shape of a listed source skill.
pub struct SourceSkillV {
    pub directory: Seq<char>,
    pub name: Option<Seq<char>>,
}

impl View for SourceSkill {
    type V = SourceSkillV;

    open spec fn view(&self) -> SourceSkillV {
        SourceSkillV { directory: self.directory@, name: opt_str_view(self.name) }
    }
}

pub open spec fn source_skills_view(v: Seq<SourceSkill>) -> Seq<SourceSkillV> {
    v.map_values(|x: SourceSkill| x@)
}

/// The target directory of an install: the skills root with the install
/// name under it.
pub fn join_root_path(root: &str, name: &str) -> (r: String)
    ensures
        r@ == root@ + seq!['/'] + name@,
{
    let mut p = String::from_str(root);
    crate::strutil::push_char(&mut p, '/');
    p.append(name);
    p
}

/// Spec shape of a planned registry install.
pub struct ClawhubInstallPlanV {
    pub slug: Seq<char>,
    pub install_name: Seq<char>,
    pub version: Option<Seq<char>>,
    pub version_param: Option<Seq<char>>,
    pub tag_param: Option<Seq<char>>,
    pub source: Seq<char>,
}

/// The plan of a registry install: the trimmed slug to download, the
/// sanitized install name, the requested version as given (recorded on the
/// installed skill), the trimmed non-blank version and tag sent with the
/// download request, and the provenance string recorded on success.
pub struct ClawhubInstallPlan {
    pub slug: String,
    pub install_name: String,
    pub version: Option<String>,
    pub version_param: Option<String>,
    pub tag_param: Option<String>,
    pub source: String,
}

impl View for ClawhubInstallPlan {
    type V = ClawhubInstallPlanV;

    open spec fn view(&self) -> ClawhubInstallPlanV {
        ClawhubInstallPlanV {
            slug: self.slug@,
            install_name: self.install_name@,
            version: opt_str_view(self.version),
            version_param: opt_str_view(self.version_param),
            tag_param: opt_str_view(self.tag_param),
            source: self.source@,
        }
    }
}

pub open spec fn spec_opt_trim_nonempty(o: Option<Seq<char>>) -> Option<Seq<char>> {
    match o {
        None => None,
        Some(s) => {
            let t = trim_seq(s);
            if t.len() == 0 {
                None
            } else {
                Some(t)
            }
        },
    }
}

/// What registry install planning yields: a blank slug is rejected,
/// otherwise the trimmed slug, its sanitized install name, the requested
/// version untouched, the trimmed non-blank version and tag for the
/// download request, and the `clawhub:`-prefixed provenance.
pub open spec fn spec_plan_clawhub(
    slug: Seq<char>,
    version: Option<Seq<char>>,
    tag: Option<Seq<char>>,
) -> Result<ClawhubInstallPlanV, SkillErrorV> {
    let t = trim_seq(slug);
    if t.len() == 0 {
        Err(SkillErrorV::Validation("slug cannot be empty"@))
    } else {
        Ok(
            ClawhubInstallPlanV {
                slug: t,
                install_name: spec_sanitize(t),
                version,
                version_param: spec_opt_trim_nonempty(version),
                tag_param: spec_opt_trim_nonempty(tag),
                source: "clawhub:"@ + t,
            },
        )
    }
}

/// Plans a registry install from its request fields.
pub fn plan_clawhub_install(
    slug: &str,
    version: &Option<String>,
    tag: &Option<String>,
) -> (r: Result<ClawhubInstallPlan, SkillError>)
    ensures
        match r {
            Ok(p) => spec_plan_clawhub(slug@, opt_str_view(*version), opt_str_view(*tag))
                == Ok::<ClawhubInstallPlanV, SkillErrorV>(p@),
            Err(e) => spec_plan_clawhub(slug@, opt_str_view(*version), opt_str_view(*tag))
                == Err::<ClawhubInstallPlanV, SkillErrorV>(e@),
        },
{
    let t = trim_str(slug);
    if t.as_str().unicode_len() == 0 {
        return Err(SkillError::Validation(String::from_str("slug cannot be empty")));
    }
    let install_name = sanitize_name(t.as_str());
    let version_raw = match version {
        None => None,
        Some(v) => Some(String::from_str(v.as_str())),
    };
    let version_param = match version {
        None => None,
        Some(v) => {
            let tv = trim_str(v.as_str());
            if tv.as_str().unicode_len() == 0 {
                None
            } else {
                Some(tv)
            }
        },
    };
    let tag_param = match tag {
        None => None,
        Some(v) => {
            let tv = trim_str(v.as_str());
            if tv.as_str().unicode_len() == 0 {
                None
            } else {
                Some(tv)
            }
        },
    };
    let mut source = String::from_str("clawhub:");
    source.append(t.as_str());
    Ok(
        ClawhubInstallPlan {
            slug: t,
            install_name,
            version: version_raw,
            version_param,
            tag_param,
            source,
        },
    )
}

/// The request's explicit filters, trimmed and without blanks, with the
/// filter parsed out of the source address appended.
pub open spec fn spec_merge_filters(
    filters: Seq<Seq<char>>,
    parsed_filter: Option<Seq<char>>,
) -> Seq<Seq<char>> {
    let trimmed = filters.map_values(|f: Seq<char>| trim_seq(f)).filter(
        |f: Seq<char>| f.len() > 0,
    );
    match parsed_filter {
        Some(f) => trimmed.push(f),
        None => trimmed,
    }
}

/// Merges a request's filters with the filter parsed from the source.
#[verifier::loop_isolation(false)]
pub fn merge_filters(filters: &Vec<String>, parsed_filter: &Option<String>) -> (r: Vec<String>)
    ensures
        strings_view(r@) == spec_merge_filters(
            strings_view(filters@),
            opt_str_view(*parsed_filter),
        ),
{
    let ghost gf = strings_view(filters@);
    let ghost mapped = gf.map_values(|f: Seq<char>| trim_seq(f));
    let mut r: Vec<String> = Vec::new();
    let mut i: usize = 0;
    proof {
        reveal_with_fuel(Seq::<_>::filter, 1);
        assert(mapped.take(0) =~= Seq::<Seq<char>>::empty());
        assert(strings_view(r@) =~= mapped.take(0).filter(|f: Seq<char>| f.len() > 0));
    }
    while i < filters.len()
        invariant
            i <= gf.len(),
            gf.len() == filters@.len(),
            mapped.len() == gf.len(),
            strings_view(r@) == mapped.take(i as int).filter(|f: Seq<char>| f.len() > 0),
        decreases gf.len() - i,
    {
        proof {
            reveal_with_fuel(Seq::<_>::filter, 1);
            assert(mapped.take(i + 1).drop_last() =~= mapped.take(i as int));
            assert(mapped.take(i + 1).last() == mapped[i as int]);
            assert(gf[i as int] == filters@[i as int]@);
        }
        let t = trim_str(filters[i].as_str());
        if t.as_str().unicode_len() > 0 {
            r.push(t);
            proof {
                assert(strings_view(r@) =~= strings_view(r@).drop_last().push(
                    mapped[i as int],
                ));
            }
        }
        i = i + 1;
    }
    proof {
        assert(mapped.take(mapped.len() as int) =~= mapped);
    }
    match parsed_filter {
        Some(f) => {
            let ghost before = strings_view(r@);
            r.push(String::from_str(f.as_str()));
            proof {
                assert(strings_view(r@) =~= before.push(f@));
            }
        },
        None => {
        },
    }
    r
}

/// What skill selection yields: an error when the source held no manifest
/// at all, an error naming the filters when none matched, else the
/// filtered skills in walk order.
pub open spec fn spec_select_skills(
    discovered: Seq<DiscoveredSkillV>,
    filters: Seq<Seq<char>>,
    source: Seq<char>,
) -> Result<Seq<DiscoveredSkillV>, SkillErrorV> {
    if discovered.len() == 0 {
        Err(
            SkillErrorV::SourceResolution("no SKILL.md files found in source: "@ + source),
        )
    } else {
        let selected = spec_filter_skills(discovered, filters);
        if selected.len() == 0 {
            Err(
                SkillErrorV::Validation(
                    "no skills matched filters: "@ + join_seq(filters, ", "@),
                ),
            )
        } else {
            Ok(selected)
        }
    }
}

/// Selects the discovered skills an install request asks for.
pub fn select_skills_for_install(
    discovered: Vec<DiscoveredSkill>,
    filters: &Vec<String>,
    source: &str,
) -> (r: Result<Vec<DiscoveredSkill>, SkillError>)
    ensures
        match r {
            Ok(sel) => spec_select_skills(
                skills_view(discovered@),
                strings_view(filters@),
                source@,
            ) == Ok::<Seq<DiscoveredSkillV>, SkillErrorV>(skills_view(sel@)),
            Err(e) => spec_select_skills(
                skills_view(discovered@),
                strings_view(filters@),
                source@,
            ) == Err::<Seq<DiscoveredSkillV>, SkillErrorV>(e@),
        },
{
    if discovered.len() == 0 {
        let mut m = String::from_str("no SKILL.md files found in source: ");
        m.append(source);
        return Err(SkillError::SourceResolution(m));
    }
    let selected = filter_discovered_skills(discovered, filters);
    if selected.len() == 0 {
        let mut m = String::from_str("no skills matched filters: ");
        m.append(join_strings(filters, ", ").as_str());
        return Err(SkillError::Validation(m));
    }
    Ok(selected)
}

/// What result selection against the secondary catalog yields: the entry
/// whose slug matches the query case-insensitively, else the one whose
/// name does, else the first; its source address (the slug standing in for
/// a blank one) and its name as the install filter.
pub open spec fn spec_choose_sh_result(
    results: Seq<SkillsShSearchResultV>,
    query: Seq<char>,
) -> Result<(Seq<char>, Seq<char>), SkillErrorV> {
    if results.len() == 0 {
        Err(SkillErrorV::NotFound("no skills.sh results found for query: "@ + query))
    } else {
        let slug_i = first_match_slug(results, query, 0);
        let name_i = first_match_name(results, query, 0);
        let chosen = if slug_i >= 0 {
            results[slug_i]
        } else if name_i >= 0 {
            results[name_i]
        } else {
            results[0]
        };
        let src = if trim_seq(chosen.source).len() == 0 {
            chosen.slug
        } else {
            chosen.source
        };
        Ok((src, chosen.name))
    }
}

/// The first index at or after `i` whose slug equals the query,
/// case-insensitively; or -1.
pub open spec fn first_match_slug(
    results: Seq<SkillsShSearchResultV>,
    query: Seq<char>,
    i: int,
) -> int
    decreases results.len() - i,
{
    if i < 0 || i >= results.len() {
        -1
    } else if lower_seq(results[i].slug) == lower_seq(query) {
        i
    } else {
        first_match_slug(results, query, i + 1)
    }
}

/// The first index at or after `i` whose name equals the query,
/// case-insensitively; or -1.
pub open spec fn first_match_name(
    results: Seq<SkillsShSearchResultV>,
    query: Seq<char>,
    i: int,
) -> int
    decreases results.len() - i,
{
    if i < 0 || i >= results.len() {
        -1
    } else if lower_seq(results[i].name) == lower_seq(query) {
        i
    } else {
        first_match_name(results, query, i + 1)
    }
}

/// Chooses which secondary-catalog result an install resolves to.
#[verifier::loop_isolation(false)]
pub fn choose_skills_sh_result(results: &Vec<SkillsShSearchResult>, query: &str) -> (r: Result<
    (String, String),
    SkillError,
>)
    ensures
        match r {
            Ok((src, name)) => spec_choose_sh_result(results_view(results@), query@) == Ok::<
                (Seq<char>, Seq<char>),
                SkillErrorV,
            >((src@, name@)),
            Err(e) => spec_choose_sh_result(results_view(results@), query@) == Err::<
                (Seq<char>, Seq<char>),
                SkillErrorV,
            >(e@),
        },
{
    let ghost gr = results_view(results@);
    if results.len() == 0 {
        let mut m = String::from_str("no skills.sh results found for query: ");
        m.append(query);
        return Err(SkillError::NotFound(m));
    }
    let mut slug_i: usize = 0;
    let mut slug_found = false;
    while slug_i < results.len() && !slug_found
        invariant
            slug_i <= gr.len(),
            gr.len() == results@.len(),
            !slug_found ==> first_match_slug(gr, query@, 0) == first_match_slug(
                gr,
                query@,
                slug_i as int,
            ),
            slug_found ==> slug_i < gr.len() && first_match_slug(gr, query@, 0)
                == slug_i as int,
        decreases gr.len() - slug_i + if slug_found {
            0int
        } else {
            1int
        },
    {
        proof {
            assert(gr[slug_i as int] == results@[slug_i as int]@);
        }
        if eq_ignore_ascii(results[slug_i].slug.as_str(), query) {
            slug_found = true;
        } else {
            slug_i = slug_i + 1;
        }
    }
    proof {
        if !slug_found {
            assert(first_match_slug(gr, query@, gr.len() as int) == -1);
        }
    }
    let mut name_i: usize = 0;
    let mut name_found = false;
    while name_i < results.len() && !name_found
        invariant
            name_i <= gr.len(),
            gr.len() == results@.len(),
            !name_found ==> first_match_name(gr, query@, 0) == first_match_name(
                gr,
                query@,
                name_i as int,
            ),
            name_found ==> name_i < gr.len() && first_match_name(gr, query@, 0)
                == name_i as int,
        decreases gr.len() - name_i + if name_found {
            0int
        } else {
            1int
        },
    {
        proof {
            assert(gr[name_i as int] == results@[name_i as int]@);
        }
        if eq_ignore_ascii(results[name_i].name.as_str(), query) {
            name_found = true;
        } else {
            name_i = name_i + 1;
        }
    }
    proof {
        if !name_found {
            assert(first_match_name(gr, query@, gr.len() as int) == -1);
        }
    }
    let chosen: &SkillsShSearchResult = if slug_found {
        &results[slug_i]
    } else if name_found {
        &results[name_i]
    } else {
        &results[0]
    };
    proof {
        assert(gr[0] == results@[0]@);
    }
    let src = if trim_str(chosen.source.as_str()).as_str().unicode_len() == 0 {
        String::from_str(chosen.slug.as_str())
    } else {
        String::from_str(chosen.source.as_str())
    };
    Ok((src, String::from_str(chosen.name.as_str())))
}

/// The argument list of the shallow clone: depth one, the branch when a
/// ref is named, then the URL. The clone target directory follows when the
/// command runs.
pub open spec fn spec_git_clone_args(
    git_url: Option<Seq<char>>,
    ref_name: Option<Seq<char>>,
) -> Result<Seq<Seq<char>>, SkillErrorV> {
    match git_url {
        None => Err(SkillErrorV::Git("missing git URL for clone"@)),
        Some(url) => Ok(
            match ref_name {
                Some(rn) => seq![
                    "clone"@,
                    "--depth"@,
                    "1"@,
                    "--branch"@,
                    rn,
                    url,
                ],
                None => seq!["clone"@, "--depth"@, "1"@, url],
            },
        ),
    }
}

/// Builds the git clone argument list for a parsed source.
pub fn git_clone_args(git_url: &Option<String>, ref_name: &Option<String>) -> (r: Result<
    Vec<String>,
    SkillError,
>)
    ensures
        match r {
            Ok(args) => spec_git_clone_args(opt_str_view(*git_url), opt_str_view(*ref_name))
                == Ok::<Seq<Seq<char>>, SkillErrorV>(strings_view(args@)),
            Err(e) => spec_git_clone_args(opt_str_view(*git_url), opt_str_view(*ref_name))
                == Err::<Seq<Seq<char>>, SkillErrorV>(e@),
        },
{
    let url = match git_url {
        None => {
            return Err(SkillError::Git(String::from_str("missing git URL for clone")));
        },
        Some(u) => u,
    };
    let mut args: Vec<String> = Vec::new();
    args.push(String::from_str("clone"));
    args.push(String::from_str("--depth"));
    args.push(String::from_str("1"));
    match ref_name {
        Some(rn) => {
            args.push(String::from_str("--branch"));
            args.push(String::from_str(rn.as_str()));
            args.push(String::from_str(url.as_str()));
            proof {
                assert(strings_view(args@) =~= seq![
                    "clone"@,
                    "--depth"@,
                    "1"@,
                    "--branch"@,
                    rn@,
                    url@,
                ]);
            }
        },
        None => {
            args.push(String::from_str(url.as_str()));
            proof {
                assert(strings_view(args@) =~= seq!["clone"@, "--depth"@, "1"@, url@]);
            }
        },
    }
    Ok(args)
}

/// The failure text of a git clone: the trimmed stderr, else the trimmed
/// stdout, else a fixed fallback, under the URL-bearing prefix.
pub open spec fn spec_git_failure(
    git_url: Seq<char>,
    stderr: Seq<char>,
    stdout: Seq<char>,
) -> Seq<char> {
    let details = if trim_seq(stderr).len() > 0 {
        trim_seq(stderr)
    } else if trim_seq(stdout).len() > 0 {
        trim_seq(stdout)
    } else {
        "unknown git error"@
    };
    "git clone failed for "@ + git_url + ": "@ + details
}

/// Renders the error of a failed clone from its captured output.
pub fn git_failure_message(git_url: &str, stderr: &str, stdout: &str) -> (r: String)
    ensures
        r@ == spec_git_failure(git_url@, stderr@, stdout@),
{
    let se = trim_str(stderr);
    let so = trim_str(stdout);
    let mut m = String::from_str("git clone failed for ");
    m.append(git_url);
    m.append(": ");
    if se.as_str().unicode_len() > 0 {
        m.append(se.as_str());
    } else if so.as_str().unicode_len() > 0 {
        m.append(so.as_str());
    } else {
        m.append("unknown git error");
    }
    m
}

/// The listing order of discovered skills: by declared name ascending,
/// entries without a name last, ties broken by directory path.
pub open spec fn listing_lt(a: DiscoveredSkillV, b: DiscoveredSkillV) -> bool {
    let an = crate::discover::name_or_empty(a);
    let bn = crate::discover::name_or_empty(b);
    if an.len() == 0 && bn.len() == 0 {
        seq_char_lt(join_seq(a.dir, seq!['/']), join_seq(b.dir, seq!['/']))
    } else if an.len() == 0 {
        false
    } else if bn.len() == 0 {
        true
    } else {
        seq_char_lt(an, bn) || (an == bn && seq_char_lt(
            join_seq(a.dir, seq!['/']),
            join_seq(b.dir, seq!['/']),
        ))
    }
}

/// A discovered skill inserted before the first entry not below it.
pub open spec fn insert_listing_sorted(
    x: DiscoveredSkillV,
    s: Seq<DiscoveredSkillV>,
) -> Seq<DiscoveredSkillV>
    decreases s.len(),
{
    if s.len() == 0 {
        seq![x]
    } else if listing_lt(s[0], x) {
        seq![s[0]] + insert_listing_sorted(x, s.drop_first())
    } else {
        seq![x] + s
    }
}

pub open spec fn sort_listing(xs: Seq<DiscoveredSkillV>) -> Seq<DiscoveredSkillV>
    decreases xs.len(),
{
    if xs.len() == 0 {
        Seq::empty()
    } else {
        insert_listing_sorted(xs[0], sort_listing(xs.drop_first()))
    }
}

fn clone_skill(d: &DiscoveredSkill) -> (r: DiscoveredSkill)
    ensures
        r@ == d@,
{
    let r = DiscoveredSkill {
        dir: crate::discover::clone_path(&d.dir),
        name: match &d.name {
            Some(n) => Some(String::from_str(n.as_str())),
            None => None,
        },
    };
    proof {
        assert(r@ == d@);
    }
    r
}

/// Decides the listing order of two discovered skills.
fn listing_lt_exec(a: &DiscoveredSkill, b: &DiscoveredSkill) -> (r: bool)
    ensures
        r == listing_lt(a@, b@),
{
    let an = match &a.name {
        Some(n) => String::from_str(n.as_str()),
        None => String::new(),
    };
    let bn = match &b.name {
        Some(n) => String::from_str(n.as_str()),
        None => String::new(),
    };
    proof {
        assert(an@ == crate::discover::name_or_empty(a@));
        assert(bn@ == crate::discover::name_or_empty(b@));
    }
    let an_empty = an.as_str().unicode_len() == 0;
    let bn_empty = bn.as_str().unicode_len() == 0;
    if an_empty && bn_empty {
        let ad = join_strings(&a.dir, "/");
        let bd = join_strings(&b.dir, "/");
        proof {
            reveal_strlit("/");
            assert("/"@ =~= seq!['/']);
        }
        return crate::manager::str_lt(ad.as_str(), bd.as_str());
    }
    if an_empty {
        return false;
    }
    if bn_empty {
        return true;
    }
    if crate::manager::str_lt(an.as_str(), bn.as_str()) {
        return true;
    }
    if !str_eq(an.as_str(), bn.as_str()) {
        return false;
    }
    let ad = join_strings(&a.dir, "/");
    let bd = join_strings(&b.dir, "/");
    proof {
        reveal_strlit("/");
        assert("/"@ =~= seq!['/']);
    }
    crate::manager::str_lt(ad.as_str(), bd.as_str())
}

#[verifier::loop_isolation(false)]
fn insert_listing_exec(sorted: &Vec<DiscoveredSkill>, x: DiscoveredSkill) -> (r: Vec<
    DiscoveredSkill,
>)
    ensures
        skills_view(r@) == insert_listing_sorted(x@, skills_view(sorted@)),
{
    let ghost gs = skills_view(sorted@);
    let ghost gx = x@;
    let mut out: Vec<DiscoveredSkill> = Vec::new();
    let mut j: usize = 0;
    proof {
        assert(gs.skip(0) =~= gs);
        assert(skills_view(out@) + insert_listing_sorted(gx, gs) =~= insert_listing_sorted(
            gx,
            gs,
        ));
    }
    while j < sorted.len() && listing_lt_exec(&sorted[j], &x)
        invariant
            j <= gs.len(),
            insert_listing_sorted(gx, gs) == skills_view(out@) + insert_listing_sorted(
                gx,
                gs.skip(j as int),
            ),
            skills_view(out@).len() == j,
        decreases gs.len() - j,
    {
        proof {
            assert(gs.skip(j as int)[0] == gs[j as int]);
            assert(gs.skip(j as int).drop_first() =~= gs.skip(j + 1));
            assert(gs[j as int] == sorted@[j as int]@);
        }
        out.push(clone_skill(&sorted[j]));
        proof {
            assert(skills_view(out@) =~= skills_view(out@).drop_last().push(gs[j as int]));
            assert(skills_view(out@).drop_last() + (seq![gs[j as int]] + insert_listing_sorted(
                gx,
                gs.skip(j + 1),
            )) =~= skills_view(out@) + insert_listing_sorted(gx, gs.skip(j + 1)));
        }
        j = j + 1;
    }
    proof {
        assert(insert_listing_sorted(gx, gs.skip(j as int)) =~= seq![gx] + gs.skip(j as int))
            by {
            if gs.skip(j as int).len() > 0 {
                assert(gs.skip(j as int)[0] == gs[j as int]);
            }
        }
    }
    out.push(x);
    let mut k: usize = j;
    while k < sorted.len()
        invariant
            j <= k <= gs.len(),
            skills_view(out@) == insert_listing_sorted(gx, gs).take(k + 1),
        decreases gs.len() - k,
    {
        proof {
            assert(gs[k as int] == sorted@[k as int]@);
            assert(insert_listing_sorted(gx, gs)[k + 1] == gs[k as int]) by {
                assert(insert_listing_sorted(gx, gs) == skills_view(out@).take(j as int)
                    + insert_listing_sorted(gx, gs.skip(j as int)));
            }
        }
        out.push(clone_skill(&sorted[k]));
        proof {
            assert(skills_view(out@) =~= insert_listing_sorted(gx, gs).take(k + 2));
        }
        k = k + 1;
    }
    proof {
        assert(insert_listing_sorted(gx, gs).len() == gs.len() + 1);
        assert(skills_view(out@) =~= insert_listing_sorted(gx, gs));
    }
    out
}

/// What listing a source yields: an error when it holds no manifest, else
/// every discovered skill as its directory base name and declared name,
/// ordered by name then directory.
pub open spec fn spec_list_source(
    discovered: Seq<DiscoveredSkillV>,
    source: Seq<char>,
) -> Result<Seq<SourceSkillV>, SkillErrorV> {
    if discovered.len() == 0 {
        Err(
            SkillErrorV::SourceResolution("no SKILL.md files found in source: "@ + source),
        )
    } else {
        Ok(
            sort_listing(discovered).map_values(
                |d: DiscoveredSkillV| SourceSkillV {
                    directory: crate::discover::dir_base(d),
                    name: d.name,
                },
            ),
        )
    }
}

/// Lists a source's discovered skills in a deterministic order.
#[verifier::loop_isolation(false)]
pub fn list_source_skills(discovered: &Vec<DiscoveredSkill>, source: &str) -> (r: Result<
    Vec<SourceSkill>,
    SkillError,
>)
    ensures
        match r {
            Ok(l) => spec_list_source(skills_view(discovered@), source@) == Ok::<
                Seq<SourceSkillV>,
                SkillErrorV,
            >(source_skills_view(l@)),
            Err(e) => spec_list_source(skills_view(discovered@), source@) == Err::<
                Seq<SourceSkillV>,
                SkillErrorV,
            >(e@),
        },
{
    if discovered.len() == 0 {
        let mut m = String::from_str("no SKILL.md files found in source: ");
        m.append(source);
        return Err(SkillError::SourceResolution(m));
    }
    let ghost gd = skills_view(discovered@);
    let mut sorted: Vec<DiscoveredSkill> = Vec::new();
    let mut i: usize = discovered.len();
    proof {
        assert(gd.skip(discovered@.len() as int) =~= Seq::<DiscoveredSkillV>::empty());
    }
    while i > 0
        invariant
            i <= gd.len(),
            gd.len() == discovered@.len(),
            skills_view(sorted@) == sort_listing(gd.skip(i as int)),
        decreases i,
    {
        i = i - 1;
        proof {
            assert(gd.skip(i as int)[0] == gd[i as int]);
            assert(gd.skip(i as int).drop_first() =~= gd.skip(i + 1));
            assert(gd[i as int] == discovered@[i as int]@);
        }
        sorted = insert_listing_exec(&sorted, clone_skill(&discovered[i]));
    }
    proof {
        assert(gd.skip(0) =~= gd);
    }
    let ghost gsorted = skills_view(sorted@);
    let mut out: Vec<SourceSkill> = Vec::new();
    let mut k: usize = 0;
    proof {
        assert(source_skills_view(out@) =~= gsorted.map_values(
            |d: DiscoveredSkillV| SourceSkillV {
                directory: crate::discover::dir_base(d),
                name: d.name,
            },
        ).take(0));
    }
    while k < sorted.len()
        invariant
            k <= gsorted.len(),
            gsorted == skills_view(sorted@),
            gsorted.len() == sorted@.len(),
            source_skills_view(out@) == gsorted.map_values(
                |d: DiscoveredSkillV| SourceSkillV {
                    directory: crate::discover::dir_base(d),
                    name: d.name,
                },
            ).take(k as int),
        decreases gsorted.len() - k,
    {
        proof {
            assert(gsorted[k as int] == sorted@[k as int]@);
            assert(gsorted.map_values(
                |d: DiscoveredSkillV| SourceSkillV {
                    directory: crate::discover::dir_base(d),
                    name: d.name,
                },
            )[k as int] == SourceSkillV {
                directory: crate::discover::dir_base(gsorted[k as int]),
                name: gsorted[k as int].name,
            });
        }
        let d = &sorted[k];
        let directory = if d.dir.len() > 0 {
            String::from_str(d.dir[d.dir.len() - 1].as_str())
        } else {
            String::new()
        };
        proof {
            if d.dir@.len() > 0 {
                assert(crate::discover::path_view(d.dir)[d.dir@.len() - 1] == d.dir@[d.dir@.len()
                    - 1]@);
            } else {
                assert(crate::discover::dir_base(d@) =~= Seq::<char>::empty());
            }
        }
        out.push(
            SourceSkill {
                directory,
                name: match &d.name {
                    Some(n) => Some(String::from_str(n.as_str())),
                    None => None,
                },
            },
        );
        proof {
            assert(source_skills_view(out@) =~= source_skills_view(out@).drop_last().push(
                SourceSkillV {
                    directory: crate::discover::dir_base(gsorted[k as int]),
                    name: gsorted[k as int].name,
                },
            ));
            assert(gsorted.map_values(
                |d: DiscoveredSkillV| SourceSkillV {
                    directory: crate::discover::dir_base(d),
                    name: d.name,
                },
            ).take(k + 1) =~= gsorted.map_values(
                |d: DiscoveredSkillV| SourceSkillV {
                    directory: crate::discover::dir_base(d),
                    name: d.name,
                },
            ).take(k as int).push(
                SourceSkillV {
                    directory: crate::discover::dir_base(gsorted[k as int]),
                    name: gsorted[k as int].name,
                },
            ));
        }
        k = k + 1;
    }
    proof {
        let mapped = gsorted.map_values(
            |d: DiscoveredSkillV| SourceSkillV {
                directory: crate::discover::dir_base(d),
                name: d.name,
            },
        );
        assert(mapped.take(mapped.len() as int) =~= mapped);
    }
    Ok(out)
}

/// The message for a source whose subpath does not exist on disk.
pub fn missing_subpath_message(search_root: &str) -> (r: String)
    ensures
        r@ == "source subpath does not exist: "@ + search_root@,
{
    let mut m = String::from_str("source subpath does not exist: ");
    m.append(search_root);
    m
}

} // verus!
