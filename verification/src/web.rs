//! The web tools' text logic: argument normalization, format
//! canonicalization, URL validation, and the rendering of search and
//! fetch responses. The HTTP calls themselves happen outside; their
//! decoded payloads come back in as plain values.
use crate::discover::strings_view;
use crate::source::opt_str_view;
use crate::strutil::{
    chars_eq_str, chars_to_string, dec_seq, is_space, is_space_char, join_seq, join_strings,
    lower_chars, lower_seq, split_char, split_seq, str_chars, str_eq, subrange_vec, trim_chars,
    trim_seq, trim_str, u64_to_dec,
};
use vstd::prelude::*;
use vstd::seq_lib::*;

verus! {

/// Which provider the web tools talk to.
#[derive(Clone, Copy, PartialEq, Eq, Structural, Debug)]
pub enum WebSearchProvider {
    Brave,
    Firecrawl,
}

/// The web search tool: its provider and the keys the transport needs.
pub struct WebSearchTool {
    pub provider: WebSearchProvider,
    pub brave_api_key: Option<String>,
    pub firecrawl_api_key: Option<String>,
}

impl WebSearchTool {
    /// A search tool for the given provider and keys.
    pub fn new(
        provider: WebSearchProvider,
        brave_api_key: Option<String>,
        firecrawl_api_key: Option<String>,
    ) -> (r: WebSearchTool)
        ensures
            r.provider == provider,
            opt_str_view(r.brave_api_key) == opt_str_view(brave_api_key),
            opt_str_view(r.firecrawl_api_key) == opt_str_view(firecrawl_api_key),
    {
        WebSearchTool { provider, brave_api_key, firecrawl_api_key }
    }
}

/// The arguments of the web search tool.
pub struct WebSearchArgs {
    pub query: String,
    pub count: Option<u8>,
    pub sources: Option<Vec<String>>,
    pub categories: Option<Vec<String>>,
    pub location: Option<String>,
    pub tbs: Option<String>,
    pub scrape: Option<bool>,
    pub scrape_formats: Option<Vec<String>>,
}

/// The web fetch tool: its provider and the key the transport needs.
pub struct WebFetchTool {
    pub provider: WebSearchProvider,
    pub firecrawl_api_key: Option<String>,
}

impl WebFetchTool {
    /// A fetch tool for the given provider and key.
    pub fn new(provider: WebSearchProvider, firecrawl_api_key: Option<String>) -> (r:
        WebFetchTool)
        ensures
            r.provider == provider,
            opt_str_view(r.firecrawl_api_key) == opt_str_view(firecrawl_api_key),
    {
        WebFetchTool { provider, firecrawl_api_key }
    }
}

/// The arguments of the web fetch tool.
pub struct WebFetchArgs {
    pub url: String,
    pub extract_mode: Option<String>,
    pub max_chars: Option<usize>,
    pub formats: Option<Vec<String>>,
    pub only_main_content: Option<bool>,
    pub timeout: Option<u64>,
    pub max_age: Option<u64>,
    pub store_in_cache: Option<bool>,
}

/// What comma splitting yields: the trimmed non-blank pieces.
pub open spec fn spec_split_csv(s: Seq<char>) -> Seq<Seq<char>> {
    split_seq(s, ',').map_values(|p: Seq<char>| trim_seq(p)).filter(
        |p: Seq<char>| p.len() > 0,
    )
}

/// Splits a comma-separated value list into its trimmed non-blank pieces.
#[verifier::loop_isolation(false)]
pub fn split_csv_like(input: &str) -> (r: Vec<String>)
    ensures
        strings_view(r@) == spec_split_csv(input@),
{
    let cs = str_chars(input);
    let pieces = split_char(cs.as_slice(), ',');
    let ghost gp = split_seq(input@, ',');
    let ghost mapped = gp.map_values(|p: Seq<char>| trim_seq(p));
    let mut r: Vec<String> = Vec::new();
    let mut i: usize = 0;
    proof {
        reveal_with_fuel(Seq::<_>::filter, 1);
        assert(mapped.take(0) =~= Seq::<Seq<char>>::empty());
        assert(strings_view(r@) =~= mapped.take(0).filter(|p: Seq<char>| p.len() > 0));
    }
    while i < pieces.len()
        invariant
            i <= gp.len(),
            gp == pieces@.map_values(|p: Vec<char>| p@),
            gp.len() == pieces@.len(),
            mapped.len() == gp.len(),
            strings_view(r@) == mapped.take(i as int).filter(|p: Seq<char>| p.len() > 0),
        decreases gp.len() - i,
    {
        proof {
            reveal_with_fuel(Seq::<_>::filter, 1);
            assert(mapped.take(i + 1).drop_last() =~= mapped.take(i as int));
            assert(mapped.take(i + 1).last() == mapped[i as int]);
            assert(gp[i as int] == pieces@[i as int]@);
        }
        let t = trim_chars(pieces[i].as_slice());
        if t.len() > 0 {
            r.push(chars_to_string(t.as_slice()));
            proof {
                assert(strings_view(r@) =~= strings_view(r@).drop_last().push(
                    mapped[i as int],
                ));
            }
        }
        i = i + 1;
    }
    proof {
        assert(mapped.take(mapped.len() as int) =~= mapped);
    }
    r
}

/// What list normalization yields: each entry trimmed and lowercased,
/// blanks dropped; an empty outcome collapses to nothing.
pub open spec fn spec_normalize_list(list: Option<Seq<Seq<char>>>) -> Option<Seq<Seq<char>>> {
    match list {
        None => None,
        Some(xs) => {
            let vs = xs.map_values(|x: Seq<char>| lower_seq(trim_seq(x))).filter(
                |x: Seq<char>| x.len() > 0,
            );
            if vs.len() == 0 {
                None
            } else {
                Some(vs)
            }
        },
    }
}

pub open spec fn opt_strings_view(o: Option<Vec<String>>) -> Option<Seq<Seq<char>>> {
    match o {
        None => None,
        Some(v) => Some(strings_view(v@)),
    }
}

/// Normalizes an optional list: trims and lowercases entries, drops
/// blanks, and collapses an empty outcome.
#[verifier::loop_isolation(false)]
pub fn normalize_list(list: Option<Vec<String>>) -> (r: Option<Vec<String>>)
    ensures
        opt_strings_view(r) == spec_normalize_list(opt_strings_view(list)),
{
    match list {
        None => None,
        Some(xs) => {
            let ghost gx = strings_view(xs@);
            let ghost mapped = gx.map_values(|x: Seq<char>| lower_seq(trim_seq(x)));
            let mut out: Vec<String> = Vec::new();
            let mut i: usize = 0;
            proof {
                reveal_with_fuel(Seq::<_>::filter, 1);
                assert(mapped.take(0) =~= Seq::<Seq<char>>::empty());
                assert(strings_view(out@) =~= mapped.take(0).filter(
                    |x: Seq<char>| x.len() > 0,
                ));
            }
            while i < xs.len()
                invariant
                    i <= gx.len(),
                    gx.len() == xs@.len(),
                    mapped.len() == gx.len(),
                    strings_view(out@) == mapped.take(i as int).filter(
                        |x: Seq<char>| x.len() > 0,
                    ),
                decreases gx.len() - i,
            {
                proof {
                    reveal_with_fuel(Seq::<_>::filter, 1);
                    assert(mapped.take(i + 1).drop_last() =~= mapped.take(i as int));
                    assert(mapped.take(i + 1).last() == mapped[i as int]);
                    assert(gx[i as int] == xs@[i as int]@);
                }
                let t = lower_chars(trim_chars(str_chars(xs[i].as_str()).as_slice()).as_slice());
                if t.len() > 0 {
                    out.push(chars_to_string(t.as_slice()));
                    proof {
                        assert(strings_view(out@) =~= strings_view(out@).drop_last().push(
                            mapped[i as int],
                        ));
                    }
                }
                i = i + 1;
            }
            proof {
                assert(mapped.take(mapped.len() as int) =~= mapped);
            }
            if out.len() == 0 {
                None
            } else {
                Some(out)
            }
        },
    }
}

/// What optional-string normalization yields: the trimmed value, or
/// nothing when it is blank or absent.
pub open spec fn spec_normalize_opt_str(value: Option<Seq<char>>) -> Option<Seq<char>> {
    match value {
        None => None,
        Some(s) => {
            let t = trim_seq(s);
            if t.len() == 0 {
                None
            } else {
                Some(t)
            }
        },
    }
}

/// Normalizes an optional string: trims it, dropping it when blank.
pub fn normalize_optional_str(value: Option<String>) -> (r: Option<String>)
    ensures
        opt_str_view(r) == spec_normalize_opt_str(opt_str_view(value)),
{
    match value {
        None => None,
        Some(s) => {
            let t = trim_str(s.as_str());
            if t.as_str().unicode_len() == 0 {
                None
            } else {
                Some(t)
            }
        },
    }
}

/// The first of two optional strings that is non-blank after trimming.
pub open spec fn spec_first_nonempty(a: Option<Seq<char>>, b: Option<Seq<char>>) -> Option<
    Seq<char>,
> {
    match spec_normalize_opt_str(a) {
        Some(v) => Some(v),
        None => spec_normalize_opt_str(b),
    }
}

/// Picks the first non-blank of two optional strings, trimmed.
pub fn first_nonempty(a: &Option<String>, b: &Option<String>) -> (r: Option<String>)
    ensures
        opt_str_view(r) == spec_first_nonempty(opt_str_view(*a), opt_str_view(*b)),
{
    match a {
        Some(s) => {
            let t = trim_str(s.as_str());
            if t.as_str().unicode_len() > 0 {
                return Some(t);
            }
        },
        None => {
        },
    }
    match b {
        Some(s) => {
            let t = trim_str(s.as_str());
            if t.as_str().unicode_len() > 0 {
                Some(t)
            } else {
                None
            }
        },
        None => None,
    }
}

/// The canonical spelling of a scrape format tag: known tags get their
/// canonical case, anything else passes through trimmed.
pub open spec fn spec_canonical_format(raw: Seq<char>) -> Option<Seq<char>> {
    let trimmed = trim_seq(raw);
    if trimmed.len() == 0 {
        None
    } else {
        let n = lower_seq(trimmed);
        if n == "rawhtml"@ {
            Some("rawHtml"@)
        } else if n == "markdown"@ {
            Some("markdown"@)
        } else if n == "summary"@ {
            Some("summary"@)
        } else if n == "html"@ {
            Some("html"@)
        } else if n == "screenshot"@ {
            Some("screenshot"@)
        } else if n == "links"@ {
            Some("links"@)
        } else if n == "json"@ {
            Some("json"@)
        } else if n == "images"@ {
            Some("images"@)
        } else if n == "branding"@ {
            Some("branding"@)
        } else {
            Some(trimmed)
        }
    }
}

/// Canonicalizes one scrape format tag.
pub fn canonical_firecrawl_format(raw: &str) -> (r: Option<String>)
    ensures
        opt_str_view(r) == spec_canonical_format(raw@),
{
    let trimmed = trim_chars(str_chars(raw).as_slice());
    if trimmed.len() == 0 {
        return None;
    }
    let n = lower_chars(trimmed.as_slice());
    if chars_eq_str(n.as_slice(), "rawhtml") {
        Some(String::from_str("rawHtml"))
    } else if chars_eq_str(n.as_slice(), "markdown") {
        Some(String::from_str("markdown"))
    } else if chars_eq_str(n.as_slice(), "summary") {
        Some(String::from_str("summary"))
    } else if chars_eq_str(n.as_slice(), "html") {
        Some(String::from_str("html"))
    } else if chars_eq_str(n.as_slice(), "screenshot") {
        Some(String::from_str("screenshot"))
    } else if chars_eq_str(n.as_slice(), "links") {
        Some(String::from_str("links"))
    } else if chars_eq_str(n.as_slice(), "json") {
        Some(String::from_str("json"))
    } else if chars_eq_str(n.as_slice(), "images") {
        Some(String::from_str("images"))
    } else if chars_eq_str(n.as_slice(), "branding") {
        Some(String::from_str("branding"))
    } else {
        Some(chars_to_string(trimmed.as_slice()))
    }
}

/// What format-list normalization yields: each tag canonicalized, blanks
/// dropped, nothing when no tag survives.
pub open spec fn spec_normalize_formats(list: Option<Seq<Seq<char>>>) -> Option<
    Seq<Seq<char>>,
> {
    match list {
        None => None,
        Some(xs) => {
            let vs = canonical_formats_of(xs);
            if vs.len() == 0 {
                None
            } else {
                Some(vs)
            }
        },
    }
}

pub open spec fn canonical_formats_of(xs: Seq<Seq<char>>) -> Seq<Seq<char>>
    decreases xs.len(),
{
    if xs.len() == 0 {
        Seq::empty()
    } else {
        let rest = canonical_formats_of(xs.drop_last());
        match spec_canonical_format(xs.last()) {
            Some(v) => rest.push(v),
            None => rest,
        }
    }
}

/// Normalizes an optional scrape format list.
#[verifier::loop_isolation(false)]
pub fn normalize_firecrawl_formats(list: Option<Vec<String>>) -> (r: Option<Vec<String>>)
    ensures
        opt_strings_view(r) == spec_normalize_formats(opt_strings_view(list)),
{
    match list {
        None => None,
        Some(xs) => {
            let ghost gx = strings_view(xs@);
            let mut out: Vec<String> = Vec::new();
            let mut i: usize = 0;
            proof {
                assert(strings_view(out@) =~= canonical_formats_of(gx.take(0)));
            }
            while i < xs.len()
                invariant
                    i <= gx.len(),
                    gx.len() == xs@.len(),
                    strings_view(out@) == canonical_formats_of(gx.take(i as int)),
                decreases gx.len() - i,
            {
                proof {
                    assert(gx.take(i + 1).drop_last() =~= gx.take(i as int));
                    assert(gx.take(i + 1).last() == gx[i as int]);
                    assert(gx[i as int] == xs@[i as int]@);
                }
                match canonical_firecrawl_format(xs[i].as_str()) {
                    Some(v) => {
                        out.push(v);
                        proof {
                            assert(strings_view(out@) =~= strings_view(
                                out@,
                            ).drop_last().push(spec_canonical_format(gx[i as int]).unwrap()));
                        }
                    },
                    None => {
                    },
                }
                i = i + 1;
            }
            proof {
                assert(gx.take(gx.len() as int) =~= gx);
            }
            if out.len() == 0 {
                None
            } else {
                Some(out)
            }
        },
    }
}

/// The formats a scrape asks for: the normalized declared list, else the
/// default for the extract mode.
pub open spec fn spec_resolved_formats(
    formats: Option<Seq<Seq<char>>>,
    extract_mode: Seq<char>,
) -> Seq<Seq<char>> {
    match spec_normalize_formats(formats) {
        Some(v) => v,
        None => {
            if extract_mode == "raw"@ {
                seq!["rawHtml"@]
            } else if extract_mode == "html"@ {
                seq!["html"@]
            } else if extract_mode == "markdown"@ {
                seq!["markdown"@]
            } else if extract_mode == "summary"@ {
                seq!["summary"@]
            } else if extract_mode == "json"@ {
                seq!["json"@]
            } else {
                seq!["markdown"@]
            }
        },
    }
}

/// Resolves the scrape formats from the declared list and extract mode.
pub fn resolved_firecrawl_formats(formats: &Option<Vec<String>>, extract_mode: &str) -> (r: Vec<
    String,
>)
    ensures
        strings_view(r@) == spec_resolved_formats(opt_strings_view(*formats), extract_mode@),
{
    let cloned: Option<Vec<String>> = match formats {
        Some(v) => Some(crate::manager::clone_string_vec_pub(v)),
        None => None,
    };
    match normalize_firecrawl_formats(cloned) {
        Some(v) => v,
        None => {
            let tag: &str = if str_eq(extract_mode, "raw") {
                "rawHtml"
            } else if str_eq(extract_mode, "html") {
                "html"
            } else if str_eq(extract_mode, "markdown") {
                "markdown"
            } else if str_eq(extract_mode, "summary") {
                "summary"
            } else if str_eq(extract_mode, "json") {
                "json"
            } else {
                "markdown"
            };
            let mut out: Vec<String> = Vec::new();
            out.push(String::from_str(tag));
            proof {
                assert(strings_view(out@) =~= seq![tag@]);
            }
            out
        },
    }
}

/// What parsing the string as a URL yields for its scheme: the scheme
/// name, or the parse error's text; the result depends on the text alone.
pub uninterp spec fn url_scheme_of(s: Seq<char>) -> Result<Seq<char>, Seq<char>>;

pub open spec fn scheme_view(r: Result<String, String>) -> Result<Seq<char>, Seq<char>> {
    match r {
        Ok(s) => Ok(s@),
        Err(e) => Err(e@),
    }
}

/// Relies on `url::Url::parse` and `url::Url::scheme`: the scheme of the
/// parsed URL, or the parse error rendered as text.
#[verifier::external_body]
fn parse_url_scheme(raw: &str) -> (r: Result<String, String>)
    ensures
        scheme_view(r) == url_scheme_of(raw@),
{
    match url::Url::parse(raw) {
        Ok(u) => Ok(u.scheme().to_string()),
        Err(e) => Err(e.to_string()),
    }
}

/// What URL validation yields: nothing for an http or https URL, the
/// parse error's text for a malformed one, and a scheme-naming message
/// otherwise.
pub open spec fn spec_validate_url(raw: Seq<char>) -> Result<(), Seq<char>> {
    match url_scheme_of(raw) {
        Err(e) => Err(e),
        Ok(scheme) => {
            if scheme == "http"@ || scheme == "https"@ {
                Ok(())
            } else {
                Err("only http/https allowed, got '"@ + scheme + "'"@)
            }
        },
    }
}

/// Validates that a fetch target is an http or https URL.
pub fn validate_url(raw: &str) -> (r: Result<(), String>)
    ensures
        match r {
            Ok(()) => spec_validate_url(raw@) is Ok,
            Err(e) => spec_validate_url(raw@) == Err::<(), Seq<char>>(e@),
        },
{
    match parse_url_scheme(raw) {
        Err(e) => Err(e),
        Ok(scheme) => {
            if str_eq(scheme.as_str(), "http") || str_eq(scheme.as_str(), "https") {
                Ok(())
            } else {
                let mut m = String::from_str("only http/https allowed, got '");
                m.append(scheme.as_str());
                m.append("'");
                Err(m)
            }
        },
    }
}

/// The resolved fetch parameters: the lowercased trimmed extract mode
/// (defaulting to plain text) and the character cap.
pub open spec fn spec_fetch_params(
    extract_mode: Option<Seq<char>>,
    max_chars: Option<int>,
) -> (Seq<char>, int) {
    (
        match extract_mode {
            Some(m) => lower_seq(trim_seq(m)),
            None => "text"@,
        },
        match max_chars {
            Some(n) => n,
            None => 50000int,
        },
    )
}

/// Resolves the extract mode and character cap of a fetch request.
pub fn resolve_fetch_params(extract_mode: &Option<String>, max_chars: &Option<usize>) -> (r: (
    String,
    usize,
))
    ensures
        (r.0@, r.1 as int) == spec_fetch_params(
            opt_str_view(*extract_mode),
            match *max_chars {
                Some(n) => Some(n as int),
                None => None,
            },
        ),
{
    let mode = match extract_mode {
        Some(m) => chars_to_string(
            lower_chars(trim_chars(str_chars(m.as_str()).as_slice()).as_slice()).as_slice(),
        ),
        None => String::from_str("text"),
    };
    let cap = match max_chars {
        Some(n) => *n,
        None => 50000,
    };
    (mode, cap)
}

/// What capping yields: the text cut to the cap, and whether it was cut.
pub open spec fn spec_cap_text(text: Seq<char>, cap: int) -> (Seq<char>, bool) {
    if text.len() > cap {
        (text.take(cap), true)
    } else {
        (text, false)
    }
}

/// Caps a fetched text at the requested length.
pub fn cap_text(text: String, cap: usize) -> (r: (String, bool))
    ensures
        (r.0@, r.1) == spec_cap_text(text@, cap as int),
{
    let cs = str_chars(text.as_str());
    if cs.len() > cap {
        let cut = subrange_vec(cs.as_slice(), 0, cap);
        proof {
            assert(cut@ =~= text@.take(cap as int));
        }
        (chars_to_string(cut.as_slice()), true)
    } else {
        (text, false)
    }
}

/// One search result, reduced to the fields the renderer reads.
pub struct SearchItem {
    pub title: Option<String>,
    pub metadata_title: Option<String>,
    pub url: Option<String>,
    pub image_url: Option<String>,
    pub metadata_source_url: Option<String>,
    pub description: Option<String>,
    pub snippet: Option<String>,
    pub markdown: Option<String>,
}

/// Spec shape of a search result.
pub struct SearchItemV {
    pub title: Option<Seq<char>>,
    pub metadata_title: Option<Seq<char>>,
    pub url: Option<Seq<char>>,
    pub image_url: Option<Seq<char>>,
    pub metadata_source_url: Option<Seq<char>>,
    pub description: Option<Seq<char>>,
    pub snippet: Option<Seq<char>>,
    pub markdown: Option<Seq<char>>,
}

impl View for SearchItem {
    type V = SearchItemV;

    open spec fn view(&self) -> SearchItemV {
        SearchItemV {
            title: opt_str_view(self.title),
            metadata_title: opt_str_view(self.metadata_title),
            url: opt_str_view(self.url),
            image_url: opt_str_view(self.image_url),
            metadata_source_url: opt_str_view(self.metadata_source_url),
            description: opt_str_view(self.description),
            snippet: opt_str_view(self.snippet),
            markdown: opt_str_view(self.markdown),
        }
    }
}

pub open spec fn items_view(v: Seq<SearchItem>) -> Seq<SearchItemV> {
    v.map_values(|x: SearchItem| x@)
}

/// The title a result renders under: its own, else its metadata's.
pub open spec fn spec_extract_title(item: SearchItemV) -> Option<Seq<char>> {
    spec_first_nonempty(item.title, item.metadata_title)
}

/// Picks a result's display title.
pub fn extract_title(item: &SearchItem) -> (r: Option<String>)
    ensures
        opt_str_view(r) == spec_extract_title(item@),
{
    first_nonempty(&item.title, &item.metadata_title)
}

/// The address a result renders: its URL, its image URL, else its
/// metadata's source URL.
pub open spec fn spec_extract_url(item: SearchItemV) -> Option<Seq<char>> {
    spec_first_nonempty(
        spec_first_nonempty(item.url, item.image_url),
        item.metadata_source_url,
    )
}

/// Picks a result's display address.
pub fn extract_url(item: &SearchItem) -> (r: Option<String>)
    ensures
        opt_str_view(r) == spec_extract_url(item@),
{
    let ab = first_nonempty(&item.url, &item.image_url);
    proof {
        assert(spec_normalize_opt_str(opt_str_view(ab)) == spec_normalize_opt_str(
            spec_first_nonempty(item@.url, item@.image_url),
        )) by {
            match item@.url {
                Some(u) => {
                    crate::strutil::lemma_trim_idempotent(u);
                },
                None => {
                },
            }
            match item@.image_url {
                Some(u) => {
                    crate::strutil::lemma_trim_idempotent(u);
                },
                None => {
                },
            }
        }
    }
    first_nonempty(&ab, &item.metadata_source_url)
}

/// The whitespace-separated words of a text, in order.
pub open spec fn words_of(s: Seq<char>) -> Seq<Seq<char>>
    decreases s.len(),
    via words_of_decreases
{
    if s.len() == 0 {
        Seq::empty()
    } else if is_space_char(s[0]) {
        words_of(s.drop_first())
    } else {
        let w = first_word_len(s);
        seq![s.take(w)] + words_of(s.skip(w))
    }
}

#[via_fn]
proof fn words_of_decreases(s: Seq<char>) {
    if s.len() > 0 && !is_space_char(s[0]) {
        lemma_first_word_len(s);
    }
}

/// The length of the leading run of non-space characters.
pub open spec fn first_word_len(s: Seq<char>) -> int
    decreases s.len(),
{
    if s.len() == 0 || is_space_char(s[0]) {
        0
    } else {
        1 + first_word_len(s.drop_first())
    }
}

pub proof fn lemma_first_word_len(s: Seq<char>)
    ensures
        0 <= first_word_len(s) <= s.len(),
        s.len() > 0 && !is_space_char(s[0]) ==> first_word_len(s) >= 1,
    decreases s.len(),
{
    if s.len() > 0 && !is_space_char(s[0]) {
        lemma_first_word_len(s.drop_first());
    }
}

/// Splits a text into its whitespace-separated words.
#[verifier::loop_isolation(false)]
pub fn split_words(v: &[char]) -> (r: Vec<Vec<char>>)
    ensures
        r@.map_values(|w: Vec<char>| w@) == words_of(v@),
    decreases v@.len(),
{
    let n = v.len();
    let mut r: Vec<Vec<char>> = Vec::new();
    let mut i: usize = 0;
    proof {
        assert(v@.skip(0) =~= v@);
        assert(r@.map_values(|w: Vec<char>| w@) + words_of(v@) =~= words_of(v@));
    }
    while i < n
        invariant
            i <= n == v@.len(),
            words_of(v@) == r@.map_values(|w: Vec<char>| w@) + words_of(v@.skip(i as int)),
        decreases n - i,
    {
        proof {
            assert(v@.skip(i as int)[0] == v@[i as int]);
            assert(v@.skip(i as int).drop_first() =~= v@.skip(i + 1));
        }
        if is_space(v[i]) {
            i = i + 1;
        } else {
            let ghost rem = v@.skip(i as int);
            let start = i;
            let mut j = i;
            while j < n && !is_space(v[j])
                invariant
                    start <= j <= n == v@.len(),
                    start < n,
                    !is_space_char(v@[start as int]),
                    forall|k: int| start <= k < j ==> !is_space_char(v@[k]),
                decreases n - j,
            {
                j = j + 1;
            }
            proof {
                lemma_word_len_from_scan(v@, start as int, j as int);
            }
            let word = subrange_vec(v, start, j);
            proof {
                assert(word@ =~= rem.take(first_word_len(rem)));
                assert(v@.skip(j as int) =~= rem.skip(first_word_len(rem)));
            }
            let ghost r_pre = r@.map_values(|w: Vec<char>| w@);
            r.push(word);
            proof {
                assert(r@.map_values(|w: Vec<char>| w@) =~= r_pre.push(
                    rem.take(first_word_len(rem)),
                ));
                assert(r_pre + (seq![rem.take(first_word_len(rem))] + words_of(
                    v@.skip(j as int),
                )) =~= r_pre.push(rem.take(first_word_len(rem))) + words_of(v@.skip(j as int)));
            }
            i = j;
        }
    }
    proof {
        assert(v@.skip(n as int) =~= Seq::<char>::empty());
        assert(r@.map_values(|w: Vec<char>| w@) + Seq::<Seq<char>>::empty() =~= r@.map_values(
            |w: Vec<char>| w@,
        ));
    }
    r
}

proof fn lemma_word_len_from_scan(s: Seq<char>, start: int, j: int)
    requires
        0 <= start < s.len(),
        start <= j <= s.len(),
        !is_space_char(s[start]),
        forall|k: int| start <= k < j ==> !is_space_char(s[k]),
        j == s.len() || is_space_char(s[j]),
    ensures
        first_word_len(s.skip(start)) == j - start,
    decreases j - start,
{
    let rem = s.skip(start);
    assert(rem[0] == s[start]);
    if j == start {
        assert(false);
    } else if j == start + 1 {
        assert(first_word_len(rem) == 1 + first_word_len(rem.drop_first()));
        assert(rem.drop_first() =~= s.skip(start + 1));
        if start + 1 < s.len() {
            assert(is_space_char(s[start + 1]));
            assert(s.skip(start + 1)[0] == s[start + 1]);
        } else {
            assert(s.skip(start + 1).len() == 0);
        }
    } else {
        assert(first_word_len(rem) == 1 + first_word_len(rem.drop_first()));
        assert(rem.drop_first() =~= s.skip(start + 1));
        lemma_word_len_from_scan(s, start + 1, j);
    }
}

/// The description line of a result: its description or snippet, else a
/// 220-character window of its markdown with collapsed whitespace and an
/// ellipsis when cut.
pub open spec fn spec_extract_description(item: SearchItemV) -> Option<Seq<char>> {
    match spec_first_nonempty(item.description, item.snippet) {
        Some(t) => Some(t),
        None => match item.markdown {
            Some(md) => {
                let compact = join_seq(words_of(md), seq![' ']);
                if compact.len() == 0 {
                    None
                } else {
                    let snippet = if compact.len() <= 220 {
                        compact
                    } else {
                        compact.take(220)
                    };
                    if compact.len() > snippet.len() {
                        Some(snippet + "..."@)
                    } else {
                        Some(snippet)
                    }
                }
            },
            None => None,
        },
    }
}

/// Picks a result's description line.
pub fn extract_description(item: &SearchItem) -> (r: Option<String>)
    ensures
        opt_str_view(r) == spec_extract_description(item@),
{
    match first_nonempty(&item.description, &item.snippet) {
        Some(t) => Some(t),
        None => match &item.markdown {
            Some(md) => {
                let words = split_words(str_chars(md.as_str()).as_slice());
                let mut word_strings: Vec<String> = Vec::new();
                let mut i: usize = 0;
                proof {
                    assert(strings_view(word_strings@) =~= words@.map_values(
                        |w: Vec<char>| w@,
                    ).take(0));
                }
                while i < words.len()
                    invariant
                        i <= words@.len(),
                        strings_view(word_strings@) == words@.map_values(
                            |w: Vec<char>| w@,
                        ).take(i as int),
                    decreases words@.len() - i,
                {
                    proof {
                        assert(words@.map_values(|w: Vec<char>| w@)[i as int] == words@[
                            i as int]@);
                        assert(words@.map_values(|w: Vec<char>| w@).take(i + 1)
                            =~= words@.map_values(|w: Vec<char>| w@).take(i as int).push(
                            words@[i as int]@,
                        ));
                    }
                    word_strings.push(chars_to_string(words[i].as_slice()));
                    proof {
                        assert(strings_view(word_strings@) =~= strings_view(
                            word_strings@,
                        ).drop_last().push(words@[i as int]@));
                    }
                    i = i + 1;
                }
                proof {
                    let mapped = words@.map_values(|w: Vec<char>| w@);
                    assert(mapped.take(mapped.len() as int) =~= mapped);
                }
                let space = chars_to_string(&[' ']);
                proof {
                    assert(space@ =~= seq![' ']);
                }
                let compact = join_strings(&word_strings, space.as_str());
                let cc = str_chars(compact.as_str());
                if cc.len() == 0 {
                    None
                } else {
                    if cc.len() <= 220 {
                        Some(compact)
                    } else {
                        let mut snippet = subrange_vec(cc.as_slice(), 0, 220);
                        proof {
                            assert(snippet@ =~= compact@.take(220));
                        }
                        let mut dots = str_chars("...");
                        snippet.append(&mut dots);
                        Some(chars_to_string(snippet.as_slice()))
                    }
                }
            },
            None => None,
        },
    }
}

/// One rendered result line group: the numbered title, the address line,
/// and the description when there is one.
pub open spec fn spec_result_lines(items: Seq<SearchItemV>, limit: int) -> Seq<Seq<char>>
    decreases items.len(),
{
    if items.len() == 0 || limit <= 0 {
        Seq::empty()
    } else {
        let shown = if items.len() <= limit {
            items
        } else {
            items.take(limit)
        };
        spec_result_lines_from(shown, 0)
    }
}

pub open spec fn spec_result_lines_from(items: Seq<SearchItemV>, i: int) -> Seq<Seq<char>>
    decreases items.len() - i,
{
    if i < 0 || i >= items.len() {
        Seq::empty()
    } else {
        let item = items[i];
        let title = match spec_extract_title(item) {
            Some(t) => t,
            None => "Untitled result"@,
        };
        let url = match spec_extract_url(item) {
            Some(u) => u,
            None => Seq::empty(),
        };
        let head = dec_seq((i + 1) as nat) + ". "@ + title + "\n   "@ + url;
        let tail = match spec_extract_description(item) {
            Some(d) => seq!["   "@ + d],
            None => Seq::empty(),
        };
        seq![head] + tail + spec_result_lines_from(items, i + 1)
    }
}

/// What a result block renders to: the query header (with its source tag
/// when one is named), then each shown result's lines, joined by
/// newlines.
pub open spec fn spec_format_result_block(
    query: Seq<char>,
    source: Option<Seq<char>>,
    items: Seq<SearchItemV>,
    limit: int,
) -> Seq<char> {
    let header = match source {
        Some(s) => "Results for: "@ + query + " ("@ + s + ")\n"@,
        None => "Results for: "@ + query + "\n"@,
    };
    join_seq(seq![header] + spec_result_lines(items, limit), seq!['\n'])
}

/// Renders one block of search results.
#[verifier::loop_isolation(false)]
pub fn format_result_block(
    query: &str,
    source: Option<&str>,
    items: &Vec<SearchItem>,
    limit: usize,
) -> (r: String)
    ensures
        r@ == spec_format_result_block(
            query@,
            match source {
                Some(s) => Some(s@),
                None => None,
            },
            items_view(items@),
            limit as int,
        ),
{
    let ghost gi = items_view(items@);
    let mut header = String::from_str("Results for: ");
    header.append(query);
    match source {
        Some(s) => {
            header.append(" (");
            header.append(s);
            header.append(")\n");
        },
        None => {
            header.append("\n");
        },
    }
    let ghost gheader = header@;
    let shown: usize = if items.len() <= limit {
        items.len()
    } else {
        limit
    };
    let ghost shown_items = if gi.len() <= limit as int {
        gi
    } else {
        gi.take(limit as int)
    };
    let mut body: Vec<String> = Vec::new();
    let mut i: usize = 0;
    proof {
        assert(strings_view(body@) =~= spec_result_lines_taken(shown_items, 0));
    }
    while i < shown
        invariant
            i <= shown,
            shown as int == if items@.len() <= limit {
                items@.len() as int
            } else {
                limit as int
            },
            gi.len() == items@.len(),
            shown_items == if gi.len() <= limit as int {
                gi
            } else {
                gi.take(limit as int)
            },
            shown_items.len() == shown,
            strings_view(body@) == spec_result_lines_taken(shown_items, i as int),
        decreases shown - i,
    {
        proof {
            assert(shown_items[i as int] == gi[i as int]);
            assert(gi[i as int] == items@[i as int]@);
        }
        let ghost body_pre = strings_view(body@);
        let item = &items[i];
        let title = match extract_title(item) {
            Some(t) => t,
            None => String::from_str("Untitled result"),
        };
        let url = match extract_url(item) {
            Some(u) => u,
            None => String::new(),
        };
        let mut head = u64_to_dec((i + 1) as u64);
        head.append(". ");
        head.append(title.as_str());
        head.append("\n   ");
        head.append(url.as_str());
        let ghost ghead = head@;
        body.push(head);
        match extract_description(item) {
            Some(d) => {
                let mut extra = String::from_str("   ");
                extra.append(d.as_str());
                body.push(extra);
                proof {
                    assert(strings_view(body@) =~= body_pre + seq![ghead] + seq![
                        "   "@ + spec_extract_description(shown_items[i as int]).unwrap(),
                    ]);
                }
            },
            None => {
                proof {
                    assert(strings_view(body@) =~= body_pre + seq![ghead]
                        + Seq::<Seq<char>>::empty());
                }
            },
        }
        proof {
            lemma_result_lines_taken_snoc(shown_items, i as int);
        }
        i = i + 1;
    }
    let mut lines: Vec<String> = Vec::new();
    lines.push(header);
    let mut b = body;
    let ghost gbody = strings_view(b@);
    lines.append(&mut b);
    proof {
        assert(strings_view(lines@) =~= seq![gheader] + gbody);
        lemma_result_lines_taken_all(shown_items);
        if gi.len() == 0 || limit <= 0 {
            assert(spec_result_lines(gi, limit as int) =~= Seq::<Seq<char>>::empty());
            assert(spec_result_lines_taken(shown_items, shown as int) =~= Seq::<
                Seq<char>,
            >::empty());
        } else {
            assert(spec_result_lines(gi, limit as int) == spec_result_lines_from(
                shown_items,
                0,
            ));
        }
        assert(strings_view(lines@) =~= seq![gheader] + spec_result_lines(gi, limit as int));
    }
    let sep = chars_to_string(&['\n']);
    proof {
        assert(sep@ =~= seq!['\n']);
    }
    join_strings(&lines, sep.as_str())
}

/// The rendered lines of the first `i` shown results.
pub open spec fn spec_result_lines_taken(items: Seq<SearchItemV>, i: int) -> Seq<Seq<char>>
    decreases i,
{
    if i <= 0 || items.len() == 0 {
        Seq::empty()
    } else if i > items.len() {
        spec_result_lines_taken(items, items.len() as int)
    } else {
        let k = i - 1;
        let item = items[k];
        let title = match spec_extract_title(item) {
            Some(t) => t,
            None => "Untitled result"@,
        };
        let url = match spec_extract_url(item) {
            Some(u) => u,
            None => Seq::empty(),
        };
        let head = dec_seq((k + 1) as nat) + ". "@ + title + "\n   "@ + url;
        let tail = match spec_extract_description(item) {
            Some(d) => seq!["   "@ + d],
            None => Seq::empty(),
        };
        spec_result_lines_taken(items, k) + seq![head] + tail
    }
}

proof fn lemma_result_lines_taken_snoc(items: Seq<SearchItemV>, i: int)
    requires
        0 <= i < items.len(),
    ensures
        ({
            let item = items[i];
            let title = match spec_extract_title(item) {
                Some(t) => t,
                None => "Untitled result"@,
            };
            let url = match spec_extract_url(item) {
                Some(u) => u,
                None => Seq::empty(),
            };
            let head = dec_seq((i + 1) as nat) + ". "@ + title + "\n   "@ + url;
            let tail: Seq<Seq<char>> = match spec_extract_description(item) {
                Some(d) => seq!["   "@ + d],
                None => Seq::empty(),
            };
            spec_result_lines_taken(items, i + 1) == spec_result_lines_taken(items, i)
                + seq![head] + tail
        }),
{
}

proof fn lemma_result_lines_taken_all(items: Seq<SearchItemV>)
    ensures
        spec_result_lines_from(items, 0) == spec_result_lines_taken(
            items,
            items.len() as int,
        ),
{
    lemma_result_lines_agree(items, items.len() as int);
}

/// The shape of a search response's data: absent, a flat result list, or
/// sections keyed by source tag in their payload order.
pub enum FirecrawlData {
    MissingData,
    Items(Vec<SearchItem>),
    Sections(Vec<(String, Vec<SearchItem>)>),
    Unsupported,
}

/// Spec shape of a search response's data.
pub enum FirecrawlDataV {
    MissingData,
    Items(Seq<SearchItemV>),
    Sections(Seq<(Seq<char>, Seq<SearchItemV>)>),
    Unsupported,
}

pub open spec fn firecrawl_data_view(d: FirecrawlData) -> FirecrawlDataV {
    match d {
        FirecrawlData::MissingData => FirecrawlDataV::MissingData,
        FirecrawlData::Items(v) => FirecrawlDataV::Items(items_view(v@)),
        FirecrawlData::Sections(v) => FirecrawlDataV::Sections(
            v@.map_values(|p: (String, Vec<SearchItem>)| (p.0@, items_view(p.1@))),
        ),
        FirecrawlData::Unsupported => FirecrawlDataV::Unsupported,
    }
}

/// The blocks of a sectioned response: first the known source tags in
/// their fixed order, then, when none of them rendered, every non-empty
/// section in payload order.
pub open spec fn spec_section_blocks(
    query: Seq<char>,
    sections: Seq<(Seq<char>, Seq<SearchItemV>)>,
    limit: int,
) -> Seq<Seq<char>> {
    let preferred = spec_tag_blocks(query, sections, seq!["web"@, "news"@, "images"@], limit);
    if preferred.len() > 0 {
        preferred
    } else {
        spec_all_blocks(query, sections, limit)
    }
}

/// The first section holding a tag, if any: sections are keyed uniquely in
/// the payloads this models, the first match is the one rendered.
pub open spec fn find_section(
    sections: Seq<(Seq<char>, Seq<SearchItemV>)>,
    tag: Seq<char>,
) -> int
    decreases sections.len(),
{
    if sections.len() == 0 {
        -1
    } else if sections[0].0 == tag {
        0
    } else {
        let r = find_section(sections.drop_first(), tag);
        if r < 0 {
            -1
        } else {
            r + 1
        }
    }
}

pub open spec fn spec_tag_blocks(
    query: Seq<char>,
    sections: Seq<(Seq<char>, Seq<SearchItemV>)>,
    tags: Seq<Seq<char>>,
    limit: int,
) -> Seq<Seq<char>>
    decreases tags.len(),
{
    if tags.len() == 0 {
        Seq::empty()
    } else {
        let rest = spec_tag_blocks(query, sections, tags.drop_first(), limit);
        let idx = find_section(sections, tags[0]);
        if idx >= 0 && sections[idx].1.len() > 0 {
            seq![spec_format_result_block(query, Some(tags[0]), sections[idx].1, limit)]
                + rest
        } else {
            rest
        }
    }
}

pub open spec fn spec_all_blocks(
    query: Seq<char>,
    sections: Seq<(Seq<char>, Seq<SearchItemV>)>,
    limit: int,
) -> Seq<Seq<char>>
    decreases sections.len(),
{
    if sections.len() == 0 {
        Seq::empty()
    } else {
        let rest = spec_all_blocks(query, sections.drop_first(), limit);
        if sections[0].1.len() > 0 {
            seq![spec_format_result_block(query, Some(sections[0].0), sections[0].1, limit)]
                + rest
        } else {
            rest
        }
    }
}

/// What rendering a search response yields: fixed messages for missing or
/// unshaped data and empty results, one block for a flat list, and the
/// section blocks joined by blank lines otherwise.
pub open spec fn spec_format_firecrawl(
    query: Seq<char>,
    data: FirecrawlDataV,
    limit: int,
) -> Seq<char> {
    match data {
        FirecrawlDataV::MissingData => "Error: Firecrawl response missing data"@,
        FirecrawlDataV::Unsupported => "Error: Firecrawl response has unsupported format"@,
        FirecrawlDataV::Items(items) => if items.len() == 0 {
            "No results found."@
        } else {
            spec_format_result_block(query, Some("results"@), items, limit)
        },
        FirecrawlDataV::Sections(sections) => {
            let blocks = spec_section_blocks(query, sections, limit);
            if blocks.len() == 0 {
                "No results for: "@ + query
            } else {
                join_seq(blocks, "\n\n"@)
            }
        },
    }
}

/// Finds the section carrying a tag.
#[verifier::loop_isolation(false)]
fn find_section_exec<'a>(
    sections: &'a Vec<(String, Vec<SearchItem>)>,
    tag: &str,
) -> (r: Option<usize>)
    ensures
        match r {
            Some(i) => i < sections@.len() && find_section(
                sections@.map_values(|p: (String, Vec<SearchItem>)| (p.0@, items_view(p.1@))),
                tag@,
            ) == i as int,
            None => find_section(
                sections@.map_values(|p: (String, Vec<SearchItem>)| (p.0@, items_view(p.1@))),
                tag@,
            ) == -1,
        },
{
    let ghost gs = sections@.map_values(
        |p: (String, Vec<SearchItem>)| (p.0@, items_view(p.1@)),
    );
    proof {
        lemma_find_section(gs, tag@);
    }
    let mut i: usize = 0;
    while i < sections.len()
        invariant
            i <= gs.len(),
            gs.len() == sections@.len(),
            forall|k: int| 0 <= k < i ==> gs[k].0 != tag@,
        decreases gs.len() - i,
    {
        proof {
            assert(gs[i as int] == (sections@[i as int].0@, items_view(sections@[i as int].1@)));
        }
        if str_eq(sections[i].0.as_str(), tag) {
            proof {
                if find_section(gs, tag@) != i as int {
                    if find_section(gs, tag@) == -1 {
                        assert(gs[i as int].0 != tag@);
                    } else if find_section(gs, tag@) < i as int {
                        assert(gs[find_section(gs, tag@)].0 == tag@);
                    } else {
                        assert(gs[i as int].0 != tag@);
                    }
                }
            }
            return Some(i);
        }
        i = i + 1;
    }
    proof {
        if find_section(gs, tag@) >= 0 {
            assert(gs[find_section(gs, tag@)].0 == tag@);
        }
    }
    None
}

proof fn lemma_find_section(s: Seq<(Seq<char>, Seq<SearchItemV>)>, tag: Seq<char>)
    ensures
        -1 <= find_section(s, tag) < s.len(),
        find_section(s, tag) == -1 ==> forall|j: int| 0 <= j < s.len() ==> s[j].0 != tag,
        find_section(s, tag) >= 0 ==> s[find_section(s, tag)].0 == tag && forall|j: int|
            0 <= j < find_section(s, tag) ==> s[j].0 != tag,
    decreases s.len(),
{
    if s.len() > 0 && s[0].0 != tag {
        let sd = s.drop_first();
        lemma_find_section(sd, tag);
        assert forall|j: int| 1 <= j < s.len() implies (#[trigger] s[j]).0 == sd[j - 1].0 by {
            assert(sd[j - 1] == s[j]);
        }
        if find_section(sd, tag) >= 0 {
            assert(s[find_section(s, tag)] == sd[find_section(sd, tag)]);
        }
    }
}

/// Renders a sectioned or flat search response.
#[verifier::loop_isolation(false)]
pub fn format_firecrawl_response(query: &str, data: &FirecrawlData, limit: usize) -> (r:
    String)
    ensures
        r@ == spec_format_firecrawl(query@, firecrawl_data_view(*data), limit as int),
{
    match data {
        FirecrawlData::MissingData => String::from_str("Error: Firecrawl response missing data"),
        FirecrawlData::Unsupported => String::from_str(
            "Error: Firecrawl response has unsupported format",
        ),
        FirecrawlData::Items(items) => {
            if items.len() == 0 {
                String::from_str("No results found.")
            } else {
                format_result_block(query, Some("results"), items, limit)
            }
        },
        FirecrawlData::Sections(sections) => {
            let ghost gs = sections@.map_values(
                |p: (String, Vec<SearchItem>)| (p.0@, items_view(p.1@)),
            );
            let mut blocks: Vec<String> = Vec::new();
            let tags: [&str; 3] = ["web", "news", "images"];
            let ghost gtags = seq!["web"@, "news"@, "images"@];
            let mut t: usize = 3;
            proof {
                assert(strings_view(blocks@) =~= spec_tag_blocks(
                    query@,
                    gs,
                    gtags.skip(3),
                    limit as int,
                )) by {
                    assert(gtags.skip(3) =~= Seq::<Seq<char>>::empty());
                }
            }
            while t > 0
                invariant
                    t <= 3,
                    gs == sections@.map_values(
                        |p: (String, Vec<SearchItem>)| (p.0@, items_view(p.1@)),
                    ),
                    gs.len() == sections@.len(),
                    strings_view(blocks@) == spec_tag_blocks(
                        query@,
                        gs,
                        gtags.skip(t as int),
                        limit as int,
                    ),
                decreases t,
            {
                t = t - 1;
                let tag: &str = if t == 0 {
                    "web"
                } else if t == 1 {
                    "news"
                } else {
                    "images"
                };
                proof {
                    assert(gtags.skip(t as int)[0] == gtags[t as int]);
                    assert(gtags.skip(t as int).drop_first() =~= gtags.skip(t as int + 1));
                    assert(tag@ == gtags[t as int]);
                }
                match find_section_exec(sections, tag) {
                    Some(idx) => {
                        proof {
                            assert(gs[idx as int] == (
                                sections@[idx as int].0@,
                                items_view(sections@[idx as int].1@),
                            ));
                        }
                        if sections[idx].1.len() > 0 {
                            let ghost b_pre = strings_view(blocks@);
                            let block = format_result_block(
                                query,
                                Some(tag),
                                &sections[idx].1,
                                limit,
                            );
                            blocks.insert(0, block);
                            proof {
                                assert(strings_view(blocks@) =~= seq![
                                    spec_format_result_block(
                                        query@,
                                        Some(gtags[t as int]),
                                        gs[idx as int].1,
                                        limit as int,
                                    ),
                                ] + b_pre);
                            }
                        }
                    },
                    None => {
                    },
                }
            }
            proof {
                assert(gtags.skip(0) =~= gtags);
            }
            if blocks.len() == 0 {
                let mut all_blocks: Vec<String> = Vec::new();
                let mut s: usize = sections.len();
                proof {
                    assert(strings_view(all_blocks@) =~= spec_all_blocks(
                        query@,
                        gs.skip(s as int),
                        limit as int,
                    )) by {
                        assert(gs.skip(s as int) =~= Seq::<(Seq<char>, Seq<SearchItemV>)>::empty());
                    }
                }
                while s > 0
                    invariant
                        s <= gs.len(),
                        gs == sections@.map_values(
                            |p: (String, Vec<SearchItem>)| (p.0@, items_view(p.1@)),
                        ),
                        gs.len() == sections@.len(),
                        strings_view(all_blocks@) == spec_all_blocks(
                            query@,
                            gs.skip(s as int),
                            limit as int,
                        ),
                    decreases s,
                {
                    s = s - 1;
                    proof {
                        assert(gs.skip(s as int)[0] == gs[s as int]);
                        assert(gs.skip(s as int).drop_first() =~= gs.skip(s as int + 1));
                        assert(gs[s as int] == (
                            sections@[s as int].0@,
                            items_view(sections@[s as int].1@),
                        ));
                    }
                    if sections[s].1.len() > 0 {
                        let ghost b_pre = strings_view(all_blocks@);
                        let block = format_result_block(
                            query,
                            Some(sections[s].0.as_str()),
                            &sections[s].1,
                            limit,
                        );
                        all_blocks.insert(0, block);
                        proof {
                            assert(strings_view(all_blocks@) =~= seq![
                                spec_format_result_block(
                                    query@,
                                    Some(gs[s as int].0),
                                    gs[s as int].1,
                                    limit as int,
                                ),
                            ] + b_pre);
                        }
                    }
                }
                proof {
                    assert(gs.skip(0) =~= gs);
                }
                if all_blocks.len() == 0 {
                    let mut m = String::from_str("No results for: ");
                    m.append(query);
                    m
                } else {
                    join_strings(&all_blocks, "\n\n")
                }
            } else {
                join_strings(&blocks, "\n\n")
            }
        },
    }
}

/// A fetched scrape payload, reduced to the text fields the selector
/// reads; the JSON field arrives already rendered as text.
pub struct FetchData {
    pub raw_html: Option<String>,
    pub html: Option<String>,
    pub markdown: Option<String>,
    pub summary: Option<String>,
    pub json_text: Option<String>,
}

/// Spec shape of a fetched scrape payload.
pub struct FetchDataV {
    pub raw_html: Option<Seq<char>>,
    pub html: Option<Seq<char>>,
    pub markdown: Option<Seq<char>>,
    pub summary: Option<Seq<char>>,
    pub json_text: Option<Seq<char>>,
}

impl View for FetchData {
    type V = FetchDataV;

    open spec fn view(&self) -> FetchDataV {
        FetchDataV {
            raw_html: opt_str_view(self.raw_html),
            html: opt_str_view(self.html),
            markdown: opt_str_view(self.markdown),
            summary: opt_str_view(self.summary),
            json_text: opt_str_view(self.json_text),
        }
    }
}

/// What text a scrape serves for an extract mode: the mode's own field
/// when present, else markdown, summary, html and raw HTML in that order,
/// else nothing; each outcome names its extractor.
pub open spec fn spec_select_firecrawl_text(data: FetchDataV, extract_mode: Seq<char>) -> (
    Seq<char>,
    Seq<char>,
) {
    if extract_mode == "raw"@ && data.raw_html is Some {
        ("firecrawl-rawHtml"@, data.raw_html.unwrap())
    } else if extract_mode == "html"@ && data.html is Some {
        ("firecrawl-html"@, data.html.unwrap())
    } else if (extract_mode == "markdown"@ || extract_mode == "text"@) && data.markdown
        is Some {
        ("firecrawl-markdown"@, data.markdown.unwrap())
    } else if extract_mode == "summary"@ && data.summary is Some {
        ("firecrawl-summary"@, data.summary.unwrap())
    } else if extract_mode == "json"@ && data.json_text is Some {
        ("firecrawl-json"@, data.json_text.unwrap())
    } else if data.markdown is Some {
        ("firecrawl-markdown"@, data.markdown.unwrap())
    } else if data.summary is Some {
        ("firecrawl-summary"@, data.summary.unwrap())
    } else if data.html is Some {
        ("firecrawl-html"@, data.html.unwrap())
    } else if data.raw_html is Some {
        ("firecrawl-rawHtml"@, data.raw_html.unwrap())
    } else {
        ("firecrawl-empty"@, Seq::empty())
    }
}

/// Selects the served text of a scrape payload for an extract mode.
pub fn select_firecrawl_text(data: &FetchData, extract_mode: &str) -> (r: (String, String))
    ensures
        (r.0@, r.1@) == spec_select_firecrawl_text(data@, extract_mode@),
{
    if str_eq(extract_mode, "raw") && data.raw_html.is_some() {
        match &data.raw_html {
            Some(v) => {
                return (String::from_str("firecrawl-rawHtml"), String::from_str(v.as_str()));
            },
            None => {
            },
        }
    }
    if str_eq(extract_mode, "html") && data.html.is_some() {
        match &data.html {
            Some(v) => {
                return (String::from_str("firecrawl-html"), String::from_str(v.as_str()));
            },
            None => {
            },
        }
    }
    if (str_eq(extract_mode, "markdown") || str_eq(extract_mode, "text"))
        && data.markdown.is_some() {
        match &data.markdown {
            Some(v) => {
                return (
                    String::from_str("firecrawl-markdown"),
                    String::from_str(v.as_str()),
                );
            },
            None => {
            },
        }
    }
    if str_eq(extract_mode, "summary") && data.summary.is_some() {
        match &data.summary {
            Some(v) => {
                return (String::from_str("firecrawl-summary"), String::from_str(v.as_str()));
            },
            None => {
            },
        }
    }
    if str_eq(extract_mode, "json") && data.json_text.is_some() {
        match &data.json_text {
            Some(v) => {
                return (String::from_str("firecrawl-json"), String::from_str(v.as_str()));
            },
            None => {
            },
        }
    }
    match &data.markdown {
        Some(v) => {
            return (String::from_str("firecrawl-markdown"), String::from_str(v.as_str()));
        },
        None => {
        },
    }
    match &data.summary {
        Some(v) => {
            return (String::from_str("firecrawl-summary"), String::from_str(v.as_str()));
        },
        None => {
        },
    }
    match &data.html {
        Some(v) => {
            return (String::from_str("firecrawl-html"), String::from_str(v.as_str()));
        },
        None => {
        },
    }
    match &data.raw_html {
        Some(v) => {
            return (String::from_str("firecrawl-rawHtml"), String::from_str(v.as_str()));
        },
        None => {
        },
    }
    (String::from_str("firecrawl-empty"), String::new())
}

/// What a fetched body renders as: the rendered text, the pretty-printed
/// JSON, or the raw body, depending on the content type and the text; the
/// result depends on these values alone.
pub uninterp spec fn rendered_html_of(html: Seq<char>, width: int) -> Seq<char>;

/// Relies on `html2text::from_read`: the HTML rendered as text wrapped to
/// the given width; a body the renderer rejects becomes empty.
#[verifier::external_body]
pub fn html_to_text(html: &str, width: usize) -> (r: String)
    ensures
        r@ == rendered_html_of(html@, width as int),
{
    html2text::from_read(html.as_bytes(), width).unwrap_or_default()
}

/// What pretty-printing a JSON text yields when it parses; the result
/// depends on the text alone.
pub uninterp spec fn pretty_json_of(s: Seq<char>) -> Option<Seq<char>>;

/// Relies on `serde_json::from_str::<Value>` and
/// `serde_json::to_string_pretty`: the text re-rendered with indentation
/// when it parses as JSON.
#[verifier::external_body]
pub fn json_pretty(s: &str) -> (r: Option<String>)
    ensures
        opt_str_view(r) == pretty_json_of(s@),
{
    match serde_json::from_str::<serde_json::Value>(s) {
        Err(_) => None,
        Ok(v) => serde_json::to_string_pretty(&v).ok(),
    }
}

/// What the direct fetch serves for a body: raw text in raw mode;
/// pretty-printed JSON for a JSON content type when the body parses;
/// rendered text for HTML (by content type or a telltale prefix); else the
/// raw body. Each outcome names its extractor.
pub open spec fn spec_direct_extract(
    extract_mode: Seq<char>,
    ctype: Seq<char>,
    text: Seq<char>,
) -> (Seq<char>, Seq<char>) {
    if extract_mode == "raw"@ {
        ("raw"@, text)
    } else if crate::strutil::contains_seq(ctype, "application/json"@) {
        match pretty_json_of(text) {
            Some(p) => ("json"@, p),
            None => ("raw"@, text),
        }
    } else if crate::strutil::contains_seq(ctype, "text/html"@) || crate::strutil::starts_with_seq(
        lower_of_view(text),
        "<!doctype"@,
    ) || crate::strutil::starts_with_seq(lower_of_view(text), "<html"@) {
        ("html2text"@, rendered_html_of(text, 100))
    } else {
        ("raw"@, text)
    }
}

/// The Unicode lowering of a text, as the direct fetch probes it.
pub open spec fn lower_of_view(s: Seq<char>) -> Seq<char> {
    crate::strutil::lower_of(s)
}

/// Extracts the served text of a directly fetched body.
pub fn extract_fetched_text(extract_mode: &str, ctype: &str, text: &str) -> (r: (
    String,
    String,
))
    ensures
        (r.0@, r.1@) == spec_direct_extract(extract_mode@, ctype@, text@),
{
    if str_eq(extract_mode, "raw") {
        return (String::from_str("raw"), String::from_str(text));
    }
    let ctype_chars = str_chars(ctype);
    let json_tag = str_chars("application/json");
    if crate::strutil::find_sub(ctype_chars.as_slice(), json_tag.as_slice()).is_some() {
        match json_pretty(text) {
            Some(p) => {
                return (String::from_str("json"), p);
            },
            None => {
                return (String::from_str("raw"), String::from_str(text));
            },
        }
    }
    let html_tag = str_chars("text/html");
    let lowered = crate::strutil::lowercase(text);
    let lc = str_chars(lowered.as_str());
    let doctype = str_chars("<!doctype");
    let html_open = str_chars("<html");
    if crate::strutil::find_sub(ctype_chars.as_slice(), html_tag.as_slice()).is_some()
        || crate::strutil::chars_starts_with(lc.as_slice(), doctype.as_slice())
        || crate::strutil::chars_starts_with(lc.as_slice(), html_open.as_slice()) {
        return (String::from_str("html2text"), html_to_text(text, 100));
    }
    (String::from_str("raw"), String::from_str(text))
}

proof fn lemma_result_lines_agree(items: Seq<SearchItemV>, i: int)
    requires
        0 <= i <= items.len(),
    ensures
        spec_result_lines_from(items, 0) == spec_result_lines_taken(items, i)
            + spec_result_lines_from(items, i),
    decreases i,
{
    if i == 0 {
        assert(spec_result_lines_taken(items, 0) =~= Seq::<Seq<char>>::empty());
        assert(Seq::<Seq<char>>::empty() + spec_result_lines_from(items, 0)
            =~= spec_result_lines_from(items, 0));
    } else {
        lemma_result_lines_agree(items, i - 1);
        let item = items[i - 1];
        let title = match spec_extract_title(item) {
            Some(t) => t,
            None => "Untitled result"@,
        };
        let url = match spec_extract_url(item) {
            Some(u) => u,
            None => Seq::empty(),
        };
        let head = dec_seq(i as nat) + ". "@ + title + "\n   "@ + url;
        let tail: Seq<Seq<char>> = match spec_extract_description(item) {
            Some(d) => seq!["   "@ + d],
            None => Seq::empty(),
        };
        assert(spec_result_lines_from(items, i - 1) == seq![head] + tail
            + spec_result_lines_from(items, i));
        assert(spec_result_lines_taken(items, i - 1) + (seq![head] + tail
            + spec_result_lines_from(items, i)) =~= (spec_result_lines_taken(items, i - 1)
            + seq![head] + tail) + spec_result_lines_from(items, i));
    }
}

} // verus!
