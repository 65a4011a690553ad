//! The runtime skill manager: reads `SKILL.md` manifests into metadata,
//! gates them by platform and dependency availability, and merges
//! precedence-ordered roots into a catalog.
use crate::frontmatter::{
    spec_split_frontmatter, split_frontmatter, yaml_list_field, yaml_list_of,
    yaml_nested_list_field, yaml_nested_list_of, yaml_scalar_field, yaml_scalar_of,
};
use crate::source::opt_str_view;
use crate::discover::strings_view;
use crate::strutil::{
    chars_to_string, lower_chars, lower_seq, str_chars, str_eq, subrange_vec, trim_chars,
    trim_seq, trim_str,
};
use vstd::prelude::*;
use vstd::seq_lib::*;

verus! {

/// Strict lexicographic order on character sequences; it agrees with the
/// byte order of the UTF-8 encodings.
pub open spec fn seq_char_lt(a: Seq<char>, b: Seq<char>) -> bool
    decreases a.len(),
{
    if b.len() == 0 {
        false
    } else if a.len() == 0 {
        true
    } else if (a[0] as u32) < (b[0] as u32) {
        true
    } else if a[0] != b[0] {
        false
    } else {
        seq_char_lt(a.drop_first(), b.drop_first())
    }
}

/// Decides the lexicographic order of two strings.
pub fn str_lt(a: &str, b: &str) -> (r: bool)
    ensures
        r == seq_char_lt(a@, b@),
{
    let na = a.unicode_len();
    let nb = b.unicode_len();
    let mut i: usize = 0;
    proof {
        assert(a@.skip(0) =~= a@);
        assert(b@.skip(0) =~= b@);
    }
    loop
        invariant_except_break
            i <= na,
            i <= nb,
            na == a@.len(),
            nb == b@.len(),
            seq_char_lt(a@, b@) == seq_char_lt(a@.skip(i as int), b@.skip(i as int)),
        ensures
            seq_char_lt(a@, b@) == seq_char_lt(a@.skip(i as int), b@.skip(i as int)),
            i <= na && i <= nb,
            i == na || i == nb || a@[i as int] != b@[i as int],
        decreases na - i,
    {
        if i == na || i == nb {
            break;
        }
        let ca = a.get_char(i);
        let cb = b.get_char(i);
        if ca != cb {
            break;
        }
        proof {
            assert(a@.skip(i as int)[0] == a@[i as int]);
            assert(b@.skip(i as int)[0] == b@[i as int]);
            assert(a@.skip(i as int).drop_first() =~= a@.skip(i + 1));
            assert(b@.skip(i as int).drop_first() =~= b@.skip(i + 1));
        }
        i = i + 1;
    }
    proof {
        assert(a@.skip(i as int).len() == na - i);
        assert(b@.skip(i as int).len() == nb - i);
        if i < na && i < nb {
            assert(a@.skip(i as int)[0] == a@[i as int]);
            assert(b@.skip(i as int)[0] == b@[i as int]);
        }
    }
    if i == nb {
        false
    } else if i == na {
        true
    } else {
        let ca = a.get_char(i);
        let cb = b.get_char(i);
        (ca as u32) < (cb as u32)
    }
}

/// `x` inserted before the first element not below it.
pub open spec fn insert_sorted(x: Seq<char>, s: Seq<Seq<char>>) -> Seq<Seq<char>>
    decreases s.len(),
{
    if s.len() == 0 {
        seq![x]
    } else if seq_char_lt(s[0], x) {
        seq![s[0]] + insert_sorted(x, s.drop_first())
    } else {
        seq![x] + s
    }
}

/// Insertion sort of string sequences under the lexicographic order.
pub open spec fn sort_strings(xs: Seq<Seq<char>>) -> Seq<Seq<char>>
    decreases xs.len(),
{
    if xs.len() == 0 {
        Seq::empty()
    } else {
        insert_sorted(xs[0], sort_strings(xs.drop_first()))
    }
}

/// Consecutive duplicates removed, as `Vec::dedup` does on a sorted list.
pub open spec fn dedup_sorted(s: Seq<Seq<char>>) -> Seq<Seq<char>>
    decreases s.len(),
{
    if s.len() <= 1 {
        s
    } else if s[0] == s[1] {
        dedup_sorted(s.drop_first())
    } else {
        seq![s[0]] + dedup_sorted(s.drop_first())
    }
}

/// Inserts a string into an already sorted vector at its place.
#[verifier::loop_isolation(false)]
fn insert_into_sorted(sorted: &Vec<String>, x: String) -> (r: Vec<String>)
    ensures
        strings_view(r@) == insert_sorted(x@, strings_view(sorted@)),
{
    let ghost gs = strings_view(sorted@);
    let mut out: Vec<String> = Vec::new();
    let mut j: usize = 0;
    proof {
        assert(gs.skip(0) =~= gs);
        assert(strings_view(out@) + insert_sorted(x@, gs) =~= insert_sorted(x@, gs));
    }
    while j < sorted.len() && str_lt(sorted[j].as_str(), x.as_str())
        invariant
            j <= gs.len(),
            insert_sorted(x@, gs) == strings_view(out@) + insert_sorted(
                x@,
                gs.skip(j as int),
            ),
            strings_view(out@).len() == j,
        decreases gs.len() - j,
    {
        proof {
            assert(gs.skip(j as int)[0] == gs[j as int]);
            assert(gs.skip(j as int).drop_first() =~= gs.skip(j + 1));
            assert(gs[j as int] == sorted@[j as int]@);
        }
        out.push(String::from_str(sorted[j].as_str()));
        proof {
            assert(strings_view(out@) =~= strings_view(out@).drop_last().push(gs[j as int]));
            assert(strings_view(out@).drop_last() + (seq![gs[j as int]] + insert_sorted(
                x@,
                gs.skip(j + 1),
            )) =~= strings_view(out@) + insert_sorted(x@, gs.skip(j + 1)));
        }
        j = j + 1;
    }
    proof {
        assert(insert_sorted(x@, gs.skip(j as int)) =~= seq![x@] + gs.skip(j as int)) by {
            if gs.skip(j as int).len() > 0 {
                assert(gs.skip(j as int)[0] == gs[j as int]);
            }
        }
    }
    out.push(x);
    let mut k: usize = j;
    while k < sorted.len()
        invariant
            j <= k <= gs.len(),
            strings_view(out@) == insert_sorted(x@, gs).take(k + 1),
        decreases gs.len() - k,
    {
        proof {
            assert(gs[k as int] == sorted@[k as int]@);
            assert(insert_sorted(x@, gs)[k + 1] == gs[k as int]) by {
                assert(insert_sorted(x@, gs) == strings_view(out@).take(j as int)
                    + insert_sorted(x@, gs.skip(j as int)));
            }
        }
        out.push(String::from_str(sorted[k].as_str()));
        proof {
            assert(strings_view(out@) =~= insert_sorted(x@, gs).take(k + 2));
        }
        k = k + 1;
    }
    proof {
        assert(insert_sorted(x@, gs).len() == gs.len() + 1);
        assert(strings_view(out@) =~= insert_sorted(x@, gs));
    }
    out
}

/// Sorts strings lexicographically, as the metadata normalization does.
#[verifier::loop_isolation(false)]
pub fn sort_string_vec(xs: &Vec<String>) -> (r: Vec<String>)
    ensures
        strings_view(r@) == sort_strings(strings_view(xs@)),
    decreases xs@.len(),
{
    let ghost gx = strings_view(xs@);
    let mut r: Vec<String> = Vec::new();
    let mut i: usize = xs.len();
    proof {
        assert(gx.skip(xs@.len() as int) =~= Seq::<Seq<char>>::empty());
    }
    while i > 0
        invariant
            i <= gx.len(),
            strings_view(r@) == sort_strings(gx.skip(i as int)),
        decreases i,
    {
        i = i - 1;
        proof {
            assert(gx.skip(i as int)[0] == gx[i as int]);
            assert(gx.skip(i as int).drop_first() =~= gx.skip(i + 1));
            assert(gx[i as int] == xs@[i as int]@);
        }
        r = insert_into_sorted(&r, String::from_str(xs[i].as_str()));
    }
    proof {
        assert(gx.skip(0) =~= gx);
    }
    r
}

/// Removes consecutive duplicates from a sorted vector.
#[verifier::loop_isolation(false)]
pub fn dedup_string_vec(xs: &Vec<String>) -> (r: Vec<String>)
    ensures
        strings_view(r@) == dedup_sorted(strings_view(xs@)),
{
    let ghost gx = strings_view(xs@);
    let mut r: Vec<String> = Vec::new();
    let mut i: usize = 0;
    proof {
        assert(gx.skip(0) =~= gx);
    }
    while i < xs.len()
        invariant
            i <= gx.len(),
            gx.len() == xs@.len(),
            dedup_sorted(gx) == strings_view(r@) + dedup_sorted(gx.skip(i as int)),
        decreases gx.len() - i,
    {
        proof {
            assert(gx.skip(i as int)[0] == gx[i as int]);
            assert(gx.skip(i as int).drop_first() =~= gx.skip(i + 1));
            assert(gx[i as int] == xs@[i as int]@);
            if i + 1 < gx.len() {
                assert(gx.skip(i as int)[1] == gx[i + 1]);
                assert(gx[i + 1] == xs@[i + 1]@);
            }
        }
        if i + 1 < xs.len() && str_eq(xs[i].as_str(), xs[i + 1].as_str()) {
        } else {
            r.push(String::from_str(xs[i].as_str()));
            proof {
                assert(strings_view(r@) =~= strings_view(r@).drop_last().push(gx[i as int]));
                assert(strings_view(r@).drop_last() + (seq![gx[i as int]] + dedup_sorted(
                    gx.skip(i + 1),
                )) =~= strings_view(r@) + dedup_sorted(gx.skip(i + 1)));
            }
        }
        i = i + 1;
    }
    proof {
        assert(gx.skip(gx.len() as int) =~= Seq::<Seq<char>>::empty());
        assert(strings_view(r@) + Seq::<Seq<char>>::empty() =~= strings_view(r@));
    }
    r
}

/// The canonical platform tag of a declared value: trimmed, lowercased,
/// with `macos` and `osx` folded into `darwin`.
pub open spec fn spec_normalize_platform(value: Seq<char>) -> Seq<char> {
    let t = lower_seq(trim_seq(value));
    if t == "macos"@ || t == "osx"@ {
        "darwin"@
    } else {
        t
    }
}

/// Normalizes a declared platform tag.
pub fn normalize_platform(value: &str) -> (r: String)
    ensures
        r@ == spec_normalize_platform(value@),
{
    let t = lower_chars(trim_chars(str_chars(value).as_slice()).as_slice());
    if crate::strutil::chars_eq_str(t.as_slice(), "macos") || crate::strutil::chars_eq_str(
        t.as_slice(),
        "osx",
    ) {
        String::from_str("darwin")
    } else {
        chars_to_string(t.as_slice())
    }
}

/// The platform gate: an empty list, or any tag normalizing to `all`, `*`,
/// or the current platform, passes.
pub open spec fn spec_platform_allowed(platforms: Seq<Seq<char>>, current: Seq<char>) -> bool {
    platforms.len() == 0 || exists|i: int|
        0 <= i < platforms.len() && {
            let p = #[trigger] spec_normalize_platform(platforms[i]);
            p == "all"@ || p == "*"@ || p == current
        }
}

/// Decides the platform gate against the running platform's tag.
pub fn platform_allowed(platforms: &Vec<String>, current: &str) -> (r: bool)
    ensures
        r == spec_platform_allowed(strings_view(platforms@), current@),
{
    let ghost gp = strings_view(platforms@);
    if platforms.len() == 0 {
        return true;
    }
    let mut i: usize = 0;
    while i < platforms.len()
        invariant
            i <= gp.len(),
            gp == strings_view(platforms@),
            gp.len() == platforms@.len(),
            forall|k: int|
                0 <= k < i ==> {
                    let p = #[trigger] spec_normalize_platform(gp[k]);
                    p != "all"@ && p != "*"@ && p != current@
                },
        decreases gp.len() - i,
    {
        proof {
            assert(gp[i as int] == platforms@[i as int]@);
        }
        let p = normalize_platform(platforms[i].as_str());
        if str_eq(p.as_str(), "all") || str_eq(p.as_str(), "*") || str_eq(p.as_str(), current) {
            return true;
        }
        i = i + 1;
    }
    proof {
        if spec_platform_allowed(gp, current@) {
            let k = choose|k: int|
                0 <= k < gp.len() && {
                    let p = #[trigger] spec_normalize_platform(gp[k]);
                    p == "all"@ || p == "*"@ || p == current@
                };
            assert(spec_normalize_platform(gp[k]) != "all"@);
        }
    }
    false
}

/// The extension list of a `PATHEXT`-style value: split on `;`, each
/// piece trimmed and lowercased, blanks dropped.
pub open spec fn spec_pathext_list(exts: Seq<char>) -> Seq<Seq<char>> {
    crate::strutil::split_seq(exts, ';').map_values(
        |p: Seq<char>| lower_seq(trim_seq(p)),
    ).filter(|p: Seq<char>| p.len() > 0)
}

/// The file names probed for a command on a `PATHEXT` host: the bare name
/// when it already carries one of the listed extensions
/// (case-insensitively), else the bare name followed by the name with
/// each extension appended.
pub open spec fn spec_probe_candidates(command: Seq<char>, exts: Seq<char>) -> Seq<Seq<char>> {
    let el = spec_pathext_list(exts);
    let lower = lower_seq(command);
    if exists|i: int| 0 <= i < el.len() && crate::strutil::ends_with_seq(lower, #[trigger] el[i]) {
        seq![command]
    } else {
        seq![command] + el.map_values(|e: Seq<char>| command + e)
    }
}

/// Lists the candidate file names a `PATH` probe tries for a command,
/// given the host's extension list.
#[verifier::loop_isolation(false)]
pub fn command_probe_candidates(command: &str, pathext: &str) -> (r: Vec<String>)
    ensures
        strings_view(r@) == spec_probe_candidates(command@, pathext@),
{
    let cs = str_chars(pathext);
    let pieces = crate::strutil::split_char(cs.as_slice(), ';');
    let ghost gp = crate::strutil::split_seq(pathext@, ';');
    let ghost mapped = gp.map_values(|p: Seq<char>| lower_seq(trim_seq(p)));
    let mut exts: Vec<String> = Vec::new();
    let mut i: usize = 0;
    proof {
        reveal_with_fuel(Seq::<_>::filter, 1);
        assert(mapped.take(0) =~= Seq::<Seq<char>>::empty());
        assert(strings_view(exts@) =~= mapped.take(0).filter(|p: Seq<char>| p.len() > 0));
    }
    while i < pieces.len()
        invariant
            i <= gp.len(),
            gp == pieces@.map_values(|p: Vec<char>| p@),
            gp.len() == pieces@.len(),
            mapped.len() == gp.len(),
            strings_view(exts@) == mapped.take(i as int).filter(|p: Seq<char>| p.len() > 0),
        decreases gp.len() - i,
    {
        proof {
            reveal_with_fuel(Seq::<_>::filter, 1);
            assert(mapped.take(i + 1).drop_last() =~= mapped.take(i as int));
            assert(mapped.take(i + 1).last() == mapped[i as int]);
            assert(gp[i as int] == pieces@[i as int]@);
        }
        let t = lower_chars(trim_chars(pieces[i].as_slice()).as_slice());
        if t.len() > 0 {
            exts.push(chars_to_string(t.as_slice()));
            proof {
                assert(strings_view(exts@) =~= strings_view(exts@).drop_last().push(
                    mapped[i as int],
                ));
            }
        }
        i = i + 1;
    }
    proof {
        assert(mapped.take(mapped.len() as int) =~= mapped);
    }
    let ghost gel = spec_pathext_list(pathext@);
    let lower = lower_chars(str_chars(command).as_slice());
    let mut has_ext = false;
    let mut j: usize = 0;
    while j < exts.len()
        invariant
            j <= gel.len(),
            gel == strings_view(exts@),
            gel.len() == exts@.len(),
            lower@ == lower_seq(command@),
            has_ext == exists|x: int|
                0 <= x < j && crate::strutil::ends_with_seq(lower_seq(command@), #[trigger] gel[x]),
        decreases gel.len() - j,
    {
        proof {
            assert(gel[j as int] == exts@[j as int]@);
        }
        let ext_chars = str_chars(exts[j].as_str());
        if crate::strutil::chars_ends_with(lower.as_slice(), ext_chars.as_slice()) {
            has_ext = true;
            proof {
                assert(crate::strutil::ends_with_seq(lower_seq(command@), gel[j as int]));
            }
        }
        j = j + 1;
    }
    proof {
        if exists|x: int|
            0 <= x < gel.len() && crate::strutil::ends_with_seq(
                lower_seq(command@),
                #[trigger] gel[x],
            ) {
            let x = choose|x: int|
                0 <= x < gel.len() && crate::strutil::ends_with_seq(
                    lower_seq(command@),
                    #[trigger] gel[x],
                );
            assert(has_ext);
        }
    }
    let mut out: Vec<String> = Vec::new();
    out.push(String::from_str(command));
    if has_ext {
        proof {
            assert(strings_view(out@) =~= seq![command@]);
        }
        return out;
    }
    let ghost appended = gel.map_values(|e: Seq<char>| command@ + e);
    let mut k: usize = 0;
    proof {
        assert(strings_view(out@) =~= seq![command@] + appended.take(0));
    }
    while k < exts.len()
        invariant
            k <= gel.len(),
            gel == strings_view(exts@),
            gel.len() == exts@.len(),
            appended == gel.map_values(|e: Seq<char>| command@ + e),
            appended.len() == gel.len(),
            strings_view(out@) == seq![command@] + appended.take(k as int),
        decreases gel.len() - k,
    {
        proof {
            assert(gel[k as int] == exts@[k as int]@);
            assert(appended[k as int] == command@ + gel[k as int]);
        }
        let mut cand = String::from_str(command);
        cand.append(exts[k].as_str());
        out.push(cand);
        proof {
            assert(appended.take(k + 1) =~= appended.take(k as int).push(appended[k as int]));
            assert(strings_view(out@) =~= (seq![command@] + appended.take(k as int)).push(
                appended[k as int],
            ));
            assert((seq![command@] + appended.take(k as int)).push(appended[k as int]) =~= seq![
                command@,
            ] + appended.take(k + 1));
        }
        k = k + 1;
    }
    proof {
        assert(appended.take(appended.len() as int) =~= appended);
    }
    out
}

/// Spec shape of the host environment the gates run against.
pub struct HostEnvV {
    pub platform: Seq<char>,
    pub exes: Seq<Seq<char>>,
}

/// What the host reports: the running platform's tag, and the names among
/// the queried executables that resolve on `PATH`.
pub struct HostEnv {
    pub platform: String,
    pub exes: Vec<String>,
}

impl View for HostEnv {
    type V = HostEnvV;

    open spec fn view(&self) -> HostEnvV {
        HostEnvV { platform: self.platform@, exes: strings_view(self.exes@) }
    }
}

/// A declared executable counts as present when its name is blank after
/// trimming, or the host reports it as resolvable.
pub open spec fn spec_command_exists(env: HostEnvV, cmd: Seq<char>) -> bool {
    trim_seq(cmd).len() == 0 || env.exes.contains(cmd)
}

/// The declared dependencies that are missing from the host, by exact
/// name, in order.
pub open spec fn spec_missing_deps(deps: Seq<Seq<char>>, env: HostEnvV) -> Seq<Seq<char>> {
    deps.filter(|d: Seq<char>| !spec_command_exists(env, d))
}

/// Lists the declared dependencies whose executables the host does not
/// resolve.
#[verifier::loop_isolation(false)]
pub fn missing_deps(deps: &Vec<String>, env: &HostEnv) -> (r: Vec<String>)
    ensures
        strings_view(r@) == spec_missing_deps(strings_view(deps@), env@),
{
    let ghost gd = strings_view(deps@);
    let mut r: Vec<String> = Vec::new();
    let mut i: usize = 0;
    proof {
        assert(gd.take(0) =~= Seq::<Seq<char>>::empty());
        reveal_with_fuel(Seq::<_>::filter, 1);
        assert(strings_view(r@) =~= gd.take(0).filter(
            |d: Seq<char>| !spec_command_exists(env@, d),
        ));
    }
    while i < deps.len()
        invariant
            i <= gd.len(),
            gd.len() == deps@.len(),
            strings_view(r@) == gd.take(i as int).filter(
                |d: Seq<char>| !spec_command_exists(env@, d),
            ),
        decreases gd.len() - i,
    {
        proof {
            reveal_with_fuel(Seq::<_>::filter, 1);
            assert(gd.take(i + 1).drop_last() =~= gd.take(i as int));
            assert(gd.take(i + 1).last() == gd[i as int]);
            assert(gd[i as int] == deps@[i as int]@);
        }
        let trimmed = trim_chars(str_chars(deps[i].as_str()).as_slice());
        let present = trimmed.len() == 0 || crate::install::strings_contain(
            &env.exes,
            deps[i].as_str(),
        );
        if !present {
            r.push(String::from_str(deps[i].as_str()));
            proof {
                assert(strings_view(r@) =~= strings_view(r@).drop_last().push(gd[i as int]));
            }
        }
        i = i + 1;
    }
    proof {
        assert(gd.take(gd.len() as int) =~= gd);
    }
    r
}

/// Spec shape of a skill's runtime metadata.
pub struct SkillMetadataV {
    pub name: Seq<char>,
    pub description: Seq<char>,
    pub dir_path: Seq<char>,
    pub platforms: Seq<Seq<char>>,
    pub deps: Seq<Seq<char>>,
    pub source: Seq<char>,
    pub version: Option<Seq<char>>,
    pub updated_at: Option<Seq<char>>,
}

/// A skill's runtime metadata, read from its manifest.
pub struct SkillMetadata {
    pub name: String,
    pub description: String,
    pub dir_path: String,
    pub platforms: Vec<String>,
    pub deps: Vec<String>,
    pub source: String,
    pub version: Option<String>,
    pub updated_at: Option<String>,
}

impl View for SkillMetadata {
    type V = SkillMetadataV;

    open spec fn view(&self) -> SkillMetadataV {
        SkillMetadataV {
            name: self.name@,
            description: self.description@,
            dir_path: self.dir_path@,
            platforms: strings_view(self.platforms@),
            deps: strings_view(self.deps@),
            source: self.source@,
            version: opt_str_view(self.version),
            updated_at: opt_str_view(self.updated_at),
        }
    }
}

/// Every leading byte-order mark removed.
pub open spec fn strip_boms(s: Seq<char>) -> Seq<char>
    decreases s.len(),
{
    if s.len() > 0 && s[0] == '\u{feff}' {
        strip_boms(s.drop_first())
    } else {
        s
    }
}

/// The string field `key`, when the YAML parses and the field is a string.
pub open spec fn scalar_field(yaml: Seq<char>, key: Seq<char>) -> Option<Seq<char>> {
    match yaml_scalar_of(yaml, key) {
        None => None,
        Some(x) => x,
    }
}

pub open spec fn list_or_empty(o: Option<Seq<Seq<char>>>) -> Seq<Seq<char>> {
    match o {
        None => Seq::empty(),
        Some(l) => l,
    }
}

/// A trimmed field value, dropped when blank.
pub open spec fn opt_trimmed_nonempty(o: Option<Seq<char>>) -> Option<Seq<char>> {
    match o {
        None => None,
        Some(s) => {
            let t = trim_seq(s);
            if t.len() == 0 {
                None
            } else {
                Some(t)
            }
        },
    }
}

/// Normalized platform tags: each declared tag canonicalized, blanks
/// dropped, the rest sorted and deduplicated.
pub open spec fn spec_norm_platforms(raw: Seq<Seq<char>>) -> Seq<Seq<char>> {
    dedup_sorted(
        sort_strings(
            raw.map_values(|p: Seq<char>| spec_normalize_platform(p)).filter(
                |p: Seq<char>| p.len() > 0,
            ),
        ),
    )
}

/// Normalized dependency names: trimmed, blanks dropped, sorted and
/// deduplicated.
pub open spec fn spec_norm_deps(raw: Seq<Seq<char>>) -> Seq<Seq<char>> {
    dedup_sorted(
        sort_strings(
            raw.map_values(|d: Seq<char>| trim_seq(d)).filter(|d: Seq<char>| d.len() > 0),
        ),
    )
}

/// The base name of a directory path, read as a POSIX path: its last
/// non-empty `/`-separated component.
pub open spec fn spec_dir_base_name(dir_path: Seq<char>) -> Option<Seq<char>> {
    let comps = crate::source::nonempty_pieces(dir_path, '/');
    if comps.len() == 0 {
        None
    } else {
        Some(comps.last())
    }
}

/// What parsing a manifest into metadata yields: `None` without a
/// well-formed, non-empty, parseable frontmatter block or when no name can
/// be derived; otherwise the metadata with normalized platform and
/// dependency lists, and the trimmed body. The fields are read one by
/// one, so a single wrong-typed field (say, a list under `name`) falls
/// back to its default instead of rejecting the whole manifest.
pub open spec fn spec_parse_skill_md(
    content: Seq<char>,
    dir_path: Seq<char>,
    default_source: Seq<char>,
) -> Option<(SkillMetadataV, Seq<char>)> {
    let t = strip_boms(content);
    match spec_split_frontmatter(t) {
        None => None,
        Some((yaml, body)) => {
            if trim_seq(yaml).len() == 0 {
                None
            } else {
                match yaml_scalar_of(yaml, "name"@) {
                    None => None,
                    Some(name_raw) => {
                        let nm0 = match name_raw {
                            Some(n) => trim_seq(n),
                            None => Seq::empty(),
                        };
                        let nm_opt = if nm0.len() == 0 {
                            spec_dir_base_name(dir_path)
                        } else {
                            Some(nm0)
                        };
                        match nm_opt {
                            None => None,
                            Some(name) => Some(
                                (
                                    SkillMetadataV {
                                        name,
                                        description: match scalar_field(yaml, "description"@) {
                                            Some(d) => d,
                                            None => Seq::empty(),
                                        },
                                        dir_path,
                                        platforms: spec_norm_platforms(
                                            list_or_empty(yaml_list_of(yaml, "platforms"@))
                                                + list_or_empty(
                                                yaml_nested_list_of(
                                                    yaml,
                                                    "compatibility"@,
                                                    "os"@,
                                                ),
                                            ),
                                        ),
                                        deps: spec_norm_deps(
                                            list_or_empty(yaml_list_of(yaml, "deps"@))
                                                + list_or_empty(
                                                yaml_nested_list_of(
                                                    yaml,
                                                    "compatibility"@,
                                                    "deps"@,
                                                ),
                                            ),
                                        ),
                                        source: match opt_trimmed_nonempty(
                                            scalar_field(yaml, "source"@),
                                        ) {
                                            Some(s) => s,
                                            None => default_source,
                                        },
                                        version: opt_trimmed_nonempty(
                                            scalar_field(yaml, "version"@),
                                        ),
                                        updated_at: opt_trimmed_nonempty(
                                            scalar_field(yaml, "updated_at"@),
                                        ),
                                    },
                                    body,
                                ),
                            ),
                        }
                    },
                }
            }
        },
    }
}

/// Trims then drops a blank optional field.
fn trim_nonempty(o: Option<String>) -> (r: Option<String>)
    ensures
        opt_str_view(r) == opt_trimmed_nonempty(opt_str_view(o)),
{
    match o {
        None => None,
        Some(s) => {
            let t = trim_str(s.as_str());
            if t.as_str().unicode_len() == 0 {
                None
            } else {
                Some(t)
            }
        },
    }
}

/// Maps declared platform tags through normalization and drops blanks.
#[verifier::loop_isolation(false)]
fn normalize_tag_list(raw: &Vec<String>) -> (r: Vec<String>)
    ensures
        strings_view(r@) == strings_view(raw@).map_values(
            |p: Seq<char>| spec_normalize_platform(p),
        ).filter(|p: Seq<char>| p.len() > 0),
{
    let ghost gr = strings_view(raw@);
    let ghost mapped = gr.map_values(|p: Seq<char>| spec_normalize_platform(p));
    let mut r: Vec<String> = Vec::new();
    let mut i: usize = 0;
    proof {
        reveal_with_fuel(Seq::<_>::filter, 1);
        assert(mapped.take(0) =~= Seq::<Seq<char>>::empty());
        assert(strings_view(r@) =~= mapped.take(0).filter(|p: Seq<char>| p.len() > 0));
    }
    while i < raw.len()
        invariant
            i <= gr.len(),
            gr.len() == raw@.len(),
            mapped.len() == gr.len(),
            strings_view(r@) == mapped.take(i as int).filter(|p: Seq<char>| p.len() > 0),
        decreases gr.len() - i,
    {
        proof {
            reveal_with_fuel(Seq::<_>::filter, 1);
            assert(mapped.take(i + 1).drop_last() =~= mapped.take(i as int));
            assert(mapped.take(i + 1).last() == mapped[i as int]);
            assert(gr[i as int] == raw@[i as int]@);
        }
        let p = normalize_platform(raw[i].as_str());
        if p.as_str().unicode_len() > 0 {
            r.push(p);
            proof {
                assert(strings_view(r@) =~= strings_view(r@).drop_last().push(
                    mapped[i as int],
                ));
            }
        }
        i = i + 1;
    }
    proof {
        assert(mapped.take(mapped.len() as int) =~= mapped);
    }
    r
}

/// Maps declared dependency names through trimming and drops blanks.
#[verifier::loop_isolation(false)]
fn trim_dep_list(raw: &Vec<String>) -> (r: Vec<String>)
    ensures
        strings_view(r@) == strings_view(raw@).map_values(|d: Seq<char>| trim_seq(d)).filter(
            |d: Seq<char>| d.len() > 0,
        ),
{
    let ghost gr = strings_view(raw@);
    let ghost mapped = gr.map_values(|d: Seq<char>| trim_seq(d));
    let mut r: Vec<String> = Vec::new();
    let mut i: usize = 0;
    proof {
        reveal_with_fuel(Seq::<_>::filter, 1);
        assert(mapped.take(0) =~= Seq::<Seq<char>>::empty());
        assert(strings_view(r@) =~= mapped.take(0).filter(|d: Seq<char>| d.len() > 0));
    }
    while i < raw.len()
        invariant
            i <= gr.len(),
            gr.len() == raw@.len(),
            mapped.len() == gr.len(),
            strings_view(r@) == mapped.take(i as int).filter(|d: Seq<char>| d.len() > 0),
        decreases gr.len() - i,
    {
        proof {
            reveal_with_fuel(Seq::<_>::filter, 1);
            assert(mapped.take(i + 1).drop_last() =~= mapped.take(i as int));
            assert(mapped.take(i + 1).last() == mapped[i as int]);
            assert(gr[i as int] == raw@[i as int]@);
        }
        let d = trim_str(raw[i].as_str());
        if d.as_str().unicode_len() > 0 {
            r.push(d);
            proof {
                assert(strings_view(r@) =~= strings_view(r@).drop_last().push(
                    mapped[i as int],
                ));
            }
        }
        i = i + 1;
    }
    proof {
        assert(mapped.take(mapped.len() as int) =~= mapped);
    }
    r
}

/// Parses a manifest into runtime metadata and the instruction body.
#[verifier::loop_isolation(false)]
pub fn parse_skill_md(content: &str, dir_path: &str, default_source: &str) -> (r: Option<
    (SkillMetadata, String),
>)
    ensures
        match r {
            Some((meta, body)) => spec_parse_skill_md(content@, dir_path@, default_source@)
                == Some((meta@, body@)),
            None => spec_parse_skill_md(content@, dir_path@, default_source@) is None,
        },
{
    let cs = str_chars(content);
    let mut start: usize = 0;
    proof {
        assert(cs@.skip(0) =~= cs@);
    }
    while start < cs.len() && cs[start] == '\u{feff}'
        invariant
            start <= cs@.len(),
            strip_boms(cs@) == strip_boms(cs@.skip(start as int)),
        decreases cs@.len() - start,
    {
        proof {
            assert(cs@.skip(start as int)[0] == cs@[start as int]);
            assert(cs@.skip(start as int).drop_first() =~= cs@.skip(start + 1));
        }
        start = start + 1;
    }
    proof {
        let rest = cs@.skip(start as int);
        assert(strip_boms(rest) == rest) by {
            if rest.len() > 0 {
                assert(rest[0] == cs@[start as int]);
            }
        }
    }
    let stripped = chars_to_string(subrange_vec(cs.as_slice(), start, cs.len()).as_slice());
    proof {
        assert(cs@.subrange(start as int, cs@.len() as int) =~= cs@.skip(start as int));
    }
    let (yaml, body) = match split_frontmatter(stripped.as_str()) {
        None => {
            return None;
        },
        Some(pair) => pair,
    };
    if trim_str(yaml.as_str()).as_str().unicode_len() == 0 {
        return None;
    }
    let name_raw = match yaml_scalar_field(yaml.as_str(), "name") {
        None => {
            return None;
        },
        Some(n) => n,
    };
    let nm0 = match name_raw {
        Some(n) => trim_str(n.as_str()),
        None => String::new(),
    };
    let name: String = if nm0.as_str().unicode_len() == 0 {
        let dp = str_chars(dir_path);
        let pieces = crate::strutil::split_char(dp.as_slice(), '/');
        let comps = crate::source::filter_nonempty(&pieces);
        let ghost gcomps = crate::source::nonempty_pieces(dir_path@, '/');
        if comps.len() == 0 {
            return None;
        }
        proof {
            assert(comps@.map_values(|p: Vec<char>| p@)[comps@.len() - 1] == gcomps.last());
        }
        chars_to_string(comps[comps.len() - 1].as_slice())
    } else {
        nm0
    };
    let mut platforms_raw = match yaml_list_field(yaml.as_str(), "platforms") {
        None => Vec::new(),
        Some(l) => l,
    };
    let mut compat_os = match yaml_nested_list_field(yaml.as_str(), "compatibility", "os") {
        None => Vec::new(),
        Some(l) => l,
    };
    let ghost gplat = strings_view(platforms_raw@);
    let ghost gcos = strings_view(compat_os@);
    platforms_raw.append(&mut compat_os);
    proof {
        assert(strings_view(platforms_raw@) =~= gplat + gcos);
    }
    let platforms = dedup_string_vec(&sort_string_vec(&normalize_tag_list(&platforms_raw)));
    let mut deps_raw = match yaml_list_field(yaml.as_str(), "deps") {
        None => Vec::new(),
        Some(l) => l,
    };
    let mut compat_deps = match yaml_nested_list_field(yaml.as_str(), "compatibility", "deps") {
        None => Vec::new(),
        Some(l) => l,
    };
    let ghost gdeps = strings_view(deps_raw@);
    let ghost gcd = strings_view(compat_deps@);
    deps_raw.append(&mut compat_deps);
    proof {
        assert(strings_view(deps_raw@) =~= gdeps + gcd);
    }
    let deps = dedup_string_vec(&sort_string_vec(&trim_dep_list(&deps_raw)));
    let source = match trim_nonempty(
        match yaml_scalar_field(yaml.as_str(), "source") {
            None => None,
            Some(s) => s,
        },
    ) {
        Some(s) => s,
        None => String::from_str(default_source),
    };
    let version = trim_nonempty(
        match yaml_scalar_field(yaml.as_str(), "version") {
            None => None,
            Some(s) => s,
        },
    );
    let updated_at = trim_nonempty(
        match yaml_scalar_field(yaml.as_str(), "updated_at") {
            None => None,
            Some(s) => s,
        },
    );
    Some(
        (
            SkillMetadata {
                name,
                description: match yaml_scalar_field(yaml.as_str(), "description") {
                    Some(Some(d)) => d,
                    _ => String::new(),
                },
                dir_path: String::from_str(dir_path),
                platforms,
                deps,
                source,
                version,
                updated_at,
            },
            body,
        ),
    )
}

/// Spec shape of a skills root.
pub struct SkillRootV {
    pub path: Seq<char>,
    pub source: Seq<char>,
}

/// One skills root: a directory of installed skills and its source tag.
pub struct SkillRoot {
    pub path: String,
    pub source: String,
}

impl View for SkillRoot {
    type V = SkillRootV;

    open spec fn view(&self) -> SkillRootV {
        SkillRootV { path: self.path@, source: self.source@ }
    }
}

/// Spec shape of one child directory of a root.
pub struct SkillDirEntryV {
    pub dir_name: Seq<char>,
    pub skill_md: Option<Seq<char>>,
}

/// One child directory of a skills root, with the content of its
/// `SKILL.md` when it has a readable one.
pub struct SkillDirEntry {
    pub dir_name: String,
    pub skill_md: Option<String>,
}

impl View for SkillDirEntry {
    type V = SkillDirEntryV;

    open spec fn view(&self) -> SkillDirEntryV {
        SkillDirEntryV { dir_name: self.dir_name@, skill_md: opt_str_view(self.skill_md) }
    }
}

pub open spec fn roots_view(v: Seq<SkillRoot>) -> Seq<SkillRootV> {
    v.map_values(|r: SkillRoot| r@)
}

pub open spec fn listing_view(v: Seq<SkillDirEntry>) -> Seq<SkillDirEntryV> {
    v.map_values(|e: SkillDirEntry| e@)
}

pub open spec fn listings_view(v: Seq<Vec<SkillDirEntry>>) -> Seq<Seq<SkillDirEntryV>> {
    v.map_values(|l: Vec<SkillDirEntry>| listing_view(l@))
}

pub open spec fn metas_view(v: Seq<SkillMetadata>) -> Seq<SkillMetadataV> {
    v.map_values(|m: SkillMetadata| m@)
}

/// Spec shape of one catalog map entry: the case-folded name key, the
/// metadata, and the manifest body.
pub struct CatalogEntryV {
    pub key: Seq<char>,
    pub meta: SkillMetadataV,
    pub body: Seq<char>,
}

/// One entry of the name-keyed merge map.
pub struct CatalogEntry {
    pub key: String,
    pub meta: SkillMetadata,
    pub body: String,
}

impl View for CatalogEntry {
    type V = CatalogEntryV;

    open spec fn view(&self) -> CatalogEntryV {
        CatalogEntryV { key: self.key@, meta: self.meta@, body: self.body@ }
    }
}

pub open spec fn catalog_view(v: Seq<CatalogEntry>) -> Seq<CatalogEntryV> {
    v.map_values(|e: CatalogEntry| e@)
}

/// The first index holding the key, or -1.
pub open spec fn assoc_index(m: Seq<CatalogEntryV>, k: Seq<char>) -> int
    decreases m.len(),
{
    if m.len() == 0 {
        -1
    } else if m[0].key == k {
        0
    } else {
        let r = assoc_index(m.drop_first(), k);
        if r < 0 {
            -1
        } else {
            r + 1
        }
    }
}

pub proof fn lemma_assoc_index(m: Seq<CatalogEntryV>, k: Seq<char>)
    ensures
        -1 <= assoc_index(m, k) < m.len(),
        assoc_index(m, k) == -1 ==> forall|j: int| 0 <= j < m.len() ==> m[j].key != k,
        assoc_index(m, k) >= 0 ==> m[assoc_index(m, k)].key == k && forall|j: int|
            0 <= j < assoc_index(m, k) ==> m[j].key != k,
    decreases m.len(),
{
    if m.len() > 0 && m[0].key != k {
        let md = m.drop_first();
        lemma_assoc_index(md, k);
        assert forall|j: int| 1 <= j < m.len() implies #[trigger] m[j].key == md[j - 1].key by {
            assert(md[j - 1] == m[j]);
        }
        if assoc_index(md, k) >= 0 {
            assert(m[assoc_index(m, k)] == md[assoc_index(md, k)]);
        }
    }
}

/// Insert-or-replace on the merge map: a later entry of the same key
/// overwrites the earlier one in place.
pub open spec fn assoc_put(m: Seq<CatalogEntryV>, e: CatalogEntryV) -> Seq<CatalogEntryV> {
    let i = assoc_index(m, e.key);
    if i < 0 {
        m.push(e)
    } else {
        m.update(i, e)
    }
}

pub open spec fn assoc_get(m: Seq<CatalogEntryV>, k: Seq<char>) -> Option<CatalogEntryV> {
    let i = assoc_index(m, k);
    if i < 0 {
        None
    } else {
        Some(m[i])
    }
}

/// Both gates at once: platform allowed and no missing dependency.
pub open spec fn gates_pass(meta: SkillMetadataV, env: HostEnvV) -> bool {
    spec_platform_allowed(meta.platforms, env.platform) && spec_missing_deps(meta.deps, env).len()
        == 0
}

/// The on-disk path of a skill directory under a root.
pub open spec fn root_dir_path(root: SkillRootV, dir_name: Seq<char>) -> Seq<char> {
    root.path + seq!['/'] + dir_name
}

/// One merge step: a parseable manifest is inserted under its case-folded
/// name; in catalog mode a gate-failing entry is never inserted, so an
/// earlier passing entry of the same name survives.
pub open spec fn merge_entry(
    m: Seq<CatalogEntryV>,
    root: SkillRootV,
    e: SkillDirEntryV,
    include_unavailable: bool,
    env: HostEnvV,
) -> Seq<CatalogEntryV> {
    match e.skill_md {
        None => m,
        Some(content) => match spec_parse_skill_md(
            content,
            root_dir_path(root, e.dir_name),
            root.source,
        ) {
            None => m,
            Some((meta, body)) => if include_unavailable || gates_pass(meta, env) {
                assoc_put(m, CatalogEntryV { key: lower_seq(meta.name), meta, body })
            } else {
                m
            },
        },
    }
}

pub open spec fn merge_root(
    m: Seq<CatalogEntryV>,
    root: SkillRootV,
    es: Seq<SkillDirEntryV>,
    include_unavailable: bool,
    env: HostEnvV,
) -> Seq<CatalogEntryV>
    decreases es.len(),
{
    if es.len() == 0 {
        m
    } else {
        merge_root(
            merge_entry(m, root, es[0], include_unavailable, env),
            root,
            es.drop_first(),
            include_unavailable,
            env,
        )
    }
}

pub open spec fn merge_from(
    m: Seq<CatalogEntryV>,
    roots: Seq<SkillRootV>,
    listings: Seq<Seq<SkillDirEntryV>>,
    i: int,
    include_unavailable: bool,
    env: HostEnvV,
) -> Seq<CatalogEntryV>
    decreases roots.len() - i,
{
    if i < 0 || i >= roots.len() {
        m
    } else {
        merge_from(
            merge_root(m, roots[i], listings[i], include_unavailable, env),
            roots,
            listings,
            i + 1,
            include_unavailable,
            env,
        )
    }
}

/// The merge map over all roots in precedence order: later roots override
/// earlier ones on the same case-folded name.
pub open spec fn spec_merged(
    roots: Seq<SkillRootV>,
    listings: Seq<Seq<SkillDirEntryV>>,
    include_unavailable: bool,
    env: HostEnvV,
) -> Seq<CatalogEntryV> {
    merge_from(Seq::empty(), roots, listings, 0, include_unavailable, env)
}

/// Metadata inserted before the first entry whose name is not below its
/// own.
pub open spec fn insert_meta_sorted(x: SkillMetadataV, s: Seq<SkillMetadataV>) -> Seq<
    SkillMetadataV,
>
    decreases s.len(),
{
    if s.len() == 0 {
        seq![x]
    } else if seq_char_lt(s[0].name, x.name) {
        seq![s[0]] + insert_meta_sorted(x, s.drop_first())
    } else {
        seq![x] + s
    }
}

pub open spec fn sort_metas(xs: Seq<SkillMetadataV>) -> Seq<SkillMetadataV>
    decreases xs.len(),
{
    if xs.len() == 0 {
        Seq::empty()
    } else {
        insert_meta_sorted(xs[0], sort_metas(xs.drop_first()))
    }
}

/// The gated catalog: the catalog-mode merge, sorted by name.
pub open spec fn spec_catalog(
    roots: Seq<SkillRootV>,
    listings: Seq<Seq<SkillDirEntryV>>,
    env: HostEnvV,
) -> Seq<SkillMetadataV> {
    sort_metas(spec_merged(roots, listings, false, env).map_values(|e: CatalogEntryV| e.meta))
}

/// The availability verdict of one skill on this host, with its message.
pub open spec fn spec_skill_is_available(meta: SkillMetadataV, env: HostEnvV) -> Result<
    (),
    Seq<char>,
> {
    if !spec_platform_allowed(meta.platforms, env.platform) {
        Err(
            "Skill '"@ + meta.name + "' is not available on this platform (current: "@
                + env.platform + ", supported: "@ + crate::strutil::join_seq(
                meta.platforms,
                ", "@,
            ) + ")."@,
        )
    } else {
        let missing = spec_missing_deps(meta.deps, env);
        if missing.len() > 0 {
            Err(
                "Skill '"@ + meta.name + "' is missing required dependencies: "@
                    + crate::strutil::join_seq(missing, ", "@),
            )
        } else {
            Ok(())
        }
    }
}

/// What activation-mode lookup yields: the name resolves against every
/// parseable entry of every root (last root wins), and only the selected
/// entry is gate-checked; a failing gate reports why instead of falling
/// back to a lower-precedence entry.
pub open spec fn spec_load_skill(
    roots: Seq<SkillRootV>,
    listings: Seq<Seq<SkillDirEntryV>>,
    env: HostEnvV,
    name: Seq<char>,
) -> Result<(SkillMetadataV, Seq<char>), Seq<char>> {
    let requested = trim_seq(name);
    if requested.len() == 0 {
        Err("Skill name cannot be empty."@)
    } else {
        let m = spec_merged(roots, listings, true, env);
        match assoc_get(m, lower_seq(requested)) {
            Some(entry) => match spec_skill_is_available(entry.meta, env) {
                Err(e) => Err(e),
                Ok(()) => Ok((entry.meta, entry.body)),
            },
            None => {
                let avail = spec_catalog(roots, listings, env);
                if avail.len() == 0 {
                    Err(
                        "Skill '"@ + requested
                            + "' not found. No skills are currently available."@,
                    )
                } else {
                    Err(
                        "Skill '"@ + requested + "' not found. Available skills: "@
                            + crate::strutil::join_seq(
                            avail.map_values(|s: SkillMetadataV| s.name),
                            ", "@,
                        ),
                    )
                }
            },
        }
    }
}

/// Clones a string vector, keeping its view.
fn clone_strings(v: &Vec<String>) -> (r: Vec<String>)
    ensures
        strings_view(r@) == strings_view(v@),
{
    let mut r: Vec<String> = Vec::new();
    let mut i: usize = 0;
    while i < v.len()
        invariant
            i <= v@.len(),
            r@.len() == i,
            forall|k: int| 0 <= k < i ==> r@[k]@ == v@[k]@,
        decreases v@.len() - i,
    {
        r.push(String::from_str(v[i].as_str()));
        i = i + 1;
    }
    proof {
        assert(strings_view(r@) =~= strings_view(v@));
    }
    r
}

fn clone_opt_string(v: &Option<String>) -> (r: Option<String>)
    ensures
        opt_str_view(r) == opt_str_view(*v),
{
    match v {
        Some(s) => Some(String::from_str(s.as_str())),
        None => None,
    }
}

/// Clones a string vector, keeping its view.
pub fn clone_string_vec_pub(v: &Vec<String>) -> (r: Vec<String>)
    ensures
        strings_view(r@) == strings_view(v@),
{
    clone_strings(v)
}

/// Clones skill metadata, keeping its view.
pub fn clone_meta(m: &SkillMetadata) -> (r: SkillMetadata)
    ensures
        r@ == m@,
{
    let r = SkillMetadata {
        name: String::from_str(m.name.as_str()),
        description: String::from_str(m.description.as_str()),
        dir_path: String::from_str(m.dir_path.as_str()),
        platforms: clone_strings(&m.platforms),
        deps: clone_strings(&m.deps),
        source: String::from_str(m.source.as_str()),
        version: clone_opt_string(&m.version),
        updated_at: clone_opt_string(&m.updated_at),
    };
    proof {
        assert(r@ == m@);
    }
    r
}

/// Inserts or replaces a catalog entry under its key.
#[verifier::loop_isolation(false)]
fn assoc_put_exec(m: &mut Vec<CatalogEntry>, e: CatalogEntry)
    ensures
        catalog_view(final(m)@) == assoc_put(catalog_view(old(m)@), e@),
{
    let ghost gm = catalog_view(m@);
    proof {
        lemma_assoc_index(gm, e@.key);
    }
    let mut i: usize = 0;
    while i < m.len()
        invariant
            i <= gm.len(),
            gm == catalog_view(m@),
            gm.len() == m@.len(),
            forall|k: int| 0 <= k < i ==> gm[k].key != e@.key,
        decreases gm.len() - i,
    {
        proof {
            assert(gm[i as int] == m@[i as int]@);
        }
        if str_eq(m[i].key.as_str(), e.key.as_str()) {
            proof {
                assert(assoc_index(gm, e@.key) == i as int);
            }
            m.remove(i);
            m.insert(i, e);
            proof {
                assert(catalog_view(m@) =~= gm.update(i as int, e@));
            }
            return ;
        }
        i = i + 1;
    }
    proof {
        if assoc_index(gm, e@.key) >= 0 {
            assert(gm[assoc_index(gm, e@.key)].key == e@.key);
        }
    }
    m.push(e);
    proof {
        assert(catalog_view(m@) =~= gm.push(e@));
    }
}

/// Inserts metadata into a name-sorted vector at its place.
#[verifier::loop_isolation(false)]
fn insert_meta_into_sorted(sorted: &Vec<SkillMetadata>, x: SkillMetadata) -> (r: Vec<
    SkillMetadata,
>)
    ensures
        metas_view(r@) == insert_meta_sorted(x@, metas_view(sorted@)),
{
    let ghost gs = metas_view(sorted@);
    let mut out: Vec<SkillMetadata> = Vec::new();
    let mut j: usize = 0;
    proof {
        assert(gs.skip(0) =~= gs);
        assert(metas_view(out@) + insert_meta_sorted(x@, gs) =~= insert_meta_sorted(x@, gs));
    }
    while j < sorted.len() && str_lt(sorted[j].name.as_str(), x.name.as_str())
        invariant
            j <= gs.len(),
            insert_meta_sorted(x@, gs) == metas_view(out@) + insert_meta_sorted(
                x@,
                gs.skip(j as int),
            ),
            metas_view(out@).len() == j,
        decreases gs.len() - j,
    {
        proof {
            assert(gs.skip(j as int)[0] == gs[j as int]);
            assert(gs.skip(j as int).drop_first() =~= gs.skip(j + 1));
            assert(gs[j as int] == sorted@[j as int]@);
        }
        out.push(clone_meta(&sorted[j]));
        proof {
            assert(metas_view(out@) =~= metas_view(out@).drop_last().push(gs[j as int]));
            assert(metas_view(out@).drop_last() + (seq![gs[j as int]] + insert_meta_sorted(
                x@,
                gs.skip(j + 1),
            )) =~= metas_view(out@) + insert_meta_sorted(x@, gs.skip(j + 1)));
        }
        j = j + 1;
    }
    proof {
        assert(insert_meta_sorted(x@, gs.skip(j as int)) =~= seq![x@] + gs.skip(j as int)) by {
            if gs.skip(j as int).len() > 0 {
                assert(gs.skip(j as int)[0] == gs[j as int]);
            }
        }
    }
    let ghost gx = x@;
    out.push(x);
    let mut k: usize = j;
    while k < sorted.len()
        invariant
            j <= k <= gs.len(),
            metas_view(out@) == insert_meta_sorted(gx, gs).take(k + 1),
        decreases gs.len() - k,
    {
        proof {
            assert(gs[k as int] == sorted@[k as int]@);
            assert(insert_meta_sorted(gx, gs)[k + 1] == gs[k as int]) by {
                assert(insert_meta_sorted(gx, gs) == metas_view(out@).take(j as int)
                    + insert_meta_sorted(gx, gs.skip(j as int)));
            }
        }
        out.push(clone_meta(&sorted[k]));
        proof {
            assert(metas_view(out@) =~= insert_meta_sorted(gx, gs).take(k + 2));
        }
        k = k + 1;
    }
    proof {
        assert(insert_meta_sorted(gx, gs).len() == gs.len() + 1);
        assert(metas_view(out@) =~= insert_meta_sorted(gx, gs));
    }
    out
}

/// Sorts metadata by name.
#[verifier::loop_isolation(false)]
fn sort_meta_vec(xs: Vec<SkillMetadata>) -> (r: Vec<SkillMetadata>)
    ensures
        metas_view(r@) == sort_metas(metas_view(xs@)),
{
    let ghost gx = metas_view(xs@);
    let mut r: Vec<SkillMetadata> = Vec::new();
    let mut i: usize = xs.len();
    proof {
        assert(gx.skip(xs@.len() as int) =~= Seq::<SkillMetadataV>::empty());
    }
    while i > 0
        invariant
            i <= gx.len(),
            gx == metas_view(xs@),
            gx.len() == xs@.len(),
            metas_view(r@) == sort_metas(gx.skip(i as int)),
        decreases i,
    {
        i = i - 1;
        proof {
            assert(gx.skip(i as int)[0] == gx[i as int]);
            assert(gx.skip(i as int).drop_first() =~= gx.skip(i + 1));
            assert(gx[i as int] == xs@[i as int]@);
        }
        r = insert_meta_into_sorted(&r, clone_meta(&xs[i]));
    }
    proof {
        assert(gx.skip(0) =~= gx);
    }
    r
}

/// The runtime skill manager: a list of skills roots in precedence order,
/// later roots overriding earlier ones.
pub struct SkillManager {
    pub roots: Vec<SkillRoot>,
}

impl SkillManager {
    /// The fixed precedence roots for a workspace: the personal root under
    /// the home directory (when one is known), the project root under the
    /// workspace, and the workspace's own skills directory, in rising
    /// precedence.
    pub fn from_workspace_dir(workspace_dir: &str, home_dir: Option<&str>) -> (r: SkillManager)
        ensures
            match home_dir {
                Some(h) => roots_view(r.roots@) == seq![
                    SkillRootV { path: h@ + "/.agents/skills"@, source: "agents-personal"@ },
                    SkillRootV {
                        path: workspace_dir@ + "/.agents/skills"@,
                        source: "agents-project"@,
                    },
                    SkillRootV { path: workspace_dir@ + "/skills"@, source: "workspace"@ },
                ],
                None => roots_view(r.roots@) == seq![
                    SkillRootV {
                        path: workspace_dir@ + "/.agents/skills"@,
                        source: "agents-project"@,
                    },
                    SkillRootV { path: workspace_dir@ + "/skills"@, source: "workspace"@ },
                ],
            },
    {
        let mut roots: Vec<SkillRoot> = Vec::new();
        match home_dir {
            Some(h) => {
                let mut p = String::from_str(h);
                p.append("/.agents/skills");
                roots.push(SkillRoot { path: p, source: String::from_str("agents-personal") });
            },
            None => {
            },
        }
        let mut p1 = String::from_str(workspace_dir);
        p1.append("/.agents/skills");
        roots.push(SkillRoot { path: p1, source: String::from_str("agents-project") });
        let mut p2 = String::from_str(workspace_dir);
        p2.append("/skills");
        roots.push(SkillRoot { path: p2, source: String::from_str("workspace") });
        let r = SkillManager { roots };
        proof {
            match home_dir {
                Some(h) => {
                    assert(roots_view(r.roots@) =~= seq![
                        SkillRootV {
                            path: h@ + "/.agents/skills"@,
                            source: "agents-personal"@,
                        },
                        SkillRootV {
                            path: workspace_dir@ + "/.agents/skills"@,
                            source: "agents-project"@,
                        },
                        SkillRootV { path: workspace_dir@ + "/skills"@, source: "workspace"@ },
                    ]);
                },
                None => {
                    assert(roots_view(r.roots@) =~= seq![
                        SkillRootV {
                            path: workspace_dir@ + "/.agents/skills"@,
                            source: "agents-project"@,
                        },
                        SkillRootV { path: workspace_dir@ + "/skills"@, source: "workspace"@ },
                    ]);
                },
            }
        }
        r
    }

    /// The merge pass over all roots, in either mode.
    #[verifier::loop_isolation(false)]
    fn discover_merged(
        &self,
        listings: &Vec<Vec<SkillDirEntry>>,
        include_unavailable: bool,
        env: &HostEnv,
    ) -> (r: Vec<CatalogEntry>)
        requires
            listings@.len() == self.roots@.len(),
        ensures
            catalog_view(r@) == spec_merged(
                roots_view(self.roots@),
                listings_view(listings@),
                include_unavailable,
                env@,
            ),
    {
        let ghost groots = roots_view(self.roots@);
        let ghost glistings = listings_view(listings@);
        let mut m: Vec<CatalogEntry> = Vec::new();
        let mut i: usize = 0;
        proof {
            assert(catalog_view(m@) =~= Seq::<CatalogEntryV>::empty());
        }
        while i < self.roots.len()
            invariant
                i <= groots.len(),
                merge_from(
                    catalog_view(m@),
                    groots,
                    glistings,
                    i as int,
                    include_unavailable,
                    env@,
                ) == spec_merged(groots, glistings, include_unavailable, env@),
            decreases groots.len() - i,
        {
            proof {
                assert(groots[i as int] == self.roots@[i as int]@);
                assert(glistings[i as int] == listing_view(listings@[i as int]@));
            }
            let root = &self.roots[i];
            let entries = &listings[i];
            let ghost ges = glistings[i as int];
            let mut j: usize = 0;
            proof {
                assert(ges.skip(0) =~= ges);
            }
            while j < entries.len()
                invariant
                    j <= ges.len(),
                    ges == listing_view(listings@[i as int]@),
                    ges.len() == listings@[i as int]@.len(),
                    i < groots.len(),
                    merge_from(
                        merge_root(
                            catalog_view(m@),
                            groots[i as int],
                            ges.skip(j as int),
                            include_unavailable,
                            env@,
                        ),
                        groots,
                        glistings,
                        i as int + 1,
                        include_unavailable,
                        env@,
                    ) == spec_merged(groots, glistings, include_unavailable, env@),
                decreases ges.len() - j,
            {
                proof {
                    assert(ges.skip(j as int)[0] == ges[j as int]);
                    assert(ges.skip(j as int).drop_first() =~= ges.skip(j + 1));
                    assert(ges[j as int] == listings@[i as int]@[j as int]@);
                }
                let e = &entries[j];
                match &e.skill_md {
                    None => {
                    },
                    Some(content) => {
                        let mut dir_path = String::from_str(root.path.as_str());
                        crate::strutil::push_char(&mut dir_path, '/');
                        dir_path.append(e.dir_name.as_str());
                        proof {
                            assert(dir_path@ == root_dir_path(groots[i as int], ges[j as int].dir_name));
                        }
                        match parse_skill_md(
                            content.as_str(),
                            dir_path.as_str(),
                            root.source.as_str(),
                        ) {
                            None => {
                            },
                            Some((meta, body)) => {
                                let pass = include_unavailable || {
                                    let pa = platform_allowed(
                                        &meta.platforms,
                                        env.platform.as_str(),
                                    );
                                    pa && missing_deps(&meta.deps, env).len() == 0
                                };
                                if pass {
                                    let key = chars_to_string(
                                        lower_chars(
                                            str_chars(meta.name.as_str()).as_slice(),
                                        ).as_slice(),
                                    );
                                    assoc_put_exec(&mut m, CatalogEntry { key, meta, body });
                                }
                            },
                        }
                    },
                }
                j = j + 1;
            }
            i = i + 1;
        }
        proof {
            assert(merge_from(
                catalog_view(m@),
                groots,
                glistings,
                groots.len() as int,
                include_unavailable,
                env@,
            ) == catalog_view(m@));
        }
        m
    }

    /// The gated catalog over the given root listings: every skill whose
    /// manifest parses and whose gates pass, a later root's passing entry
    /// overriding an earlier root's entry of the same name, sorted by
    /// name.
    #[verifier::loop_isolation(false)]
    pub fn discover_skills(
        &self,
        listings: &Vec<Vec<SkillDirEntry>>,
        env: &HostEnv,
    ) -> (r: Vec<SkillMetadata>)
        requires
            listings@.len() == self.roots@.len(),
        ensures
            metas_view(r@) == spec_catalog(
                roots_view(self.roots@),
                listings_view(listings@),
                env@,
            ),
    {
        let merged = self.discover_merged(listings, false, env);
        let ghost gm = catalog_view(merged@);
        let mut metas: Vec<SkillMetadata> = Vec::new();
        let mut i: usize = 0;
        proof {
            assert(metas_view(metas@) =~= gm.map_values(|e: CatalogEntryV| e.meta).take(0));
        }
        while i < merged.len()
            invariant
                i <= gm.len(),
                gm == catalog_view(merged@),
                gm.len() == merged@.len(),
                metas_view(metas@) == gm.map_values(|e: CatalogEntryV| e.meta).take(i as int),
            decreases gm.len() - i,
        {
            proof {
                assert(gm[i as int] == merged@[i as int]@);
                assert(gm.map_values(|e: CatalogEntryV| e.meta)[i as int] == gm[i as int].meta);
            }
            metas.push(clone_meta(&merged[i].meta));
            proof {
                assert(metas_view(metas@) =~= gm.map_values(|e: CatalogEntryV| e.meta).take(
                    i + 1,
                ));
            }
            i = i + 1;
        }
        proof {
            let mapped = gm.map_values(|e: CatalogEntryV| e.meta);
            assert(mapped.take(mapped.len() as int) =~= mapped);
        }
        sort_meta_vec(metas)
    }

    /// The availability verdict for one skill: the platform gate first,
    /// then the dependency gate, each failure with its message.
    pub fn skill_is_available(&self, skill: &SkillMetadata, env: &HostEnv) -> (r: Result<
        (),
        String,
    >)
        ensures
            match r {
                Ok(()) => spec_skill_is_available(skill@, env@) is Ok,
                Err(e) => spec_skill_is_available(skill@, env@) == Err::<(), Seq<char>>(e@),
            },
    {
        if !platform_allowed(&skill.platforms, env.platform.as_str()) {
            let mut msg = String::from_str("Skill '");
            msg.append(skill.name.as_str());
            msg.append("' is not available on this platform (current: ");
            msg.append(env.platform.as_str());
            msg.append(", supported: ");
            msg.append(crate::strutil::join_strings(&skill.platforms, ", ").as_str());
            msg.append(").");
            return Err(msg);
        }
        let missing = missing_deps(&skill.deps, env);
        if missing.len() > 0 {
            let mut msg = String::from_str("Skill '");
            msg.append(skill.name.as_str());
            msg.append("' is missing required dependencies: ");
            msg.append(crate::strutil::join_strings(&missing, ", ").as_str());
            return Err(msg);
        }
        Ok(())
    }

    /// Activation lookup: resolves the trimmed name against every
    /// parseable entry of every root (last root wins on a name), then
    /// gate-checks only the selected entry; failures come back as
    /// descriptive message strings.
    #[verifier::loop_isolation(false)]
    pub fn load_skill_checked(
        &self,
        name: &str,
        listings: &Vec<Vec<SkillDirEntry>>,
        env: &HostEnv,
    ) -> (r: Result<(SkillMetadata, String), String>)
        requires
            listings@.len() == self.roots@.len(),
        ensures
            match r {
                Ok((meta, body)) => spec_load_skill(
                    roots_view(self.roots@),
                    listings_view(listings@),
                    env@,
                    name@,
                ) == Ok::<(SkillMetadataV, Seq<char>), Seq<char>>((meta@, body@)),
                Err(e) => spec_load_skill(
                    roots_view(self.roots@),
                    listings_view(listings@),
                    env@,
                    name@,
                ) == Err::<(SkillMetadataV, Seq<char>), Seq<char>>(e@),
            },
    {
        let requested = trim_str(name);
        if requested.as_str().unicode_len() == 0 {
            return Err(String::from_str("Skill name cannot be empty."));
        }
        let merged = self.discover_merged(listings, true, env);
        let ghost gm = catalog_view(merged@);
        let key = chars_to_string(
            lower_chars(str_chars(requested.as_str()).as_slice()).as_slice(),
        );
        proof {
            lemma_assoc_index(gm, key@);
        }
        let mut i: usize = 0;
        while i < merged.len()
            invariant
                i <= gm.len(),
                gm == catalog_view(merged@),
                gm.len() == merged@.len(),
                forall|k: int| 0 <= k < i ==> gm[k].key != key@,
            decreases gm.len() - i,
        {
            proof {
                assert(gm[i as int] == merged@[i as int]@);
            }
            if str_eq(merged[i].key.as_str(), key.as_str()) {
                proof {
                    assert(assoc_index(gm, key@) == i as int);
                }
                let entry = &merged[i];
                match self.skill_is_available(&entry.meta, env) {
                    Err(e) => {
                        return Err(e);
                    },
                    Ok(()) => {
                        return Ok(
                            (clone_meta(&entry.meta), String::from_str(entry.body.as_str())),
                        );
                    },
                }
            }
            i = i + 1;
        }
        proof {
            if assoc_index(gm, key@) >= 0 {
                assert(gm[assoc_index(gm, key@)].key == key@);
            }
        }
        let avail = self.discover_skills(listings, env);
        if avail.len() == 0 {
            let mut msg = String::from_str("Skill '");
            msg.append(requested.as_str());
            msg.append("' not found. No skills are currently available.");
            Err(msg)
        } else {
            let ghost gav = metas_view(avail@);
            let mut names: Vec<String> = Vec::new();
            let mut k: usize = 0;
            proof {
                assert(strings_view(names@) =~= gav.map_values(|s: SkillMetadataV| s.name).take(
                    0,
                ));
            }
            while k < avail.len()
                invariant
                    k <= gav.len(),
                    gav == metas_view(avail@),
                    gav.len() == avail@.len(),
                    strings_view(names@) == gav.map_values(|s: SkillMetadataV| s.name).take(
                        k as int,
                    ),
                decreases gav.len() - k,
            {
                proof {
                    assert(gav[k as int] == avail@[k as int]@);
                    assert(gav.map_values(|s: SkillMetadataV| s.name)[k as int] == gav[
                        k as int].name);
                }
                names.push(String::from_str(avail[k].name.as_str()));
                proof {
                    assert(strings_view(names@) =~= gav.map_values(
                        |s: SkillMetadataV| s.name,
                    ).take(k + 1));
                }
                k = k + 1;
            }
            proof {
                let mapped = gav.map_values(|s: SkillMetadataV| s.name);
                assert(mapped.take(mapped.len() as int) =~= mapped);
            }
            let mut msg = String::from_str("Skill '");
            msg.append(requested.as_str());
            msg.append("' not found. Available skills: ");
            msg.append(crate::strutil::join_strings(&names, ", ").as_str());
            Err(msg)
        }
    }

    /// The agent-visible skill index: one line per catalog entry, wrapped
    /// in a fixed block, empty when nothing passes the gates.
    #[verifier::loop_isolation(false)]
    pub fn build_skills_catalog(
        &self,
        listings: &Vec<Vec<SkillDirEntry>>,
        env: &HostEnv,
    ) -> (r: String)
        requires
            listings@.len() == self.roots@.len(),
        ensures
            r@ == spec_build_catalog(roots_view(self.roots@), listings_view(listings@), env@),
    {
        let skills = self.discover_skills(listings, env);
        let ghost gsk = metas_view(skills@);
        if skills.len() == 0 {
            return String::new();
        }
        let mut catalog = String::from_str("<available_skills>\n");
        let mut i: usize = 0;
        proof {
            assert(gsk.skip(0) =~= gsk);
        }
        while i < skills.len()
            invariant
                i <= gsk.len(),
                gsk == metas_view(skills@),
                gsk.len() == skills@.len(),
                catalog@ == "<available_skills>\n"@ + spec_catalog_lines(gsk.take(i as int)),
            decreases gsk.len() - i,
        {
            proof {
                assert(gsk[i as int] == skills@[i as int]@);
            }
            let ghost c0 = catalog@;
            catalog.append("- ");
            catalog.append(skills[i].name.as_str());
            catalog.append(": ");
            catalog.append(skills[i].description.as_str());
            catalog.append("\n");
            proof {
                lemma_catalog_lines_snoc(gsk, i as int);
                assert(catalog@ =~= c0 + ("- "@ + gsk[i as int].name + ": "@ + gsk[
                    i as int].description + "\n"@));
            }
            i = i + 1;
        }
        proof {
            assert(gsk.take(gsk.len() as int) =~= gsk);
        }
        catalog.append("</available_skills>");
        catalog
    }
}

/// The catalog block's lines, one per skill.
pub open spec fn spec_catalog_lines(skills: Seq<SkillMetadataV>) -> Seq<char>
    decreases skills.len(),
{
    if skills.len() == 0 {
        Seq::empty()
    } else {
        ("- "@ + skills[0].name + ": "@ + skills[0].description + "\n"@) + spec_catalog_lines(
            skills.drop_first(),
        )
    }
}

proof fn lemma_catalog_lines_snoc(skills: Seq<SkillMetadataV>, i: int)
    requires
        0 <= i < skills.len(),
    ensures
        spec_catalog_lines(skills.take(i + 1)) == spec_catalog_lines(skills.take(i)) + ("- "@
            + skills[i].name + ": "@ + skills[i].description + "\n"@),
    decreases i,
{
    if i == 0 {
        assert(skills.take(1)[0] == skills[0]);
        assert(skills.take(1).drop_first() =~= skills.take(0));
        assert(spec_catalog_lines(skills.take(0)) =~= Seq::<char>::empty());
        assert(spec_catalog_lines(skills.take(1)) =~= spec_catalog_lines(skills.take(0)) + (
        "- "@ + skills[0].name + ": "@ + skills[0].description + "\n"@));
    } else {
        lemma_catalog_lines_snoc(skills.drop_first(), i - 1);
        assert(skills.take(i + 1)[0] == skills[0]);
        assert(skills.take(i + 1).drop_first() =~= skills.drop_first().take(i));
        assert(skills.take(i)[0] == skills[0]);
        assert(skills.take(i).drop_first() =~= skills.drop_first().take(i - 1));
        assert(skills.drop_first()[i - 1] == skills[i]);
        let line0 = "- "@ + skills[0].name + ": "@ + skills[0].description + "\n"@;
        let linei = "- "@ + skills[i].name + ": "@ + skills[i].description + "\n"@;
        assert(line0 + (spec_catalog_lines(skills.drop_first().take(i - 1)) + linei) =~= (line0
            + spec_catalog_lines(skills.drop_first().take(i - 1))) + linei);
    }
}

/// What the catalog block renders to: nothing when no skill passes the
/// gates, else the skill lines wrapped in the fixed tags.
pub open spec fn spec_build_catalog(
    roots: Seq<SkillRootV>,
    listings: Seq<Seq<SkillDirEntryV>>,
    env: HostEnvV,
) -> Seq<char> {
    let skills = spec_catalog(roots, listings, env);
    if skills.len() == 0 {
        Seq::empty()
    } else {
        "<available_skills>\n"@ + spec_catalog_lines(skills) + "</available_skills>"@
    }
}

/// What one root directory entry contributes to the merge map, if
/// anything: its catalog entry when the manifest parses and — in catalog
/// mode — the gates pass.
pub open spec fn entry_contribution(
    root: SkillRootV,
    e: SkillDirEntryV,
    include_unavailable: bool,
    env: HostEnvV,
) -> Option<CatalogEntryV> {
    match e.skill_md {
        None => None,
        Some(content) => match spec_parse_skill_md(
            content,
            root_dir_path(root, e.dir_name),
            root.source,
        ) {
            None => None,
            Some((meta, body)) => if include_unavailable || gates_pass(meta, env) {
                Some(CatalogEntryV { key: lower_seq(meta.name), meta, body })
            } else {
                None
            },
        },
    }
}

/// The contribution that decides key `k` within one root's listing: the
/// listing's last entry contributing under `k`, if any.
pub open spec fn last_key_contribution_in_root(
    root: SkillRootV,
    es: Seq<SkillDirEntryV>,
    include_unavailable: bool,
    env: HostEnvV,
    k: Seq<char>,
) -> Option<CatalogEntryV>
    decreases es.len(),
{
    if es.len() == 0 {
        None
    } else {
        match last_key_contribution_in_root(root, es.drop_first(), include_unavailable, env, k) {
            Some(en) => Some(en),
            None => match entry_contribution(root, es[0], include_unavailable, env) {
                Some(en) => if en.key == k {
                    Some(en)
                } else {
                    None
                },
                None => None,
            },
        }
    }
}

/// The contribution that decides key `k` across the roots from index `i`
/// on: the highest-precedence (latest) root's last contributing entry.
pub open spec fn last_key_contribution(
    roots: Seq<SkillRootV>,
    listings: Seq<Seq<SkillDirEntryV>>,
    i: int,
    include_unavailable: bool,
    env: HostEnvV,
    k: Seq<char>,
) -> Option<CatalogEntryV>
    decreases roots.len() - i,
{
    if i < 0 || i >= roots.len() {
        None
    } else {
        match last_key_contribution(roots, listings, i + 1, include_unavailable, env, k) {
            Some(en) => Some(en),
            None => last_key_contribution_in_root(
                roots[i],
                listings[i],
                include_unavailable,
                env,
                k,
            ),
        }
    }
}

/// Insert-or-replace decides exactly the inserted key and leaves every
/// other key's lookup unchanged.
proof fn lemma_assoc_put_get(m: Seq<CatalogEntryV>, en: CatalogEntryV, k: Seq<char>)
    ensures
        assoc_get(assoc_put(m, en), k) == if k == en.key {
            Some(en)
        } else {
            assoc_get(m, k)
        },
{
    lemma_assoc_index(m, en.key);
    lemma_assoc_index(m, k);
    let i = assoc_index(m, en.key);
    let m2 = assoc_put(m, en);
    lemma_assoc_index(m2, k);
    let idx2 = assoc_index(m2, k);
    if i < 0 {
        assert(m2 == m.push(en));
        if k == en.key {
            assert(m2[m.len() as int].key == k);
            assert(idx2 >= 0);
            if idx2 < m.len() {
                assert(m[idx2] == m2[idx2]);
            }
            assert(idx2 == m.len() as int);
        } else {
            let idx = assoc_index(m, k);
            if idx < 0 {
                if idx2 >= 0 {
                    assert(m2[idx2].key == k);
                    if idx2 < m.len() {
                        assert(m[idx2].key == k);
                    }
                }
            } else {
                assert(m2[idx].key == k);
                assert(idx2 >= 0);
                if idx2 < idx {
                    assert(m[idx2].key != k);
                    assert(m2[idx2] == m[idx2]);
                }
                if idx2 > idx {
                    assert(m2[idx].key != k);
                }
                assert(idx2 == idx);
                assert(m2[idx2] == m[idx]);
            }
        }
    } else {
        assert(m[i].key == en.key);
        assert(m2 == m.update(i, en));
        if k == en.key {
            assert(m2[i].key == k);
            assert(idx2 >= 0);
            if idx2 < i {
                assert(m2[idx2] == m[idx2]);
                assert(m[idx2].key != k);
            }
            if idx2 > i {
                assert(m2[i].key != k);
            }
            assert(idx2 == i);
        } else {
            let idx = assoc_index(m, k);
            if idx < 0 {
                if idx2 >= 0 {
                    assert(m2[idx2].key == k);
                    if idx2 != i {
                        assert(m[idx2].key == k);
                    }
                }
            } else {
                assert(idx != i);
                assert(m2[idx].key == k);
                assert(idx2 >= 0);
                if idx2 < idx {
                    assert(m2[idx2].key == k);
                    if idx2 != i {
                        assert(m[idx2].key == k);
                    }
                }
                if idx2 > idx {
                    assert(m2[idx].key != k);
                }
                assert(idx2 == idx);
                assert(m2[idx2] == m[idx]);
            }
        }
    }
}

proof fn lemma_merge_root_get(
    m: Seq<CatalogEntryV>,
    root: SkillRootV,
    es: Seq<SkillDirEntryV>,
    include_unavailable: bool,
    env: HostEnvV,
    k: Seq<char>,
)
    ensures
        assoc_get(merge_root(m, root, es, include_unavailable, env), k) == match
            last_key_contribution_in_root(root, es, include_unavailable, env, k) {
            Some(en) => Some(en),
            None => assoc_get(m, k),
        },
    decreases es.len(),
{
    if es.len() > 0 {
        let m1 = merge_entry(m, root, es[0], include_unavailable, env);
        lemma_merge_root_get(m1, root, es.drop_first(), include_unavailable, env, k);
        match entry_contribution(root, es[0], include_unavailable, env) {
            None => {
                assert(m1 == m);
            },
            Some(en) => {
                assert(m1 == assoc_put(m, en));
                lemma_assoc_put_get(m, en, k);
            },
        }
    }
}

proof fn lemma_merge_from_get(
    m: Seq<CatalogEntryV>,
    roots: Seq<SkillRootV>,
    listings: Seq<Seq<SkillDirEntryV>>,
    i: int,
    include_unavailable: bool,
    env: HostEnvV,
    k: Seq<char>,
)
    ensures
        assoc_get(merge_from(m, roots, listings, i, include_unavailable, env), k) == match
            last_key_contribution(roots, listings, i, include_unavailable, env, k) {
            Some(en) => Some(en),
            None => assoc_get(m, k),
        },
    decreases roots.len() - i,
{
    if 0 <= i < roots.len() {
        let m1 = merge_root(m, roots[i], listings[i], include_unavailable, env);
        lemma_merge_from_get(m1, roots, listings, i + 1, include_unavailable, env, k);
        lemma_merge_root_get(m, roots[i], listings[i], include_unavailable, env, k);
    }
}

/// The merge map's lookup, characterized once for every key: it answers
/// with the highest-precedence contribution for that key.
pub proof fn lemma_merged_lookup(
    roots: Seq<SkillRootV>,
    listings: Seq<Seq<SkillDirEntryV>>,
    include_unavailable: bool,
    env: HostEnvV,
    k: Seq<char>,
)
    ensures
        assoc_get(spec_merged(roots, listings, include_unavailable, env), k)
            == last_key_contribution(roots, listings, 0, include_unavailable, env, k),
{
    lemma_merge_from_get(
        Seq::<CatalogEntryV>::empty(),
        roots,
        listings,
        0,
        include_unavailable,
        env,
        k,
    );
    lemma_assoc_index(Seq::<CatalogEntryV>::empty(), k);
}

/// A well-formed merge map: every entry is keyed by its own case-folded
/// name, and no key repeats.
pub open spec fn wf_catalog_map(m: Seq<CatalogEntryV>) -> bool {
    (forall|x: int| 0 <= x < m.len() ==> (#[trigger] m[x]).key == lower_seq(m[x].meta.name))
        && (forall|x: int, y: int|
            0 <= x < y < m.len() ==> (#[trigger] m[x]).key != (#[trigger] m[y]).key)
}

proof fn lemma_assoc_put_wf(m: Seq<CatalogEntryV>, en: CatalogEntryV)
    requires
        wf_catalog_map(m),
        en.key == lower_seq(en.meta.name),
    ensures
        wf_catalog_map(assoc_put(m, en)),
{
    lemma_assoc_index(m, en.key);
    let i = assoc_index(m, en.key);
    let m2 = assoc_put(m, en);
    if i < 0 {
        assert forall|x: int, y: int| 0 <= x < y < m2.len() implies (#[trigger] m2[x]).key != (
        #[trigger] m2[y]).key by {
            if y == m.len() {
                assert(m2[x] == m[x]);
                assert(m[x].key != en.key);
            } else {
                assert(m2[x] == m[x]);
                assert(m2[y] == m[y]);
            }
        }
    } else {
        assert forall|x: int, y: int| 0 <= x < y < m2.len() implies (#[trigger] m2[x]).key != (
        #[trigger] m2[y]).key by {
            if x != i {
                assert(m2[x] == m[x]);
            }
            if y != i {
                assert(m2[y] == m[y]);
            }
            if x == i {
                assert(m[i].key == en.key);
            }
            if y == i {
                assert(m[i].key == en.key);
            }
        }
    }
}

proof fn lemma_merge_root_wf(
    m: Seq<CatalogEntryV>,
    root: SkillRootV,
    es: Seq<SkillDirEntryV>,
    include_unavailable: bool,
    env: HostEnvV,
)
    requires
        wf_catalog_map(m),
    ensures
        wf_catalog_map(merge_root(m, root, es, include_unavailable, env)),
    decreases es.len(),
{
    if es.len() > 0 {
        let m1 = merge_entry(m, root, es[0], include_unavailable, env);
        match entry_contribution(root, es[0], include_unavailable, env) {
            None => {
                assert(m1 == m);
            },
            Some(en) => {
                assert(m1 == assoc_put(m, en));
                lemma_assoc_put_wf(m, en);
            },
        }
        lemma_merge_root_wf(m1, root, es.drop_first(), include_unavailable, env);
    }
}

proof fn lemma_merge_from_wf(
    m: Seq<CatalogEntryV>,
    roots: Seq<SkillRootV>,
    listings: Seq<Seq<SkillDirEntryV>>,
    i: int,
    include_unavailable: bool,
    env: HostEnvV,
)
    requires
        wf_catalog_map(m),
    ensures
        wf_catalog_map(merge_from(m, roots, listings, i, include_unavailable, env)),
    decreases roots.len() - i,
{
    if 0 <= i < roots.len() {
        let m1 = merge_root(m, roots[i], listings[i], include_unavailable, env);
        lemma_merge_root_wf(m, roots[i], listings[i], include_unavailable, env);
        lemma_merge_from_wf(m1, roots, listings, i + 1, include_unavailable, env);
    }
}

/// The merge map is always well-formed.
pub proof fn lemma_merged_wf(
    roots: Seq<SkillRootV>,
    listings: Seq<Seq<SkillDirEntryV>>,
    include_unavailable: bool,
    env: HostEnvV,
)
    ensures
        wf_catalog_map(spec_merged(roots, listings, include_unavailable, env)),
{
    lemma_merge_from_wf(
        Seq::<CatalogEntryV>::empty(),
        roots,
        listings,
        0,
        include_unavailable,
        env,
    );
}

/// A deciding contribution carries the key it was looked up under, which
/// is its metadata's case-folded name.
pub proof fn lemma_last_contribution_key(
    roots: Seq<SkillRootV>,
    listings: Seq<Seq<SkillDirEntryV>>,
    i: int,
    include_unavailable: bool,
    env: HostEnvV,
    k: Seq<char>,
)
    ensures
        match last_key_contribution(roots, listings, i, include_unavailable, env, k) {
            Some(en) => en.key == k && en.key == lower_seq(en.meta.name),
            None => true,
        },
    decreases roots.len() - i,
{
    if 0 <= i < roots.len() {
        lemma_last_contribution_key(roots, listings, i + 1, include_unavailable, env, k);
        lemma_last_contribution_in_root_key(
            roots[i],
            listings[i],
            include_unavailable,
            env,
            k,
        );
    }
}

proof fn lemma_last_contribution_in_root_key(
    root: SkillRootV,
    es: Seq<SkillDirEntryV>,
    include_unavailable: bool,
    env: HostEnvV,
    k: Seq<char>,
)
    ensures
        match last_key_contribution_in_root(root, es, include_unavailable, env, k) {
            Some(en) => en.key == k && en.key == lower_seq(en.meta.name),
            None => true,
        },
    decreases es.len(),
{
    if es.len() > 0 {
        lemma_last_contribution_in_root_key(
            root,
            es.drop_first(),
            include_unavailable,
            env,
            k,
        );
    }
}

/// A catalog-mode contribution is also an activation-mode contribution;
/// a gate check only narrows.
proof fn lemma_contribution_mono(
    root: SkillRootV,
    e: SkillDirEntryV,
    env: HostEnvV,
)
    ensures
        match entry_contribution(root, e, false, env) {
            Some(en) => entry_contribution(root, e, true, env) == Some(en) && gates_pass(
                en.meta,
                env,
            ),
            None => true,
        },
{
}

/// Within one root: when the activation-mode merge decides nothing for a
/// key, neither does the catalog-mode merge; when it decides an entry
/// whose gates pass, the catalog-mode merge decides the same entry.
proof fn lemma_last_in_root_mode(
    root: SkillRootV,
    es: Seq<SkillDirEntryV>,
    env: HostEnvV,
    k: Seq<char>,
)
    ensures
        last_key_contribution_in_root(root, es, true, env, k) is None
            ==> last_key_contribution_in_root(root, es, false, env, k) is None,
        match last_key_contribution_in_root(root, es, true, env, k) {
            Some(en) => gates_pass(en.meta, env) ==> last_key_contribution_in_root(
                root,
                es,
                false,
                env,
                k,
            ) == Some(en),
            None => true,
        },
    decreases es.len(),
{
    if es.len() > 0 {
        lemma_last_in_root_mode(root, es.drop_first(), env, k);
        lemma_contribution_mono(root, es[0], env);
    }
}

proof fn lemma_cons_contains_meta(a: SkillMetadataV, t: Seq<SkillMetadataV>, m: SkillMetadataV)
    ensures
        (seq![a] + t).contains(m) <==> (m == a || t.contains(m)),
{
    if (seq![a] + t).contains(m) {
        let i = choose|i: int| 0 <= i < (seq![a] + t).len() && (seq![a] + t)[i] == m;
        if i > 0 {
            assert(t[i - 1] == m);
        }
    }
    if m == a {
        assert((seq![a] + t)[0] == m);
    }
    if t.contains(m) {
        let i = choose|i: int| 0 <= i < t.len() && t[i] == m;
        assert((seq![a] + t)[i + 1] == m);
    }
}

/// Insertion keeps exactly the old elements plus the inserted one.
pub proof fn lemma_insert_meta_contains(
    x: SkillMetadataV,
    s: Seq<SkillMetadataV>,
    m: SkillMetadataV,
)
    ensures
        insert_meta_sorted(x, s).contains(m) <==> (m == x || s.contains(m)),
    decreases s.len(),
{
    if s.len() == 0 {
        if insert_meta_sorted(x, s).contains(m) {
            let i = choose|i: int|
                0 <= i < insert_meta_sorted(x, s).len() && insert_meta_sorted(x, s)[i] == m;
        }
        if m == x {
            assert(insert_meta_sorted(x, s)[0] == m);
        }
    } else if seq_char_lt(s[0].name, x.name) {
        lemma_insert_meta_contains(x, s.drop_first(), m);
        lemma_cons_contains_meta(s[0], insert_meta_sorted(x, s.drop_first()), m);
        assert(s =~= seq![s[0]] + s.drop_first());
        lemma_cons_contains_meta(s[0], s.drop_first(), m);
    } else {
        lemma_cons_contains_meta(x, s, m);
    }
}

/// Sorting keeps exactly the same elements.
pub proof fn lemma_sort_metas_contains(xs: Seq<SkillMetadataV>, m: SkillMetadataV)
    ensures
        sort_metas(xs).contains(m) <==> xs.contains(m),
    decreases xs.len(),
{
    if xs.len() > 0 {
        lemma_sort_metas_contains(xs.drop_first(), m);
        lemma_insert_meta_contains(xs[0], sort_metas(xs.drop_first()), m);
        assert(xs =~= seq![xs[0]] + xs.drop_first());
        lemma_cons_contains_meta(xs[0], xs.drop_first(), m);
    }
}

/// A metadata value sits in the map's projection exactly when some map
/// entry carries it.
pub proof fn lemma_metas_of_map_contains(m: Seq<CatalogEntryV>, x: SkillMetadataV)
    ensures
        m.map_values(|e: CatalogEntryV| e.meta).contains(x) <==> exists|j: int|
            0 <= j < m.len() && (#[trigger] m[j]).meta == x,
{
    let mm = m.map_values(|e: CatalogEntryV| e.meta);
    if mm.contains(x) {
        let i = choose|i: int| 0 <= i < mm.len() && mm[i] == x;
        assert(m[i].meta == x);
    }
    if exists|j: int| 0 <= j < m.len() && (#[trigger] m[j]).meta == x {
        let j = choose|j: int| 0 <= j < m.len() && (#[trigger] m[j]).meta == x;
        assert(mm[j] == x);
    }
}

/// Across all roots: the activation-mode decision, when its gates pass,
/// is also the catalog-mode decision; and a key the activation-mode merge
/// never sees stays absent from the catalog-mode merge.
pub proof fn lemma_last_contribution_mode(
    roots: Seq<SkillRootV>,
    listings: Seq<Seq<SkillDirEntryV>>,
    i: int,
    env: HostEnvV,
    k: Seq<char>,
)
    ensures
        last_key_contribution(roots, listings, i, true, env, k) is None
            ==> last_key_contribution(roots, listings, i, false, env, k) is None,
        match last_key_contribution(roots, listings, i, true, env, k) {
            Some(en) => gates_pass(en.meta, env) ==> last_key_contribution(
                roots,
                listings,
                i,
                false,
                env,
                k,
            ) == Some(en),
            None => true,
        },
    decreases roots.len() - i,
{
    if 0 <= i < roots.len() {
        lemma_last_contribution_mode(roots, listings, i + 1, env, k);
        lemma_last_in_root_mode(roots[i], listings[i], env, k);
    }
}

} // verus!
