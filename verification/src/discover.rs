//! Skill discovery: walking a directory tree (given as an in-memory list of
//! walk entries), collecting every directory that holds a `SKILL.md`
//! manifest, and filtering the result by normalized name filters.
use crate::frontmatter::{
    cat_lines, lemma_cat_lines_snoc, lines_of, lines_seq, yaml_scalar_field, yaml_scalar_of,
};
use crate::source::opt_str_view;
use crate::strutil::{
    chars_eq_str, chars_to_string, last_index_of, lemma_last_index_of, lower_chars, lower_seq,
    rfind_char_index, str_chars, str_eq, subrange_vec, trim_chars, trim_seq,
};
use vstd::prelude::*;
use vstd::seq_lib::*;

verus! {

/// What kind of filesystem object a walk entry is.
#[derive(Clone, Copy, PartialEq, Eq, Structural, Debug)]
pub enum EntryKind {
    Dir,
    File,
    Symlink,
}

/// Spec-level shape of a walk entry.
pub struct FsEntryV {
    pub path: Seq<Seq<char>>,
    pub kind: EntryKind,
    pub content: Seq<char>,
}

/// One entry of a directory walk, in walk order: its path components
/// relative to the walk root (empty for the root itself), its kind, and,
/// for files, their content.
pub struct FsEntry {
    pub path: Vec<String>,
    pub kind: EntryKind,
    pub content: String,
}

pub open spec fn path_view(p: Vec<String>) -> Seq<Seq<char>> {
    p@.map_values(|s: String| s@)
}

impl View for FsEntry {
    type V = FsEntryV;

    open spec fn view(&self) -> FsEntryV {
        FsEntryV { path: path_view(self.path), kind: self.kind, content: self.content@ }
    }
}

/// Spec-level shape of a discovered skill.
pub struct DiscoveredSkillV {
    pub dir: Seq<Seq<char>>,
    pub name: Option<Seq<char>>,
}

/// A directory holding a `SKILL.md`, with the manifest's name field if it
/// parses. `dir` starts with the walk root's own name.
pub struct DiscoveredSkill {
    pub dir: Vec<String>,
    pub name: Option<String>,
}

impl View for DiscoveredSkill {
    type V = DiscoveredSkillV;

    open spec fn view(&self) -> DiscoveredSkillV {
        DiscoveredSkillV { dir: path_view(self.dir), name: opt_str_view(self.name) }
    }
}

pub open spec fn skills_view(v: Seq<DiscoveredSkill>) -> Seq<DiscoveredSkillV> {
    v.map_values(|d: DiscoveredSkill| d@)
}

/// A directory name pruned from descent: version-control metadata,
/// dependency caches, build output, virtual environments.
pub open spec fn is_noise_dir(name: Seq<char>) -> bool {
    name == ".git"@ || name == "node_modules"@ || name == "dist"@ || name == "build"@ || name
        == "__pycache__"@ || name == "target"@ || name == ".venv"@ || name == "venv"@
}

fn is_noise_name(name: &str) -> (r: bool)
    ensures
        r == is_noise_dir(name@),
{
    str_eq(name, ".git") || str_eq(name, "node_modules") || str_eq(name, "dist") || str_eq(
        name,
        "build",
    ) || str_eq(name, "__pycache__") || str_eq(name, "target") || str_eq(name, ".venv") || str_eq(
        name,
        "venv",
    )
}

/// Whether the walk descends into (or yields) an entry of this kind and
/// name: everything but the pruned noise directories.
pub fn should_descend_into_dir(is_dir: bool, name: &str) -> (r: bool)
    ensures
        r == (!is_dir || !is_noise_dir(name@)),
{
    !is_dir || !is_noise_name(name)
}

/// A file entry survives the walk's pruning when neither the root's own
/// name nor any directory on the way to it is a noise name.
pub open spec fn walk_visible(root_name: Seq<char>, path: Seq<Seq<char>>) -> bool {
    !is_noise_dir(root_name) && forall|j: int| 0 <= j < path.len() - 1 ==> !is_noise_dir(path[j])
}

fn walk_visible_exec(root_name: &str, path: &Vec<String>) -> (r: bool)
    ensures
        r == walk_visible(root_name@, path_view(*path)),
{
    if is_noise_name(root_name) {
        return false;
    }
    if path.len() == 0 {
        return true;
    }
    let mut j: usize = 0;
    while j < path.len() - 1
        invariant
            j <= path@.len() - 1,
            path@.len() >= 1,
            !is_noise_dir(root_name@),
            forall|k: int| 0 <= k < j ==> !is_noise_dir(path_view(*path)[k]),
        decreases path@.len() - 1 - j,
    {
        if is_noise_name(path[j].as_str()) {
            proof {
                assert(is_noise_dir(path_view(*path)[j as int]));
            }
            return false;
        }
        j = j + 1;
    }
    true
}

/// The first line index in `[k, ls.len())` whose trimmed text is `---`,
/// or -1: the closing delimiter search of the lightweight frontmatter
/// reader.
pub open spec fn first_trim_dash_index(ls: Seq<Seq<char>>, k: int) -> int
    decreases ls.len() - k,
{
    if k >= ls.len() {
        -1
    } else if trim_seq(ls[k]) == "---"@ {
        k
    } else {
        first_trim_dash_index(ls, k + 1)
    }
}

/// What the lightweight frontmatter reader yields for a manifest: `None`
/// when there is no well-formed, non-empty, parseable frontmatter block;
/// otherwise the `name` field if it is present and a string.
pub open spec fn spec_hub_frontmatter(md: Seq<char>) -> Option<Option<Seq<char>>> {
    let ls = lines_seq(md);
    if ls.len() == 0 {
        None
    } else if trim_seq(ls[0]) != "---"@ {
        None
    } else {
        let k = first_trim_dash_index(ls, 1);
        if k < 0 {
            None
        } else {
            let yaml = cat_lines(ls, 1, k);
            if trim_seq(yaml).len() == 0 {
                None
            } else {
                yaml_scalar_of(yaml, "name"@)
            }
        }
    }
}

/// The frontmatter fields the discoverer reads.
pub struct SkillFrontmatter {
    pub name: Option<String>,
}

/// Reads the YAML frontmatter block of a manifest, yielding its `name`
/// field.
#[verifier::loop_isolation(false)]
pub fn parse_frontmatter(markdown: &str) -> (r: Option<SkillFrontmatter>)
    ensures
        match spec_hub_frontmatter(markdown@) {
            None => r is None,
            Some(n) => match r {
                Some(fm) => opt_str_view(fm.name) == n,
                None => false,
            },
        },
{
    let cs = str_chars(markdown);
    let ls = lines_of(cs.as_slice());
    let ghost gls = lines_seq(cs@);
    if ls.len() == 0 {
        return None;
    }
    proof {
        assert(ls@.map_values(|p: Vec<char>| p@)[0] == gls[0]);
    }
    let first = trim_chars(ls[0].as_slice());
    if !chars_eq_str(first.as_slice(), "---") {
        return None;
    }
    let mut k: usize = 1;
    while k < ls.len()
        invariant
            1 <= k <= gls.len(),
            first_trim_dash_index(gls, 1) == first_trim_dash_index(gls, k as int),
        decreases gls.len() - k,
    {
        proof {
            assert(ls@.map_values(|p: Vec<char>| p@)[k as int] == gls[k as int]);
        }
        let piece = trim_chars(ls[k].as_slice());
        if chars_eq_str(piece.as_slice(), "---") {
            proof {
                assert(first_trim_dash_index(gls, k as int) == k as int);
            }
            let mut yaml: Vec<char> = Vec::new();
            let mut j: usize = 1;
            proof {
                assert(yaml@ =~= cat_lines(gls, 1, 1));
            }
            while j < k
                invariant
                    1 <= j <= k,
                    yaml@ == cat_lines(gls, 1, j as int),
                decreases k - j,
            {
                proof {
                    assert(ls@.map_values(|p: Vec<char>| p@)[j as int] == gls[j as int]);
                }
                let nj = ls[j].len();
                let mut piece_j = subrange_vec(ls[j].as_slice(), 0, nj);
                proof {
                    assert(piece_j@ =~= gls[j as int]);
                }
                let ghost y0 = yaml@;
                yaml.append(&mut piece_j);
                yaml.push('\n');
                proof {
                    lemma_cat_lines_snoc(gls, 1, j as int);
                    assert(yaml@ =~= y0 + gls[j as int] + seq!['\n']);
                }
                j = j + 1;
            }
            let trimmed = trim_chars(yaml.as_slice());
            if trimmed.len() == 0 {
                return None;
            }
            let yaml_str = chars_to_string(yaml.as_slice());
            return match yaml_scalar_field(yaml_str.as_str(), "name") {
                None => None,
                Some(n) => Some(SkillFrontmatter { name: n }),
            };
        }
        k = k + 1;
    }
    None
}

/// The manifest's declared name, trimmed, if the frontmatter parses and
/// holds one.
pub open spec fn spec_read_skill_name(content: Seq<char>) -> Option<Seq<char>> {
    match spec_hub_frontmatter(content) {
        None => None,
        Some(None) => None,
        Some(Some(n)) => Some(trim_seq(n)),
    }
}

/// Reads the declared skill name out of a manifest's content.
pub fn read_skill_name(content: &str) -> (r: Option<String>)
    ensures
        opt_str_view(r) == spec_read_skill_name(content@),
{
    match parse_frontmatter(content) {
        None => None,
        Some(fm) => match fm.name {
            None => None,
            Some(n) => Some(chars_to_string(trim_chars(str_chars(n.as_str()).as_slice()).as_slice())),
        },
    }
}

/// One step of the discovery walk: a visible `SKILL.md` file whose parent
/// directory is new records that directory.
pub open spec fn discover_step(
    root_name: Seq<char>,
    e: FsEntryV,
    acc: Seq<DiscoveredSkillV>,
    seen: Seq<Seq<Seq<char>>>,
) -> (Seq<DiscoveredSkillV>, Seq<Seq<Seq<char>>>) {
    if e.kind == EntryKind::File && e.path.len() > 0 && e.path.last() == "SKILL.md"@
        && walk_visible(root_name, e.path) && !seen.contains(e.path.drop_last()) {
        (
            acc.push(
                DiscoveredSkillV {
                    dir: seq![root_name] + e.path.drop_last(),
                    name: spec_read_skill_name(e.content),
                },
            ),
            seen.push(e.path.drop_last()),
        )
    } else {
        (acc, seen)
    }
}

pub open spec fn discover_fold(
    root_name: Seq<char>,
    entries: Seq<FsEntryV>,
    acc: Seq<DiscoveredSkillV>,
    seen: Seq<Seq<Seq<char>>>,
) -> Seq<DiscoveredSkillV>
    decreases entries.len(),
{
    if entries.len() == 0 {
        acc
    } else {
        let (a2, s2) = discover_step(root_name, entries[0], acc, seen);
        discover_fold(root_name, entries.drop_first(), a2, s2)
    }
}

/// The first walk entry that is the root's own `SKILL.md` file.
pub open spec fn spec_first_root_skill(entries: Seq<FsEntryV>) -> Option<FsEntryV>
    decreases entries.len(),
{
    if entries.len() == 0 {
        None
    } else if entries[0].kind == EntryKind::File && entries[0].path == seq!["SKILL.md"@] {
        Some(entries[0])
    } else {
        spec_first_root_skill(entries.drop_first())
    }
}

/// What discovery yields over a walk: the root directory first if it holds
/// a manifest, then the parent directory of every visible `SKILL.md` in
/// walk order, each directory once (first occurrence kept), each with its
/// parsed name.
pub open spec fn spec_discover(root_name: Seq<char>, entries: Seq<FsEntryV>) -> Seq<
    DiscoveredSkillV,
> {
    match spec_first_root_skill(entries) {
        Some(e) => discover_fold(
            root_name,
            entries,
            seq![
                DiscoveredSkillV {
                    dir: seq![root_name],
                    name: spec_read_skill_name(e.content),
                },
            ],
            seq![Seq::<Seq<char>>::empty()],
        ),
        None => discover_fold(root_name, entries, Seq::empty(), Seq::empty()),
    }
}

pub open spec fn entries_view(v: Seq<FsEntry>) -> Seq<FsEntryV> {
    v.map_values(|e: FsEntry| e@)
}

fn path_eq(a: &Vec<String>, b: &Vec<String>) -> (r: bool)
    ensures
        r == (path_view(*a) == path_view(*b)),
{
    if a.len() != b.len() {
        proof {
            assert(path_view(*a).len() == a@.len());
            assert(path_view(*b).len() == b@.len());
        }
        return false;
    }
    let mut i: usize = 0;
    while i < a.len()
        invariant
            i <= a@.len(),
            a@.len() == b@.len(),
            forall|k: int| 0 <= k < i ==> path_view(*a)[k] == path_view(*b)[k],
        decreases a@.len() - i,
    {
        if !str_eq(a[i].as_str(), b[i].as_str()) {
            proof {
                assert(path_view(*a)[i as int] == a@[i as int]@);
                assert(path_view(*b)[i as int] == b@[i as int]@);
            }
            return false;
        }
        proof {
            assert(path_view(*a)[i as int] == a@[i as int]@);
            assert(path_view(*b)[i as int] == b@[i as int]@);
        }
        i = i + 1;
    }
    proof {
        assert(path_view(*a) =~= path_view(*b));
    }
    true
}

fn seen_contains(seen: &Vec<Vec<String>>, p: &Vec<String>) -> (r: bool)
    ensures
        r == seen@.map_values(|q: Vec<String>| path_view(q)).contains(path_view(*p)),
{
    let ghost gseen = seen@.map_values(|q: Vec<String>| path_view(q));
    let mut i: usize = 0;
    while i < seen.len()
        invariant
            i <= seen@.len(),
            gseen == seen@.map_values(|q: Vec<String>| path_view(q)),
            gseen.len() == seen@.len(),
            forall|k: int| 0 <= k < i ==> gseen[k] != path_view(*p),
        decreases seen@.len() - i,
    {
        if path_eq(&seen[i], p) {
            proof {
                assert(gseen[i as int] == path_view(seen@[i as int]));
            }
            return true;
        }
        proof {
            assert(gseen[i as int] == path_view(seen@[i as int]));
        }
        i = i + 1;
    }
    proof {
        if gseen.contains(path_view(*p)) {
            let k = choose|k: int| 0 <= k < gseen.len() && gseen[k] == path_view(*p);
            assert(gseen[k] != path_view(*p));
        }
    }
    false
}

/// Clones a path vector, keeping its view.
pub fn clone_path(p: &Vec<String>) -> (r: Vec<String>)
    ensures
        path_view(r) == path_view(*p),
{
    let mut r: Vec<String> = Vec::new();
    let mut i: usize = 0;
    while i < p.len()
        invariant
            i <= p@.len(),
            r@.len() == i,
            forall|k: int| 0 <= k < i ==> r@[k]@ == p@[k]@,
        decreases p@.len() - i,
    {
        r.push(String::from_str(p[i].as_str()));
        i = i + 1;
    }
    proof {
        assert(path_view(r) =~= path_view(*p));
    }
    r
}

/// A copy of `p[from..to]`.
fn subrange_path(p: &Vec<String>, from: usize, to: usize) -> (r: Vec<String>)
    requires
        from <= to <= p@.len(),
    ensures
        path_view(r) == path_view(*p).subrange(from as int, to as int),
{
    let mut r: Vec<String> = Vec::new();
    let mut i: usize = from;
    while i < to
        invariant
            from <= i <= to <= p@.len(),
            r@.len() == i - from,
            forall|k: int| 0 <= k < i - from ==> r@[k]@ == p@[from + k]@,
        decreases to - i,
    {
        r.push(String::from_str(p[i].as_str()));
        i = i + 1;
    }
    proof {
        assert(path_view(r) =~= path_view(*p).subrange(from as int, to as int));
    }
    r
}

/// Walks the given entries and collects every directory holding a
/// `SKILL.md` manifest, the root itself first when it holds one.
#[verifier::loop_isolation(false)]
pub fn discover_skills(root_name: &str, entries: &Vec<FsEntry>) -> (r: Vec<DiscoveredSkill>)
    ensures
        skills_view(r@) == spec_discover(root_name@, entries_view(entries@)),
{
    let ghost ge = entries_view(entries@);
    let mut acc: Vec<DiscoveredSkill> = Vec::new();
    let mut seen: Vec<Vec<String>> = Vec::new();

    // The explicit check of the root directory itself.
    let mut ri: usize = 0;
    let mut root_entry: Option<&FsEntry> = None;
    proof {
        assert(ge.skip(0) =~= ge);
    }
    while ri < entries.len()
        invariant
            ri <= ge.len(),
            ge.len() == entries@.len(),
            root_entry is None ==> spec_first_root_skill(ge) == spec_first_root_skill(
                ge.skip(ri as int),
            ),
            match root_entry {
                Some(e) => spec_first_root_skill(ge) == Some(e@),
                None => true,
            },
        decreases ge.len() - ri,
    {
        if root_entry.is_none() {
            let e = &entries[ri];
            proof {
                assert(ge.skip(ri as int)[0] == ge[ri as int]);
                assert(ge.skip(ri as int).drop_first() =~= ge.skip(ri + 1));
                assert(ge[ri as int] == entries@[ri as int]@);
            }
            let is_root_skill = matches!(e.kind, EntryKind::File) && e.path.len() == 1 && str_eq(
                e.path[0].as_str(),
                "SKILL.md",
            );
            proof {
                assert(path_view(e.path).len() == e.path@.len());
                if e.path@.len() == 1 {
                    assert(path_view(e.path)[0] == e.path@[0]@);
                    if e.path@[0]@ == "SKILL.md"@ {
                        assert(path_view(e.path) =~= seq!["SKILL.md"@]);
                    } else {
                        assert(path_view(e.path) != seq!["SKILL.md"@]);
                    }
                } else {
                    assert(path_view(e.path) != seq!["SKILL.md"@]) by {
                        if path_view(e.path) == seq!["SKILL.md"@] {
                            assert(path_view(e.path).len() == 1);
                        }
                    }
                }
            }
            if is_root_skill {
                root_entry = Some(e);
            }
        }
        ri = ri + 1;
    }
    match root_entry {
        Some(e) => {
            acc.push(DiscoveredSkill { dir: vec![String::from_str(root_name)], name: read_skill_name(e.content.as_str()) });
            let empty_path: Vec<String> = Vec::new();
            seen.push(empty_path);
            proof {
                assert(path_view(acc@[0].dir) =~= seq![root_name@]);
                assert(skills_view(acc@) =~= seq![
                    DiscoveredSkillV {
                        dir: seq![root_name@],
                        name: spec_read_skill_name(e.content@),
                    },
                ]);
                assert(path_view(seen@[0]) =~= Seq::<Seq<char>>::empty());
                assert(seen@.map_values(|q: Vec<String>| path_view(q)) =~= seq![
                    Seq::<Seq<char>>::empty(),
                ]);
            }
        },
        None => {
            proof {
                assert(skills_view(acc@) =~= Seq::<DiscoveredSkillV>::empty());
                assert(seen@.map_values(|q: Vec<String>| path_view(q)) =~= Seq::<
                    Seq<Seq<char>>,
                >::empty());
            }
        },
    }
    let ghost acc0 = skills_view(acc@);
    let ghost seen0 = seen@.map_values(|q: Vec<String>| path_view(q));
    proof {
        if root_entry is None {
            assert(ge.skip(ge.len() as int) =~= Seq::<FsEntryV>::empty());
        }
        assert(spec_discover(root_name@, ge) == discover_fold(root_name@, ge, acc0, seen0));
        assert(ge.skip(0) =~= ge);
    }

    // The walk itself.
    let mut i: usize = 0;
    while i < entries.len()
        invariant
            i <= ge.len(),
            discover_fold(
                root_name@,
                ge.skip(i as int),
                skills_view(acc@),
                seen@.map_values(|q: Vec<String>| path_view(q)),
            ) == spec_discover(root_name@, ge),
        decreases ge.len() - i,
    {
        let ghost gacc = skills_view(acc@);
        let ghost gseen = seen@.map_values(|q: Vec<String>| path_view(q));
        proof {
            assert(ge.skip(i as int)[0] == ge[i as int]);
            assert(ge.skip(i as int).drop_first() =~= ge.skip(i + 1));
            assert(ge[i as int] == entries@[i as int]@);
        }
        let e = &entries[i];
        let n = e.path.len();
        let is_skill_file = matches!(e.kind, EntryKind::File) && n > 0 && str_eq(
            e.path[n - 1].as_str(),
            "SKILL.md",
        );
        proof {
            if n > 0 {
                assert(path_view(e.path)[n - 1] == e.path@[n - 1]@);
                assert(path_view(e.path).last() == path_view(e.path)[n - 1]);
            }
        }
        if is_skill_file && walk_visible_exec(root_name, &e.path) {
            let parent = subrange_path(&e.path, 0, n - 1);
            proof {
                assert(path_view(parent) == path_view(e.path).drop_last()) by {
                    assert(path_view(e.path).drop_last() =~= path_view(e.path).subrange(
                        0,
                        n - 1,
                    ));
                }
            }
            if !seen_contains(&seen, &parent) {
                let mut dir: Vec<String> = Vec::new();
                dir.push(String::from_str(root_name));
                let mut parent_copy = clone_path(&parent);
                let ghost pv = path_view(parent_copy);
                dir.append(&mut parent_copy);
                proof {
                    assert(path_view(dir) =~= seq![root_name@] + e@.path.drop_last()) by {
                        assert(path_view(dir).len() == 1 + pv.len());
                        assert(path_view(dir)[0] == root_name@);
                        assert(forall|k: int| 0 <= k < pv.len() ==> path_view(dir)[1 + k] == pv[k]);
                    }
                }
                acc.push(
                    DiscoveredSkill { dir, name: read_skill_name(e.content.as_str()) },
                );
                seen.push(parent);
                proof {
                    assert(skills_view(acc@) =~= gacc.push(
                        DiscoveredSkillV {
                            dir: seq![root_name@] + e@.path.drop_last(),
                            name: spec_read_skill_name(e@.content),
                        },
                    ));
                    assert(seen@.map_values(|q: Vec<String>| path_view(q)) =~= gseen.push(
                        e@.path.drop_last(),
                    ));
                }
            }
        }
        i = i + 1;
    }
    proof {
        assert(ge.skip(ge.len() as int) =~= Seq::<FsEntryV>::empty());
    }
    acc
}

/// One filter entry, normalized: trimmed, the text after the last `@`
/// kept, trimmed again and lowercased; an entry blank after trimming, or
/// blank once its `owner/repo@` prefix is stripped, vanishes.
pub open spec fn spec_normalize_filter(raw: Seq<char>) -> Option<Seq<char>> {
    let t = trim_seq(raw);
    if t.len() == 0 {
        None
    } else {
        let at = last_index_of(t, '@');
        let extracted = if at >= 0 {
            t.skip(at + 1)
        } else {
            t
        };
        let normalized = lower_seq(trim_seq(extracted));
        if normalized.len() == 0 {
            None
        } else {
            Some(normalized)
        }
    }
}

/// The normalized filter list, in order, blank entries dropped.
pub open spec fn spec_normalize_filters(fs: Seq<Seq<char>>) -> Seq<Seq<char>>
    decreases fs.len(),
{
    if fs.len() == 0 {
        Seq::empty()
    } else {
        let rest = spec_normalize_filters(fs.drop_last());
        match spec_normalize_filter(fs.last()) {
            Some(x) => rest.push(x),
            None => rest,
        }
    }
}

pub open spec fn strings_view(v: Seq<String>) -> Seq<Seq<char>> {
    v.map_values(|s: String| s@)
}

/// Normalizes a filter list: strips an `owner/repo@`-style prefix, trims,
/// lowercases, and drops entries left blank by trimming or by the prefix
/// strip.
#[verifier::loop_isolation(false)]
pub fn normalize_filters(filters: &Vec<String>) -> (r: Vec<String>)
    ensures
        strings_view(r@) == spec_normalize_filters(strings_view(filters@)),
{
    let ghost gf = strings_view(filters@);
    let mut r: Vec<String> = Vec::new();
    let mut i: usize = 0;
    proof {
        assert(gf.take(0) =~= Seq::<Seq<char>>::empty());
        assert(strings_view(r@) =~= spec_normalize_filters(gf.take(0)));
    }
    while i < filters.len()
        invariant
            i <= gf.len(),
            strings_view(r@) == spec_normalize_filters(gf.take(i as int)),
        decreases gf.len() - i,
    {
        proof {
            assert(gf.take(i + 1).drop_last() =~= gf.take(i as int));
            assert(gf.take(i + 1).last() == gf[i as int]);
            assert(gf[i as int] == filters@[i as int]@);
        }
        let t = trim_chars(str_chars(filters[i].as_str()).as_slice());
        if t.len() > 0 {
            let at_opt = rfind_char_index(t.as_slice(), '@');
            proof {
                lemma_last_index_of(t@, '@');
            }
            let extracted: Vec<char> = match at_opt {
                Some(a) => subrange_vec(t.as_slice(), a + 1, t.len()),
                None => subrange_vec(t.as_slice(), 0, t.len()),
            };
            proof {
                let at = last_index_of(t@, '@');
                if at >= 0 {
                    assert(extracted@ =~= t@.skip(at + 1));
                } else {
                    assert(extracted@ =~= t@);
                }
            }
            let norm = lower_chars(trim_chars(extracted.as_slice()).as_slice());
            if norm.len() > 0 {
                r.push(chars_to_string(norm.as_slice()));
                proof {
                    assert(strings_view(r@) =~= spec_normalize_filters(gf.take(i as int)).push(
                        spec_normalize_filter(gf[i as int]).unwrap(),
                    ));
                }
            }
        }
        i = i + 1;
    }
    proof {
        assert(gf.take(gf.len() as int) =~= gf);
    }
    r
}

/// The name by which a discovered skill is matched against a filter: its
/// directory's base name, or its declared name.
pub open spec fn dir_base(sk: DiscoveredSkillV) -> Seq<char> {
    if sk.dir.len() > 0 {
        sk.dir.last()
    } else {
        Seq::empty()
    }
}

pub open spec fn name_or_empty(sk: DiscoveredSkillV) -> Seq<char> {
    match sk.name {
        Some(n) => n,
        None => Seq::empty(),
    }
}

/// A skill survives filtering when some normalized filter equals its
/// lowercased directory base name or its lowercased trimmed declared name.
pub open spec fn skill_matches_filters(sk: DiscoveredSkillV, nf: Seq<Seq<char>>) -> bool {
    exists|i: int|
        0 <= i < nf.len() && (nf[i] == lower_seq(dir_base(sk)) || nf[i] == lower_seq(
            trim_seq(name_or_empty(sk)),
        ))
}

/// What filtering yields: everything when the normalized filter list is
/// empty or holds `*`, else the skills some filter matches, in order.
pub open spec fn spec_filter_skills(
    skills: Seq<DiscoveredSkillV>,
    filters: Seq<Seq<char>>,
) -> Seq<DiscoveredSkillV> {
    let nf = spec_normalize_filters(filters);
    if nf.len() == 0 || nf.contains(seq!['*']) {
        skills
    } else {
        skills.filter(|sk: DiscoveredSkillV| skill_matches_filters(sk, nf))
    }
}

fn matches_any_filter(sk: &DiscoveredSkill, nf: &Vec<String>) -> (r: bool)
    ensures
        r == skill_matches_filters(sk@, strings_view(nf@)),
{
    let ghost gnf = strings_view(nf@);
    let base: Vec<char> = if sk.dir.len() > 0 {
        str_chars(sk.dir[sk.dir.len() - 1].as_str())
    } else {
        Vec::new()
    };
    proof {
        if sk.dir@.len() > 0 {
            assert(path_view(sk.dir)[sk.dir@.len() - 1] == sk.dir@[sk.dir@.len() - 1]@);
            assert(base@ == dir_base(sk@));
        } else {
            assert(base@ =~= dir_base(sk@));
        }
    }
    let lower_base = lower_chars(base.as_slice());
    let name_chars: Vec<char> = match &sk.name {
        Some(n) => str_chars(n.as_str()),
        None => Vec::new(),
    };
    proof {
        assert(name_chars@ =~= name_or_empty(sk@));
    }
    let lower_name = lower_chars(trim_chars(name_chars.as_slice()).as_slice());
    let mut i: usize = 0;
    while i < nf.len()
        invariant
            i <= gnf.len(),
            gnf == strings_view(nf@),
            gnf.len() == nf@.len(),
            lower_base@ == lower_seq(dir_base(sk@)),
            lower_name@ == lower_seq(trim_seq(name_or_empty(sk@))),
            forall|k: int|
                0 <= k < i ==> gnf[k] != lower_seq(dir_base(sk@)) && gnf[k] != lower_seq(
                    trim_seq(name_or_empty(sk@)),
                ),
        decreases gnf.len() - i,
    {
        proof {
            assert(gnf[i as int] == nf@[i as int]@);
        }
        if crate::strutil::chars_eq_str(lower_base.as_slice(), nf[i].as_str()) || crate::strutil::chars_eq_str(
            lower_name.as_slice(),
            nf[i].as_str(),
        ) {
            return true;
        }
        i = i + 1;
    }
    proof {
        if skill_matches_filters(sk@, gnf) {
            let k = choose|k: int|
                0 <= k < gnf.len() && (gnf[k] == lower_seq(dir_base(sk@)) || gnf[k] == lower_seq(
                    trim_seq(name_or_empty(sk@)),
                ));
            assert(gnf[k] != lower_seq(dir_base(sk@)));
        }
    }
    false
}

/// Applies name filters to discovered skills: an empty or `*`-bearing
/// filter list keeps everything; otherwise a skill stays when a normalized
/// filter equals its directory base name or its declared name, lowercased.
#[verifier::loop_isolation(false)]
pub fn filter_discovered_skills(skills: Vec<DiscoveredSkill>, filters: &Vec<String>) -> (r: Vec<
    DiscoveredSkill,
>)
    ensures
        skills_view(r@) == spec_filter_skills(skills_view(skills@), strings_view(filters@)),
{
    let nf = normalize_filters(filters);
    let ghost gnf = strings_view(nf@);
    let mut keep_all = nf.len() == 0;
    let mut i: usize = 0;
    while i < nf.len()
        invariant
            i <= gnf.len(),
            gnf == strings_view(nf@),
            gnf.len() == nf@.len(),
            keep_all == (gnf.len() == 0 || exists|k: int| 0 <= k < i && gnf[k] == seq!['*']),
        decreases gnf.len() - i,
    {
        proof {
            assert(gnf[i as int] == nf@[i as int]@);
            reveal_strlit("*");
            assert("*"@ =~= seq!['*']);
        }
        if str_eq(nf[i].as_str(), "*") {
            keep_all = true;
            proof {
                assert(gnf[i as int] == seq!['*']);
            }
        }
        i = i + 1;
    }
    proof {
        if gnf.contains(seq!['*']) {
            let k = choose|k: int| 0 <= k < gnf.len() && gnf[k] == seq!['*'];
            assert(keep_all);
        }
        if keep_all && gnf.len() > 0 && !gnf.contains(seq!['*']) {
            let k = choose|k: int| 0 <= k < gnf.len() && gnf[k] == seq!['*'];
        }
    }
    if keep_all {
        return skills;
    }
    let ghost gsk = skills_view(skills@);
    let mut r: Vec<DiscoveredSkill> = Vec::new();
    let mut j: usize = 0;
    let mut skills = skills;
    proof {
        assert(gsk.take(0) =~= Seq::<DiscoveredSkillV>::empty());
        reveal_with_fuel(Seq::<_>::filter, 1);
        assert(skills_view(r@) =~= gsk.take(0).filter(
            |sk: DiscoveredSkillV| skill_matches_filters(sk, gnf),
        ));
    }
    while j < skills.len()
        invariant
            j <= gsk.len(),
            gsk == skills_view(skills@),
            gsk.len() == skills@.len(),
            gnf == strings_view(nf@),
            skills_view(r@) == gsk.take(j as int).filter(
                |sk: DiscoveredSkillV| skill_matches_filters(sk, gnf),
            ),
        decreases gsk.len() - j,
    {
        proof {
            reveal_with_fuel(Seq::<_>::filter, 1);
            assert(gsk.take(j + 1).drop_last() =~= gsk.take(j as int));
            assert(gsk.take(j + 1).last() == gsk[j as int]);
            assert(gsk[j as int] == skills@[j as int]@);
        }
        if matches_any_filter(&skills[j], &nf) {
            let sk = DiscoveredSkill {
                dir: clone_path(&skills[j].dir),
                name: match &skills[j].name {
                    Some(n) => Some(String::from_str(n.as_str())),
                    None => None,
                },
            };
            proof {
                assert(sk@ == skills@[j as int]@);
            }
            r.push(sk);
            proof {
                assert(skills_view(r@) =~= skills_view(r@).drop_last().push(gsk[j as int]));
            }
        }
        j = j + 1;
    }
    proof {
        assert(gsk.take(gsk.len() as int) =~= gsk);
    }
    r
}

} // verus!
