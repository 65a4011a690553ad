//! Install mechanics: collision-safe install names, path-traversal guards,
//! and the small decisions of the extraction pipeline.
use crate::discover::{skills_view, DiscoveredSkill, DiscoveredSkillV};
use crate::errors::{SkillError, SkillErrorV};
use crate::sanitize::{sanitize_name, spec_sanitize};
use crate::strutil::{
    chars_eq_str, chars_to_string, dec_seq, seq_contains_char, lemma_dec_seq_injective, lemma_dec_seq_len, split_char, split_seq,
    str_chars, str_eq, u64_to_dec,
};
use vstd::prelude::*;
use vstd::seq_lib::*;

verus! {

/// The `i`-th collision candidate for a base name: `base-i`.
pub open spec fn candidate_name(base: Seq<char>, i: nat) -> Seq<char> {
    base + seq!['-'] + dec_seq(i)
}

pub proof fn lemma_candidate_injective(base: Seq<char>, i: nat, j: nat)
    requires
        candidate_name(base, i) == candidate_name(base, j),
    ensures
        i == j,
{
    lemma_dec_seq_len(i);
    lemma_dec_seq_len(j);
    let a = candidate_name(base, i);
    let b = candidate_name(base, j);
    assert(a.len() == base.len() + 1 + dec_seq(i).len());
    assert(b.len() == base.len() + 1 + dec_seq(j).len());
    assert(dec_seq(i) =~= a.subrange(base.len() as int + 1, a.len() as int));
    assert(dec_seq(j) =~= b.subrange(base.len() as int + 1, b.len() as int));
    lemma_dec_seq_injective(i, j);
}

/// At most `u.len()` distinct candidate names can all occur in `u`.
proof fn lemma_candidates_bound(u: Seq<Seq<char>>, base: Seq<char>, lo: int, hi: int)
    requires
        0 <= lo <= hi,
        forall|j: int| lo <= j < hi ==> u.contains(#[trigger] candidate_name(base, j as nat)),
    ensures
        hi - lo <= u.len(),
    decreases hi - lo,
{
    if lo < hi {
        assert(u.contains(candidate_name(base, (hi - 1) as nat)));
        let k = choose|k: int| 0 <= k < u.len() && u[k] == candidate_name(base, (hi - 1) as nat);
        let u2 = u.remove(k);
        assert forall|j: int| lo <= j < hi - 1 implies u2.contains(
            #[trigger] candidate_name(base, j as nat),
        ) by {
            assert(u.contains(candidate_name(base, j as nat)));
            let kj = choose|kj: int|
                0 <= kj < u.len() && u[kj] == candidate_name(base, j as nat);
            if kj == k {
                lemma_candidate_injective(base, j as nat, (hi - 1) as nat);
                assert(false);
            } else if kj < k {
                assert(u2[kj] == u[kj]);
            } else {
                assert(u2[kj - 1] == u[kj]);
            }
        }
        lemma_candidates_bound(u2, base, lo, hi - 1);
    }
}

/// The first collision index at or after `i` whose candidate name is not
/// yet used, searched with bounded fuel.
pub open spec fn first_free_from(
    base: Seq<char>,
    used: Seq<Seq<char>>,
    i: nat,
    fuel: nat,
) -> nat
    decreases fuel,
{
    if fuel == 0 {
        i
    } else if !used.contains(candidate_name(base, i)) {
        i
    } else {
        first_free_from(base, used, i + 1, (fuel - 1) as nat)
    }
}

/// When everything in `[lo, i)` is used and `i` is free, `i` is the first
/// free index.
proof fn lemma_first_free_is(base: Seq<char>, used: Seq<Seq<char>>, lo: nat, fuel: nat, i: nat)
    requires
        lo <= i < lo + fuel,
        forall|j: int| lo <= j < i ==> used.contains(#[trigger] candidate_name(base, j as nat)),
        !used.contains(candidate_name(base, i)),
    ensures
        first_free_from(base, used, lo, fuel) == i,
    decreases fuel,
{
    if lo < i {
        let lo_i: int = lo as int;
        assert(used.contains(candidate_name(base, lo_i as nat)));
        lemma_first_free_is(base, used, lo + 1, (fuel - 1) as nat, i);
    }
}

/// The name picked for `base` against the used set: `base` itself when it
/// is new, else `base-i` for the smallest collision index `i >= 2` whose
/// candidate is unused.
pub open spec fn spec_pick_unique(base: Seq<char>, used: Seq<Seq<char>>) -> Seq<char> {
    if !used.contains(base) {
        base
    } else {
        candidate_name(base, first_free_from(base, used, 2, used.len() + 1))
    }
}

pub open spec fn used_view(v: Seq<String>) -> Seq<Seq<char>> {
    v.map_values(|s: String| s@)
}

pub fn strings_contain(v: &Vec<String>, x: &str) -> (r: bool)
    ensures
        r == used_view(v@).contains(x@),
{
    let ghost gv = used_view(v@);
    let mut i: usize = 0;
    while i < v.len()
        invariant
            i <= gv.len(),
            gv == used_view(v@),
            gv.len() == v@.len(),
            forall|k: int| 0 <= k < i ==> gv[k] != x@,
        decreases gv.len() - i,
    {
        proof {
            assert(gv[i as int] == v@[i as int]@);
        }
        if str_eq(v[i].as_str(), x) {
            return true;
        }
        i = i + 1;
    }
    proof {
        if gv.contains(x@) {
            let k = choose|k: int| 0 <= k < gv.len() && gv[k] == x@;
            assert(gv[k] != x@);
        }
    }
    false
}

/// Picks the first name of the form `base`, `base-2`, `base-3`, ... that
/// is not yet used, and records it as used.
#[verifier::loop_isolation(false)]
pub fn pick_unique_install_name(base: &str, used_names: &mut Vec<String>) -> (r: String)
    requires
        old(used_names)@.len() + 3 < usize::MAX,
    ensures
        r@ == spec_pick_unique(base@, used_view(old(used_names)@)),
        used_view(final(used_names)@) == used_view(old(used_names)@).push(r@),
        !used_view(old(used_names)@).contains(r@),
{
    let ghost used0 = used_view(used_names@);
    if !strings_contain(used_names, base) {
        let owned = String::from_str(base);
        used_names.push(String::from_str(base));
        proof {
            assert(used_view(used_names@) =~= used0.push(base@));
        }
        return owned;
    }
    let n = used_names.len();
    let mut i: usize = 2;
    while i <= n + 2
        invariant
            2 <= i <= n + 3,
            n == used_names@.len(),
            used0 == used_view(used_names@),
            used0.contains(base@),
            forall|j: int| 2 <= j < i ==> used0.contains(#[trigger] candidate_name(base@, j as nat)),
        decreases n + 3 - i,
    {
        let mut cand_chars = str_chars(base);
        cand_chars.push('-');
        let mut digits = str_chars(u64_to_dec(i as u64).as_str());
        cand_chars.append(&mut digits);
        proof {
            assert(cand_chars@ =~= candidate_name(base@, i as nat));
        }
        let cand = chars_to_string(cand_chars.as_slice());
        if !strings_contain(used_names, cand.as_str()) {
            proof {
                lemma_first_free_is(base@, used0, 2, (n + 1) as nat, i as nat);
            }
            used_names.push(String::from_str(cand.as_str()));
            proof {
                assert(used_view(used_names@) =~= used0.push(cand@));
            }
            return cand;
        }
        i = i + 1;
    }
    // Unreachable: there are more candidate names than used names.
    proof {
        lemma_candidates_bound(used0, base@, 2, n as int + 3);
        assert(false);
    }
    String::new()
}

/// The picked name is never one already used.
pub proof fn lemma_pick_unique_fresh(base: Seq<char>, used: Seq<Seq<char>>)
    ensures
        !used.contains(spec_pick_unique(base, used)),
{
    if used.contains(base) {
        if forall|j: int|
            2 <= j < used.len() + 3 ==> used.contains(#[trigger] candidate_name(base, j as nat)) {
            lemma_candidates_bound(used, base, 2, used.len() as int + 3);
            assert(false);
        }
        let j = choose|j: int|
            2 <= j < used.len() + 3 && !used.contains(#[trigger] candidate_name(base, j as nat));
        lemma_first_free_finds(base, used, 2, used.len() + 1);
    }
}

proof fn lemma_first_free_finds(base: Seq<char>, used: Seq<Seq<char>>, i: nat, fuel: nat)
    requires
        exists|j: int|
            i <= j < i + fuel && !used.contains(#[trigger] candidate_name(base, j as nat)),
    ensures
        !used.contains(candidate_name(base, first_free_from(base, used, i, fuel))),
    decreases fuel,
{
    let j = choose|j: int|
        i <= j < i + fuel && !used.contains(#[trigger] candidate_name(base, j as nat));
    if fuel > 0 && used.contains(candidate_name(base, i)) {
        assert(j != i);
        assert(i + 1 <= j < (i + 1) + (fuel - 1));
        lemma_first_free_finds(base, used, i + 1, (fuel - 1) as nat);
    }
}

/// The directory-derived fallback install name of a discovered skill.
pub open spec fn spec_dir_fallback_name(sk: DiscoveredSkillV) -> Seq<char> {
    spec_sanitize(
        if sk.dir.len() > 0 {
            sk.dir.last()
        } else {
            "skill"@
        },
    )
}

/// The base install name of a discovered skill: its sanitized declared
/// name when one is present and non-empty, else its sanitized directory
/// base name.
pub open spec fn spec_base_name(sk: DiscoveredSkillV) -> Seq<char> {
    match sk.name {
        Some(n) => if n.len() == 0 {
            spec_dir_fallback_name(sk)
        } else {
            spec_sanitize(n)
        },
        None => spec_dir_fallback_name(sk),
    }
}

/// The install names of a batch, in order: each base name disambiguated
/// against everything named before it.
pub open spec fn spec_assign_names(
    skills: Seq<DiscoveredSkillV>,
    used: Seq<Seq<char>>,
) -> Seq<Seq<char>>
    decreases skills.len(),
{
    if skills.len() == 0 {
        Seq::empty()
    } else {
        let nm = spec_pick_unique(spec_base_name(skills[0]), used);
        seq![nm] + spec_assign_names(skills.drop_first(), used.push(nm))
    }
}

fn dir_fallback_name_of(sk: &DiscoveredSkill) -> (r: String)
    ensures
        r@ == spec_dir_fallback_name(sk@),
{
    if sk.dir.len() > 0 {
        let b = sanitize_name(sk.dir[sk.dir.len() - 1].as_str());
        proof {
            assert(crate::discover::path_view(sk.dir).last() == sk.dir@[sk.dir@.len() - 1]@);
        }
        b
    } else {
        sanitize_name("skill")
    }
}

fn base_name_of(sk: &DiscoveredSkill) -> (r: String)
    ensures
        r@ == spec_base_name(sk@),
{
    match &sk.name {
        Some(n) => {
            if n.as_str().unicode_len() == 0 {
                dir_fallback_name_of(sk)
            } else {
                sanitize_name(n.as_str())
            }
        },
        None => dir_fallback_name_of(sk),
    }
}

/// Assigns a collision-free install name to every skill of a batch, in
/// order, extending the used-name list.
#[verifier::loop_isolation(false)]
pub fn assign_install_names(skills: &Vec<DiscoveredSkill>, used_names: &mut Vec<String>) -> (r:
    Vec<String>)
    requires
        old(used_names)@.len() + skills@.len() + 3 < usize::MAX,
    ensures
        used_view(r@) == spec_assign_names(skills_view(skills@), used_view(old(used_names)@)),
        used_view(final(used_names)@) == used_view(old(used_names)@) + used_view(r@),
{
    let ghost gsk = skills_view(skills@);
    let ghost used0 = used_view(used_names@);
    let mut r: Vec<String> = Vec::new();
    let mut i: usize = 0;
    proof {
        assert(gsk.skip(0) =~= gsk);
        assert(used0 + used_view(r@) =~= used0);
    }
    while i < skills.len()
        invariant
            i <= gsk.len(),
            gsk.len() == skills@.len(),
            used_names@.len() == used0.len() + i,
            used_view(r@).len() == i as int,
            spec_assign_names(gsk, used0) == used_view(r@) + spec_assign_names(
                gsk.skip(i as int),
                used_view(used_names@),
            ),
            used_view(used_names@) == used0 + used_view(r@),
        decreases gsk.len() - i,
    {
        proof {
            assert(gsk.skip(i as int)[0] == gsk[i as int]);
            assert(gsk.skip(i as int).drop_first() =~= gsk.skip(i + 1));
            assert(gsk[i as int] == skills@[i as int]@);
        }
        let base = base_name_of(&skills[i]);
        let ghost used_before = used_view(used_names@);
        let nm = pick_unique_install_name(base.as_str(), used_names);
        r.push(String::from_str(nm.as_str()));
        proof {
            assert(used_view(r@).drop_last() =~= used_view(r@).subrange(
                0,
                used_view(r@).len() - 1,
            ));
            assert(used_view(r@) =~= used_view(r@).drop_last().push(nm@));
            assert(used_view(r@).drop_last() + (seq![nm@] + spec_assign_names(
                gsk.skip(i + 1),
                used_before.push(nm@),
            )) =~= used_view(r@) + spec_assign_names(gsk.skip(i + 1), used_before.push(nm@)));
            assert(used_view(used_names@) =~= used0 + used_view(r@));
        }
        i = i + 1;
    }
    proof {
        assert(gsk.skip(gsk.len() as int) =~= Seq::<DiscoveredSkillV>::empty());
        assert(used_view(r@) + Seq::<Seq<char>>::empty() =~= used_view(r@));
    }
    r
}

/// Every name assigned in a batch is distinct, and none repeats a name
/// already used.
pub proof fn lemma_assign_names_unique(skills: Seq<DiscoveredSkillV>, used: Seq<Seq<char>>)
    ensures
        forall|k: int|
            0 <= k < spec_assign_names(skills, used).len() ==> !used.contains(
                #[trigger] spec_assign_names(skills, used)[k],
            ),
        forall|i: int, j: int|
            0 <= i < j < spec_assign_names(skills, used).len() ==> spec_assign_names(
                skills,
                used,
            )[i] != spec_assign_names(skills, used)[j],
    decreases skills.len(),
{
    if skills.len() > 0 {
        let nm = spec_pick_unique(spec_base_name(skills[0]), used);
        lemma_pick_unique_fresh(spec_base_name(skills[0]), used);
        lemma_assign_names_unique(skills.drop_first(), used.push(nm));
        let rest = spec_assign_names(skills.drop_first(), used.push(nm));
        let all = spec_assign_names(skills, used);
        assert(all == seq![nm] + rest);
        assert forall|k: int| 0 <= k < all.len() implies !used.contains(#[trigger] all[k]) by {
            if k == 0 {
                assert(all[0] == nm);
            } else {
                assert(all[k] == rest[k - 1]);
                assert(!used.push(nm).contains(rest[k - 1]));
                if used.contains(rest[k - 1]) {
                    let w = choose|w: int| 0 <= w < used.len() && used[w] == rest[k - 1];
                    assert(used.push(nm)[w] == rest[k - 1]);
                }
            }
        }
        assert forall|i: int, j: int| 0 <= i < j < all.len() implies all[i] != all[j] by {
            if i == 0 {
                assert(all[0] == nm);
                assert(all[j] == rest[j - 1]);
                assert(!used.push(nm).contains(rest[j - 1]));
                if nm == rest[j - 1] {
                    assert(used.push(nm)[used.len() as int] == nm);
                }
            } else {
                assert(all[i] == rest[i - 1]);
                assert(all[j] == rest[j - 1]);
            }
        }
    }
}

/// A relative path is safe to copy under a target when it is not absolute
/// (in the POSIX reading) and no segment is a parent-directory step.
pub open spec fn spec_safe_relative_path(s: Seq<char>) -> bool {
    !(s.len() > 0 && s[0] == '/') && forall|i: int|
        0 <= i < split_seq(s, '/').len() ==> split_seq(s, '/')[i] != ".."@
}

/// The path-traversal guard of the copy pass.
#[verifier::loop_isolation(false)]
pub fn is_safe_relative_path(path: &str) -> (r: bool)
    ensures
        r == spec_safe_relative_path(path@),
{
    let cs = str_chars(path);
    if cs.len() > 0 && cs[0] == '/' {
        return false;
    }
    let pieces = split_char(cs.as_slice(), '/');
    let ghost gp = split_seq(path@, '/');
    let mut i: usize = 0;
    while i < pieces.len()
        invariant
            i <= gp.len(),
            gp == pieces@.map_values(|p: Vec<char>| p@),
            gp.len() == pieces@.len(),
            forall|k: int| 0 <= k < i ==> gp[k] != ".."@,
        decreases gp.len() - i,
    {
        proof {
            assert(gp[i as int] == pieces@[i as int]@);
        }
        if chars_eq_str(pieces[i].as_slice(), "..") {
            return false;
        }
        i = i + 1;
    }
    true
}

/// One step of the zip entry path guard over a path component.
pub open spec fn zip_fold(
    pieces: Seq<Seq<char>>,
    acc: Seq<Seq<char>>,
) -> Option<Seq<Seq<char>>>
    decreases pieces.len(),
{
    if pieces.len() == 0 {
        Some(acc)
    } else {
        let p = pieces[0];
        if p.len() == 0 || p == seq!['.'] {
            zip_fold(pieces.drop_first(), acc)
        } else if p == seq!['.', '.'] {
            if acc.len() == 0 {
                None
            } else {
                zip_fold(pieces.drop_first(), acc.drop_last())
            }
        } else if seq_contains_char(p, ':') || seq_contains_char(p, '\0') {
            None
        } else {
            zip_fold(pieces.drop_first(), acc.push(p))
        }
    }
}

/// The separator normalization of the zip entry guard: archives may use
/// either slash.
pub open spec fn norm_seps(s: Seq<char>) -> Seq<char> {
    s.map_values(
        |c: char|
            if c == '\\' {
                '/'
            } else {
                c
            },
    )
}

/// What the zip entry guard yields for an entry name: the contained path's
/// components, or nothing when the name would escape the extraction root.
/// Separators of either kind delimit components, `.` and empty components
/// vanish, `..` steps back and may not underflow, and a component holding
/// a drive colon or a NUL is rejected outright.
pub open spec fn spec_zip_entry_path(s: Seq<char>) -> Option<Seq<Seq<char>>> {
    zip_fold(split_seq(norm_seps(s), '/'), Seq::empty())
}

/// The zip-slip guard: the safe relative path of an archive entry, or
/// `None` for an entry that must be skipped.
#[verifier::loop_isolation(false)]
pub fn zip_entry_safe_path(name: &str) -> (r: Option<Vec<String>>)
    ensures
        match r {
            Some(v) => spec_zip_entry_path(name@) == Some(
                v@.map_values(|x: String| x@),
            ),
            None => spec_zip_entry_path(name@) is None,
        },
{
    let cs = str_chars(name);
    let mut normed: Vec<char> = Vec::new();
    let mut i: usize = 0;
    proof {
        assert(normed@ =~= norm_seps(cs@.take(0)));
    }
    while i < cs.len()
        invariant
            i <= cs@.len(),
            normed@ == norm_seps(cs@.take(i as int)),
        decreases cs@.len() - i,
    {
        let c = cs[i];
        normed.push(
            if c == '\\' {
                '/'
            } else {
                c
            },
        );
        proof {
            assert(norm_seps(cs@.take(i + 1)) =~= norm_seps(cs@.take(i as int)).push(
                if cs@[i as int] == '\\' {
                    '/'
                } else {
                    cs@[i as int]
                },
            ));
        }
        i = i + 1;
    }
    proof {
        assert(cs@.take(cs@.len() as int) =~= cs@);
    }
    let pieces = split_char(normed.as_slice(), '/');
    let ghost gp = split_seq(norm_seps(name@), '/');
    let mut acc: Vec<String> = Vec::new();
    let mut j: usize = 0;
    proof {
        assert(gp.skip(0) =~= gp);
        assert(used_view(acc@) =~= Seq::<Seq<char>>::empty());
    }
    while j < pieces.len()
        invariant
            j <= gp.len(),
            gp == pieces@.map_values(|p: Vec<char>| p@),
            gp.len() == pieces@.len(),
            zip_fold(gp, Seq::empty()) == zip_fold(gp.skip(j as int), used_view(acc@)),
        decreases gp.len() - j,
    {
        let ghost rem = gp.skip(j as int);
        let ghost acc_pre = used_view(acc@);
        let ghost piece = gp[j as int];
        proof {
            reveal_strlit(".");
            reveal_strlit("..");
            assert(rem[0] == piece);
            assert(rem.drop_first() =~= gp.skip(j + 1));
            assert(piece == pieces@[j as int]@);
            assert("."@ =~= seq!['.']);
            assert(".."@ =~= seq!['.', '.']);
        }
        let p = &pieces[j];
        if p.len() == 0 || chars_eq_str(p.as_slice(), ".") {
            proof {
                assert(piece.len() == 0 || piece == seq!['.']);
                assert(zip_fold(rem, acc_pre) == zip_fold(gp.skip(j + 1), acc_pre));
            }
        } else if chars_eq_str(p.as_slice(), "..") {
            proof {
                assert(piece =~= seq!['.', '.']);
            }
            if acc.len() == 0 {
                proof {
                    assert(zip_fold(rem, acc_pre) is None);
                }
                return None;
            }
            let _ = acc.pop();
            proof {
                assert(used_view(acc@) =~= acc_pre.drop_last());
                assert(zip_fold(rem, acc_pre) == zip_fold(gp.skip(j + 1), acc_pre.drop_last()));
            }
        } else {
            proof {
                assert(piece.len() > 0);
                assert(piece != seq!['.']);
                assert(piece != seq!['.', '.']);
            }
            if crate::strutil::find_char(p.as_slice(), ':').is_some() || crate::strutil::find_char(
                p.as_slice(),
                '\0',
            ).is_some() {
                proof {
                    assert(zip_fold(rem, acc_pre) is None);
                }
                return None;
            }
            proof {
                assert(!seq_contains_char(piece, ':'));
                assert(!seq_contains_char(piece, '\0'));
            }
            acc.push(chars_to_string(p.as_slice()));
            proof {
                assert(used_view(acc@) =~= acc_pre.push(piece));
                assert(zip_fold(rem, acc_pre) == zip_fold(gp.skip(j + 1), acc_pre.push(piece)));
            }
        }
        j = j + 1;
    }
    proof {
        assert(gp.skip(gp.len() as int) =~= Seq::<Seq<char>>::empty());
    }
    Some(acc)
}

/// Whether a directory listing holds the manifest file.
pub open spec fn has_skill_md(files: Seq<Seq<char>>) -> bool {
    files.contains("SKILL.md"@)
}

/// Checks that an installed directory holds `SKILL.md` at its root, given
/// the names of the files in it.
pub fn ensure_skill_md_exists(dir: &str, files: &Vec<String>) -> (r: Result<(), SkillError>)
    ensures
        match r {
            Ok(()) => has_skill_md(used_view(files@)),
            Err(e) => !has_skill_md(used_view(files@)) && e@ == SkillErrorV::Validation(
                "installed directory is missing SKILL.md at root: "@ + dir@,
            ),
        },
{
    if strings_contain(files, "SKILL.md") {
        Ok(())
    } else {
        let mut m = String::from_str("installed directory is missing SKILL.md at root: ");
        m.append(dir);
        Err(SkillError::Validation(m))
    }
}

/// The flattening decision after extraction: promote a single wrapping
/// directory when the root has no manifest and no files, exactly one child
/// directory, and that child holds the manifest.
pub fn should_flatten(
    root_has_skill_md: bool,
    n_root_files: usize,
    n_root_dirs: usize,
    child_has_skill_md: bool,
) -> (r: bool)
    ensures
        r == (!root_has_skill_md && n_root_files == 0 && n_root_dirs == 1 && child_has_skill_md),
{
    !root_has_skill_md && n_root_files == 0 && n_root_dirs == 1 && child_has_skill_md
}

/// The overwrite decision for an install target: an existing target fails
/// without `force`; with it, the target is removed first. `Ok(true)` means
/// the caller must remove the existing directory before creating it.
pub fn prepare_install_target(path: &str, target_exists: bool, force: bool) -> (r: Result<
    bool,
    SkillError,
>)
    ensures
        match r {
            Ok(remove_first) => (target_exists ==> force) && remove_first == (target_exists
                && force),
            Err(e) => target_exists && !force && e@ == SkillErrorV::Filesystem(
                "target already exists: "@ + path@ + " (set force=true to overwrite)"@,
            ),
        },
{
    if target_exists {
        if !force {
            let mut m = String::from_str("target already exists: ");
            m.append(path);
            m.append(" (set force=true to overwrite)");
            return Err(SkillError::Filesystem(m));
        }
        Ok(true)
    } else {
        Ok(false)
    }
}

} // verus!
