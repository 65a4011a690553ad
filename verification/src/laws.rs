//! The library's cross-function guarantees, stated and proved once over
//! the same specifications the functions' own contracts use.
use crate::discover::{spec_discover, DiscoveredSkillV, FsEntryV};
use crate::frontmatter::spec_split_frontmatter;
use crate::manager::{
    assoc_get, assoc_index, assoc_put, gates_pass, insert_meta_sorted, last_key_contribution,
    lemma_assoc_index, lemma_last_contribution_mode, lemma_merged_lookup, lemma_merged_wf,
    lemma_metas_of_map_contains, lemma_sort_metas_contains,
    merge_entry, merge_from, merge_root, root_dir_path, sort_metas, spec_catalog,
    spec_load_skill, spec_merged, spec_missing_deps, spec_parse_skill_md, spec_platform_allowed,
    spec_skill_is_available, strip_boms, CatalogEntryV, HostEnvV, SkillDirEntryV, SkillMetadataV,
    SkillRootV,
};
use crate::strutil::{join_seq, lower_seq, trim_seq};
use vstd::prelude::*;

verus! {

/// Discovery is idempotent: two discovery passes over an unchanged tree
/// yield the same skills.
pub proof fn lemma_discovery_idempotent(
    root_name: Seq<char>,
    entries: Seq<FsEntryV>,
    first_pass: Seq<DiscoveredSkillV>,
    second_pass: Seq<DiscoveredSkillV>,
)
    requires
        first_pass == spec_discover(root_name, entries),
        second_pass == spec_discover(root_name, entries),
    ensures
        first_pass == second_pass,
{
}

/// The instruction body served for a skill is the manifest's content after
/// its frontmatter block, trimmed.
pub proof fn lemma_body_is_after_frontmatter(
    content: Seq<char>,
    dir_path: Seq<char>,
    default_source: Seq<char>,
    meta: SkillMetadataV,
    body: Seq<char>,
)
    requires
        spec_parse_skill_md(content, dir_path, default_source) == Some((meta, body)),
    ensures
        exists|yaml: Seq<char>|
            spec_split_frontmatter(strip_boms(content)) == Some((yaml, body)),
{
    match spec_split_frontmatter(strip_boms(content)) {
        Some((yaml, b)) => {
            assert(spec_split_frontmatter(strip_boms(content)) == Some((yaml, body)));
        },
        None => {
            assert(false);
        },
    }
}

/// Unfolds the one-root, one-entry merge to its single catalog entry.
proof fn lemma_single_entry_merge(
    root: SkillRootV,
    e: SkillDirEntryV,
    content: Seq<char>,
    env: HostEnvV,
    meta: SkillMetadataV,
    body: Seq<char>,
    include_unavailable: bool,
)
    requires
        e.skill_md == Some(content),
        spec_parse_skill_md(content, root_dir_path(root, e.dir_name), root.source) == Some(
            (meta, body),
        ),
        include_unavailable || gates_pass(meta, env),
    ensures
        spec_merged(seq![root], seq![seq![e]], include_unavailable, env) == seq![
            CatalogEntryV { key: lower_seq(meta.name), meta, body },
        ],
{
    let roots = seq![root];
    let listings = seq![seq![e]];
    let m0 = Seq::<CatalogEntryV>::empty();
    let entry = CatalogEntryV { key: lower_seq(meta.name), meta, body };
    assert(merge_entry(m0, root, e, include_unavailable, env) =~= seq![entry]) by {
        assert(assoc_index(m0, entry.key) == -1);
        assert(assoc_put(m0, entry) =~= m0.push(entry));
    }
    let m1 = merge_entry(m0, root, e, include_unavailable, env);
    assert(seq![e].drop_first() =~= Seq::<SkillDirEntryV>::empty());
    assert(seq![e][0] == e);
    assert(merge_root(m1, root, Seq::<SkillDirEntryV>::empty(), include_unavailable, env)
        == m1);
    assert(merge_root(m0, root, seq![e], include_unavailable, env) == m1);
    assert(merge_from(m0, roots, listings, 0, include_unavailable, env) == merge_from(
        m1,
        roots,
        listings,
        1,
        include_unavailable,
        env,
    ));
    assert(merge_from(m1, roots, listings, 1, include_unavailable, env) == m1);
}

/// Round trip: a skill installed under a root, whose manifest parses and
/// whose gates pass, is found by the gated catalog under its own name, and
/// activation returns its metadata and its manifest body.
pub proof fn lemma_install_discover_round_trip(
    root: SkillRootV,
    e: SkillDirEntryV,
    content: Seq<char>,
    env: HostEnvV,
    meta: SkillMetadataV,
    body: Seq<char>,
    name: Seq<char>,
)
    requires
        e.skill_md == Some(content),
        spec_parse_skill_md(content, root_dir_path(root, e.dir_name), root.source) == Some(
            (meta, body),
        ),
        gates_pass(meta, env),
        trim_seq(name).len() > 0,
        lower_seq(trim_seq(name)) == lower_seq(meta.name),
    ensures
        spec_catalog(seq![root], seq![seq![e]], env) == seq![meta],
        spec_load_skill(seq![root], seq![seq![e]], env, name) == Ok::<
            (SkillMetadataV, Seq<char>),
            Seq<char>,
        >((meta, body)),
{
    let entry = CatalogEntryV { key: lower_seq(meta.name), meta, body };
    lemma_single_entry_merge(root, e, content, env, meta, body, false);
    lemma_single_entry_merge(root, e, content, env, meta, body, true);
    let m = seq![entry];
    assert(m.map_values(|x: CatalogEntryV| x.meta) =~= seq![meta]);
    assert(sort_metas(seq![meta]) =~= seq![meta]) by {
        assert(seq![meta].drop_first() =~= Seq::<SkillMetadataV>::empty());
        assert(seq![meta][0] == meta);
        assert(sort_metas(Seq::<SkillMetadataV>::empty()) == Seq::<SkillMetadataV>::empty());
        assert(insert_meta_sorted(meta, Seq::<SkillMetadataV>::empty()) == seq![meta]);
    }
    assert(assoc_index(m, lower_seq(trim_seq(name))) == 0);
    assert(assoc_get(m, lower_seq(trim_seq(name))) == Some(entry));
    assert(spec_skill_is_available(meta, env) is Ok);
}

/// Precedence: when two roots define the same name and both pass the
/// gates, the later (higher-precedence) root's entry is what both the
/// catalog and activation return.
pub proof fn lemma_later_root_wins(
    earlier: SkillRootV,
    later: SkillRootV,
    e1: SkillDirEntryV,
    e2: SkillDirEntryV,
    c1: Seq<char>,
    c2: Seq<char>,
    env: HostEnvV,
    m1: SkillMetadataV,
    b1: Seq<char>,
    m2: SkillMetadataV,
    b2: Seq<char>,
    name: Seq<char>,
)
    requires
        e1.skill_md == Some(c1),
        e2.skill_md == Some(c2),
        spec_parse_skill_md(c1, root_dir_path(earlier, e1.dir_name), earlier.source) == Some(
            (m1, b1),
        ),
        spec_parse_skill_md(c2, root_dir_path(later, e2.dir_name), later.source) == Some(
            (m2, b2),
        ),
        lower_seq(m1.name) == lower_seq(m2.name),
        gates_pass(m1, env),
        gates_pass(m2, env),
        trim_seq(name).len() > 0,
        lower_seq(trim_seq(name)) == lower_seq(m2.name),
    ensures
        spec_catalog(seq![earlier, later], seq![seq![e1], seq![e2]], env) == seq![m2],
        spec_load_skill(seq![earlier, later], seq![seq![e1], seq![e2]], env, name) == Ok::<
            (SkillMetadataV, Seq<char>),
            Seq<char>,
        >((m2, b2)),
{
    let roots = seq![earlier, later];
    let listings = seq![seq![e1], seq![e2]];
    let entry1 = CatalogEntryV { key: lower_seq(m1.name), meta: m1, body: b1 };
    let entry2 = CatalogEntryV { key: lower_seq(m2.name), meta: m2, body: b2 };
    assert forall|inc: bool| #[trigger] spec_merged(roots, listings, inc, env) == seq![
        entry2,
    ] by {
        let m0 = Seq::<CatalogEntryV>::empty();
        assert(assoc_index(m0, entry1.key) == -1);
        assert(assoc_put(m0, entry1) =~= seq![entry1]);
        assert(merge_entry(m0, earlier, e1, inc, env) == seq![entry1]);
        let ma = seq![entry1];
        assert(seq![e1].drop_first() =~= Seq::<SkillDirEntryV>::empty());
        assert(seq![e1][0] == e1);
        assert(merge_root(ma, earlier, Seq::<SkillDirEntryV>::empty(), inc, env) == ma);
        assert(merge_root(m0, earlier, seq![e1], inc, env) == ma);
        assert(assoc_index(ma, entry2.key) == 0);
        assert(assoc_put(ma, entry2) =~= seq![entry2]) by {
            assert(ma.update(0, entry2) =~= seq![entry2]);
        }
        assert(merge_entry(ma, later, e2, inc, env) == seq![entry2]);
        assert(seq![e2].drop_first() =~= Seq::<SkillDirEntryV>::empty());
        assert(seq![e2][0] == e2);
        assert(merge_root(seq![entry2], later, Seq::<SkillDirEntryV>::empty(), inc, env)
            == seq![entry2]);
        assert(merge_root(ma, later, seq![e2], inc, env) == seq![entry2]);
        assert(merge_from(m0, roots, listings, 0, inc, env) == merge_from(
            ma,
            roots,
            listings,
            1,
            inc,
            env,
        ));
        assert(merge_from(ma, roots, listings, 1, inc, env) == merge_from(
            seq![entry2],
            roots,
            listings,
            2,
            inc,
            env,
        ));
        assert(merge_from(seq![entry2], roots, listings, 2, inc, env) == seq![entry2]);
    }
    let m = seq![entry2];
    assert(m.map_values(|x: CatalogEntryV| x.meta) =~= seq![m2]);
    assert(sort_metas(seq![m2]) =~= seq![m2]) by {
        assert(seq![m2].drop_first() =~= Seq::<SkillMetadataV>::empty());
        assert(seq![m2][0] == m2);
        assert(sort_metas(Seq::<SkillMetadataV>::empty()) == Seq::<SkillMetadataV>::empty());
        assert(insert_meta_sorted(m2, Seq::<SkillMetadataV>::empty()) == seq![m2]);
    }
    assert(assoc_index(m, lower_seq(trim_seq(name))) == 0);
    assert(spec_skill_is_available(m2, env) is Ok);
}

/// The dependency gate's asymmetry: a skill with a missing declared
/// dependency is absent from the gated catalog, yet activation still
/// resolves its name and reports the dependency-specific error.
pub proof fn lemma_missing_dep_excluded_but_resolvable(
    root: SkillRootV,
    e: SkillDirEntryV,
    content: Seq<char>,
    env: HostEnvV,
    meta: SkillMetadataV,
    body: Seq<char>,
    name: Seq<char>,
)
    requires
        e.skill_md == Some(content),
        spec_parse_skill_md(content, root_dir_path(root, e.dir_name), root.source) == Some(
            (meta, body),
        ),
        spec_platform_allowed(meta.platforms, env.platform),
        spec_missing_deps(meta.deps, env).len() > 0,
        trim_seq(name).len() > 0,
        lower_seq(trim_seq(name)) == lower_seq(meta.name),
    ensures
        spec_catalog(seq![root], seq![seq![e]], env) == Seq::<SkillMetadataV>::empty(),
        spec_load_skill(seq![root], seq![seq![e]], env, name) == Err::<
            (SkillMetadataV, Seq<char>),
            Seq<char>,
        >(
            "Skill '"@ + meta.name + "' is missing required dependencies: "@ + join_seq(
                spec_missing_deps(meta.deps, env),
                ", "@,
            ),
        ),
{
    let roots = seq![root];
    let listings = seq![seq![e]];
    let m0 = Seq::<CatalogEntryV>::empty();
    assert(!gates_pass(meta, env));
    assert(merge_entry(m0, root, e, false, env) == m0);
    assert(seq![e].drop_first() =~= Seq::<SkillDirEntryV>::empty());
    assert(seq![e][0] == e);
    assert(merge_root(m0, root, Seq::<SkillDirEntryV>::empty(), false, env) == m0);
    assert(merge_root(m0, root, seq![e], false, env) == m0);
    assert(merge_from(m0, roots, listings, 0, false, env) == merge_from(
        m0,
        roots,
        listings,
        1,
        false,
        env,
    ));
    assert(spec_merged(roots, listings, false, env) == m0);
    assert(m0.map_values(|x: CatalogEntryV| x.meta) =~= Seq::<SkillMetadataV>::empty());
    lemma_single_entry_merge(root, e, content, env, meta, body, true);
    let entry = CatalogEntryV { key: lower_seq(meta.name), meta, body };
    let m = seq![entry];
    assert(assoc_index(m, lower_seq(trim_seq(name))) == 0);
    assert(spec_skill_is_available(meta, env) == Err::<(), Seq<char>>(
        "Skill '"@ + meta.name + "' is missing required dependencies: "@ + join_seq(
            spec_missing_deps(meta.deps, env),
            ", "@,
        ),
    ));
}

/// An uncapped section append never loses the new entry: the addition
/// appears verbatim in the rewritten content. (The concurrent form of this
/// guarantee — serializing the read-modify-write cycles themselves — is
/// the file lock's job outside this crate; the capped extracted-notes
/// section may additionally trim its oldest lines.)
#[verifier::rlimit(100)]
pub proof fn lemma_append_keeps_new_entry(
    existing: Seq<char>,
    header: Seq<char>,
    addition: Seq<char>,
)
    ensures
        crate::strutil::contains_seq(
            crate::memory::spec_insert_into_section(existing, header, addition, -1),
            addition,
        ),
{
    let r = crate::memory::spec_insert_into_section(existing, header, addition, -1);
    let hidx = crate::strutil::first_match_idx(existing, header);
    if hidx >= 0 {
        let after_header = hidx + header.len();
        let before = existing.take(after_header);
        let rest = existing.skip(after_header);
        let e = crate::strutil::first_match_idx(rest, "\n## "@);
        let send = if e >= 0 {
            e
        } else {
            rest.len() as int
        };
        let section_body = crate::memory::strip_leading_nl(rest.take(send));
        let after_section = rest.skip(send);
        if section_body.len() == 0 {
            let w = before.len() + 1;
            assert(crate::strutil::match_at(r, addition, w as int)) by {
                assert(r == before + seq!['\n'] + addition + after_section);
                assert(r.subrange(w as int, w as int + addition.len() as int) =~= addition);
            }
        } else {
            let combined = section_body + seq!['\n'] + addition;
            let w = before.len() + 1 + section_body.len() + 1;
            assert(crate::strutil::match_at(r, addition, w as int)) by {
                assert(r == before + seq!['\n'] + combined + after_section);
                assert(r.subrange(w as int, w as int + addition.len() as int) =~= addition);
            }
        }
    } else {
        let base = if existing.len() > 0 && existing.last() != '\n' {
            existing + seq!['\n']
        } else {
            existing
        };
        let w = base.len() + 1 + header.len() + 1;
        assert(crate::strutil::match_at(r, addition, w as int)) by {
            assert(r == base + seq!['\n'] + header + seq!['\n'] + addition + seq!['\n']);
            assert(r.subrange(w as int, w as int + addition.len() as int) =~= addition);
        }
    }
}

/// Activation resolves a requested name, over any number of roots, to the
/// single highest-precedence parseable entry for that name — gate-failing
/// entries included — and gate-checks only that entry; with no such entry
/// it fails. This is the activation side of the two-mode merge asymmetry,
/// in its general form.
pub proof fn lemma_activation_resolves_highest_precedence(
    roots: Seq<SkillRootV>,
    listings: Seq<Seq<SkillDirEntryV>>,
    env: HostEnvV,
    name: Seq<char>,
)
    requires
        trim_seq(name).len() > 0,
    ensures
        ({
            let k = lower_seq(trim_seq(name));
            match last_key_contribution(roots, listings, 0, true, env, k) {
                Some(en) => spec_load_skill(roots, listings, env, name) == (
                match spec_skill_is_available(en.meta, env) {
                    Ok(u) => Ok::<(SkillMetadataV, Seq<char>), Seq<char>>((en.meta, en.body)),
                    Err(e) => Err::<(SkillMetadataV, Seq<char>), Seq<char>>(e),
                }),
                None => spec_load_skill(roots, listings, env, name) is Err,
            }
        }),
{
    lemma_merged_lookup(roots, listings, true, env, lower_seq(trim_seq(name)));
}

/// The gated catalog's entry under a name key, over any number of roots,
/// is the highest-precedence gate-passing contribution for that key:
/// gate-failing entries of later roots never shadow it, and a key with no
/// passing contribution is absent from the catalog. This is the catalog
/// side of the two-mode merge asymmetry, in its general form.
pub proof fn lemma_catalog_entry_is_last_passing(
    roots: Seq<SkillRootV>,
    listings: Seq<Seq<SkillDirEntryV>>,
    env: HostEnvV,
    k: Seq<char>,
)
    ensures
        ({
            let cat = spec_catalog(roots, listings, env);
            match last_key_contribution(roots, listings, 0, false, env, k) {
                Some(en) => cat.contains(en.meta) && (forall|x: int|
                    0 <= x < cat.len() && lower_seq((#[trigger] cat[x]).name) == k ==> cat[x]
                        == en.meta),
                None => forall|x: int|
                    0 <= x < cat.len() ==> lower_seq((#[trigger] cat[x]).name) != k,
            }
        }),
{
    let m = spec_merged(roots, listings, false, env);
    let cat = spec_catalog(roots, listings, env);
    let metas = m.map_values(|e: CatalogEntryV| e.meta);
    lemma_merged_lookup(roots, listings, false, env, k);
    lemma_merged_wf(roots, listings, false, env);
    lemma_assoc_index(m, k);
    match last_key_contribution(roots, listings, 0, false, env, k) {
        Some(en) => {
            let idx = assoc_index(m, k);
            assert(idx >= 0 && m[idx] == en);
            assert(metas[idx] == en.meta);
            lemma_sort_metas_contains(metas, en.meta);
            assert(cat.contains(en.meta));
            assert forall|x: int|
                0 <= x < cat.len() && lower_seq((#[trigger] cat[x]).name) == k implies cat[x]
                == en.meta by {
                assert(cat.contains(cat[x]));
                lemma_sort_metas_contains(metas, cat[x]);
                lemma_metas_of_map_contains(m, cat[x]);
                let j = choose|j: int| 0 <= j < m.len() && (#[trigger] m[j]).meta == cat[x];
                assert(m[j].key == lower_seq(cat[x].name));
                if j != idx {
                    assert(m[j].key != m[idx].key);
                }
                assert(j == idx);
            }
        },
        None => {
            assert forall|x: int| 0 <= x < cat.len() implies lower_seq(
                (#[trigger] cat[x]).name,
            ) != k by {
                if lower_seq(cat[x].name) == k {
                    assert(cat.contains(cat[x]));
                    lemma_sort_metas_contains(metas, cat[x]);
                    lemma_metas_of_map_contains(m, cat[x]);
                    let j = choose|j: int|
                        0 <= j < m.len() && (#[trigger] m[j]).meta == cat[x];
                    assert(m[j].key == k);
                }
            }
        },
    }
}

/// Round trip over any number of roots: an installed skill whose manifest
/// entry is the highest-precedence contribution for its name and whose
/// gates pass comes back from activation with its metadata and manifest
/// body, and its metadata stands in the gated catalog.
pub proof fn lemma_round_trip_any_roots(
    roots: Seq<SkillRootV>,
    listings: Seq<Seq<SkillDirEntryV>>,
    env: HostEnvV,
    name: Seq<char>,
    en: CatalogEntryV,
)
    requires
        trim_seq(name).len() > 0,
        last_key_contribution(roots, listings, 0, true, env, lower_seq(trim_seq(name)))
            == Some(en),
        gates_pass(en.meta, env),
    ensures
        spec_load_skill(roots, listings, env, name) == Ok::<
            (SkillMetadataV, Seq<char>),
            Seq<char>,
        >((en.meta, en.body)),
        spec_catalog(roots, listings, env).contains(en.meta),
{
    let k = lower_seq(trim_seq(name));
    lemma_activation_resolves_highest_precedence(roots, listings, env, name);
    assert(spec_skill_is_available(en.meta, env) is Ok);
    lemma_last_contribution_mode(roots, listings, 0, env, k);
    lemma_catalog_entry_is_last_passing(roots, listings, env, k);
}

/// The dependency gate over any number of roots: when the
/// highest-precedence entry for a name is platform-allowed but declares
/// missing dependencies, activation still resolves the name to that entry
/// and reports exactly the missing executables; no lower-precedence entry
/// is served in its place.
pub proof fn lemma_missing_dep_any_roots(
    roots: Seq<SkillRootV>,
    listings: Seq<Seq<SkillDirEntryV>>,
    env: HostEnvV,
    name: Seq<char>,
    en: CatalogEntryV,
)
    requires
        trim_seq(name).len() > 0,
        last_key_contribution(roots, listings, 0, true, env, lower_seq(trim_seq(name)))
            == Some(en),
        spec_platform_allowed(en.meta.platforms, env.platform),
        spec_missing_deps(en.meta.deps, env).len() > 0,
    ensures
        spec_load_skill(roots, listings, env, name) == Err::<
            (SkillMetadataV, Seq<char>),
            Seq<char>,
        >(
            "Skill '"@ + en.meta.name + "' is missing required dependencies: "@ + join_seq(
                spec_missing_deps(en.meta.deps, env),
                ", "@,
            ),
        ),
{
    lemma_activation_resolves_highest_precedence(roots, listings, env, name);
}

} // verus!
