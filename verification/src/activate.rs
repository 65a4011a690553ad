//! The skill activation capability: resolves a requested name through the
//! runtime manager and renders the skill's manifest and instructions as
//! one text block; every failure becomes readable error text.
use crate::manager::{
    listings_view, roots_view, spec_load_skill, HostEnv, SkillDirEntry, SkillManager,
    SkillMetadata, SkillMetadataV,
};
use crate::strutil::{join_seq, join_strings};
use vstd::prelude::*;

verus! {

/// The activation tool over a runtime manager.
pub struct ActivateSkillTool {
    pub skill_manager: SkillManager,
}

impl ActivateSkillTool {
    /// An activation tool over the given manager.
    pub fn new(skill_manager: SkillManager) -> (r: ActivateSkillTool)
        ensures
            roots_view(r.skill_manager.roots@) == roots_view(skill_manager.roots@),
    {
        ActivateSkillTool { skill_manager }
    }
}

/// The arguments of the activation tool.
pub struct ActivateSkillArgs {
    pub skill_name: String,
}

/// What an activated skill renders to: its name, description, directory
/// and source, the optional version and update stamp, its platform and
/// dependency lists when any, and the manifest body under an instructions
/// heading.
pub open spec fn spec_render_skill(meta: SkillMetadataV, body: Seq<char>) -> Seq<char> {
    "# Skill: "@ + meta.name + "\n\n"@ + "Description: "@ + meta.description + "\n"@
        + "Skill directory: "@ + meta.dir_path + "\n"@ + "Source: "@ + meta.source + "\n"@ + (
    match meta.version {
        Some(v) => "Version: "@ + v + "\n"@,
        None => Seq::empty(),
    }) + (match meta.updated_at {
        Some(u) => "Updated at: "@ + u + "\n"@,
        None => Seq::empty(),
    }) + (if meta.platforms.len() > 0 {
        "Platforms: "@ + join_seq(meta.platforms, ", "@) + "\n"@
    } else {
        Seq::empty()
    }) + (if meta.deps.len() > 0 {
        "Dependencies: "@ + join_seq(meta.deps, ", "@) + "\n"@
    } else {
        Seq::empty()
    }) + "\n## Instructions\n\n"@ + body
}

/// Renders an activated skill's manifest and instructions.
#[verifier::rlimit(100)]
pub fn render_activated_skill(meta: &SkillMetadata, body: &str) -> (r: String)
    ensures
        r@ == spec_render_skill(meta@, body@),
{
    let mut out = String::from_str("# Skill: ");
    out.append(meta.name.as_str());
    out.append("\n\n");
    out.append("Description: ");
    out.append(meta.description.as_str());
    out.append("\n");
    out.append("Skill directory: ");
    out.append(meta.dir_path.as_str());
    out.append("\n");
    out.append("Source: ");
    out.append(meta.source.as_str());
    out.append("\n");
    match &meta.version {
        Some(v) => {
            out.append("Version: ");
            out.append(v.as_str());
            out.append("\n");
        },
        None => {
        },
    }
    match &meta.updated_at {
        Some(u) => {
            out.append("Updated at: ");
            out.append(u.as_str());
            out.append("\n");
        },
        None => {
        },
    }
    if meta.platforms.len() > 0 {
        out.append("Platforms: ");
        out.append(join_strings(&meta.platforms, ", ").as_str());
        out.append("\n");
    }
    if meta.deps.len() > 0 {
        out.append("Dependencies: ");
        out.append(join_strings(&meta.deps, ", ").as_str());
        out.append("\n");
    }
    out.append("\n## Instructions\n\n");
    out.append(body);
    out
}

/// What activation replies: a missing name is the tool's one hard error;
/// a resolved, gate-passing skill renders as its block; every load
/// failure comes back as error text under a fixed prefix.
pub open spec fn spec_activate(
    manager_roots: Seq<crate::manager::SkillRootV>,
    listings: Seq<Seq<crate::manager::SkillDirEntryV>>,
    env: crate::manager::HostEnvV,
    skill_name: Seq<char>,
) -> Result<Seq<char>, Seq<char>> {
    if crate::strutil::trim_seq(skill_name).len() == 0 {
        Err("Missing required field: skill_name"@)
    } else {
        match spec_load_skill(manager_roots, listings, env, skill_name) {
            Ok((meta, body)) => Ok(spec_render_skill(meta, body)),
            Err(e) => Ok("Error: "@ + e),
        }
    }
}

impl ActivateSkillTool {
    /// Activates a skill by name over the given root listings, always
    /// answering with text.
    pub fn activate(
        &self,
        listings: &Vec<Vec<SkillDirEntry>>,
        env: &HostEnv,
        skill_name: &str,
    ) -> (r: Result<String, String>)
        requires
            listings@.len() == self.skill_manager.roots@.len(),
        ensures
            match r {
                Ok(t) => spec_activate(
                    roots_view(self.skill_manager.roots@),
                    listings_view(listings@),
                    env@,
                    skill_name@,
                ) == Ok::<Seq<char>, Seq<char>>(t@),
                Err(e) => spec_activate(
                    roots_view(self.skill_manager.roots@),
                    listings_view(listings@),
                    env@,
                    skill_name@,
                ) == Err::<Seq<char>, Seq<char>>(e@),
            },
    {
        let trimmed = crate::strutil::trim_str(skill_name);
        if trimmed.as_str().unicode_len() == 0 {
            return Err(String::from_str("Missing required field: skill_name"));
        }
        match self.skill_manager.load_skill_checked(skill_name, listings, env) {
            Ok((meta, body)) => Ok(render_activated_skill(&meta, body.as_str())),
            Err(e) => {
                let mut m = String::from_str("Error: ");
                m.append(e.as_str());
                Ok(m)
            },
        }
    }
}

} // verus!
