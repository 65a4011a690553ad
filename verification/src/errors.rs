//! The library's error taxonomy. Every failing operation reports one of
//! these, carrying a human-readable message.
use vstd::prelude::*;

verus! {

/// Spec-level shape of a `SkillError`: the variant and its message text.
pub enum SkillErrorV {
    /// Empty or malformed caller input.
    Validation(Seq<char>),
    /// A source address that cannot be resolved.
    SourceResolution(Seq<char>),
    /// A non-success HTTP response or an unreadable body.
    Network(Seq<char>),
    /// A corrupt archive.
    Archive(Seq<char>),
    /// A filesystem operation that failed, annotated with the path.
    Filesystem(Seq<char>),
    /// A git command that exited non-zero.
    Git(Seq<char>),
    /// A skill that is present but gated off on this host.
    Availability(Seq<char>),
    /// A skill name absent from every root.
    NotFound(Seq<char>),
}

/// An error of the skill package system.
#[derive(Debug)]
pub enum SkillError {
    Validation(String),
    SourceResolution(String),
    Network(String),
    Archive(String),
    Filesystem(String),
    Git(String),
    Availability(String),
    NotFound(String),
}

impl View for SkillError {
    type V = SkillErrorV;

    open spec fn view(&self) -> SkillErrorV {
        match self {
            SkillError::Validation(m) => SkillErrorV::Validation(m@),
            SkillError::SourceResolution(m) => SkillErrorV::SourceResolution(m@),
            SkillError::Network(m) => SkillErrorV::Network(m@),
            SkillError::Archive(m) => SkillErrorV::Archive(m@),
            SkillError::Filesystem(m) => SkillErrorV::Filesystem(m@),
            SkillError::Git(m) => SkillErrorV::Git(m@),
            SkillError::Availability(m) => SkillErrorV::Availability(m@),
            SkillError::NotFound(m) => SkillErrorV::NotFound(m@),
        }
    }
}

/// The message text of an error, spec level.
pub open spec fn spec_error_message(e: SkillErrorV) -> Seq<char> {
    match e {
        SkillErrorV::Validation(m) => m,
        SkillErrorV::SourceResolution(m) => m,
        SkillErrorV::Network(m) => m,
        SkillErrorV::Archive(m) => m,
        SkillErrorV::Filesystem(m) => m,
        SkillErrorV::Git(m) => m,
        SkillErrorV::Availability(m) => m,
        SkillErrorV::NotFound(m) => m,
    }
}

impl SkillError {
    /// The message text of the error.
    pub fn message(&self) -> (r: &String)
        ensures
            r@ == spec_error_message(self@),
    {
        match self {
            SkillError::Validation(m) => m,
            SkillError::SourceResolution(m) => m,
            SkillError::Network(m) => m,
            SkillError::Archive(m) => m,
            SkillError::Filesystem(m) => m,
            SkillError::Git(m) => m,
            SkillError::Availability(m) => m,
            SkillError::NotFound(m) => m,
        }
    }
}

} // verus!
