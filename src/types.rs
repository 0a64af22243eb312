//! Dependency records and the registry's answer.
use vstd::prelude::*;
use crate::outdated::{is_version_outdated, outdated};
use crate::version::opt_text;

verus! {

/// The registry's answer for one crate.
#[derive(Debug)]
pub struct CrateInfo {
    pub crate_info: CrateDetails,
}

/// The part of the registry's answer that is read: the newest version.
#[derive(Debug)]
pub struct CrateDetails {
    pub max_version: String,
}

/// The table of a manifest that declared a dependency.
#[derive(Debug, Clone, Copy, PartialEq, Eq, Structural)]
pub enum DependencyType {
    Normal,
    Dev,
    Build,
    Workspace,
}

/// The suffix that marks a dependency of this kind after its name.
pub open spec fn type_label(t: DependencyType) -> Seq<char> {
    match t {
        DependencyType::Normal => Seq::empty(),
        DependencyType::Dev => " (dev)"@,
        DependencyType::Build => " (build)"@,
        DependencyType::Workspace => " (workspace)"@,
    }
}

impl DependencyType {
    /// `""`, `" (dev)"`, `" (build)"` or `" (workspace)"`.
    pub fn label(&self) -> (r: &'static str)
        ensures
            r@ == type_label(*self),
    {
        proof {
            reveal_strlit("");
        }
        match self {
            DependencyType::Normal => "",
            DependencyType::Dev => " (dev)",
            DependencyType::Build => " (build)",
            DependencyType::Workspace => " (workspace)",
        }
    }
}

/// One declared dependency: its name, the requirement as written, the newest
/// published version once it is known, its kind and the manifest it came from.
#[derive(Debug)]
pub struct Dependency {
    pub name: String,
    pub current_version: String,
    pub latest_version: Option<String>,
    pub dep_type: DependencyType,
    pub source: String,
}

pub struct DependencyView {
    pub name: Seq<char>,
    pub current_version: Seq<char>,
    pub latest_version: Option<Seq<char>>,
    pub dep_type: DependencyType,
    pub source: Seq<char>,
}

impl View for Dependency {
    type V = DependencyView;

    open spec fn view(&self) -> DependencyView {
        DependencyView {
            name: self.name@,
            current_version: self.current_version@,
            latest_version: opt_text(self.latest_version),
            dep_type: self.dep_type,
            source: self.source@,
        }
    }
}

/// A dependency is outdated when its latest version is known and its
/// requirement is outdated against it.
pub open spec fn dependency_outdated(d: DependencyView) -> bool {
    match d.latest_version {
        Some(l) => outdated(d.current_version, l),
        None => false,
    }
}

impl Dependency {
    pub fn is_outdated(&self) -> (r: bool)
        ensures
            r == dependency_outdated(self@),
    {
        match &self.latest_version {
            Some(latest) => is_version_outdated(self.current_version.as_str(), latest.as_str()),
            None => false,
        }
    }
}

} // verus!
