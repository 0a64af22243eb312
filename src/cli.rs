//! The options a run is made with, and what each of them means.
use vstd::prelude::*;

verus! {

/// The command as `cargo` hands it over: `cargo stale [options]`.
#[derive(Debug)]
pub enum CargoCli {
    Stale(Cli),
}

/// Which results to show.
#[derive(Debug, Clone, Copy, PartialEq, Eq, Structural)]
pub enum OutputFilter {
    All,
    OutdatedOnly,
}

impl OutputFilter {
    pub fn is_outdated_only(self) -> (r: bool)
        ensures
            r == (self == OutputFilter::OutdatedOnly),
    {
        matches!(self, OutputFilter::OutdatedOnly)
    }
}

/// Which dependency tables to read.
#[derive(Debug, Clone, Copy, PartialEq, Eq, Structural)]
pub enum DependencyScope {
    Normal,
    IncludeBuildDeps,
}

impl DependencyScope {
    pub fn includes_build_deps(self) -> (r: bool)
        ensures
            r == (self == DependencyScope::IncludeBuildDeps),
    {
        matches!(self, DependencyScope::IncludeBuildDeps)
    }
}

/// Whether workspace members are read as well as the root manifest.
#[derive(Debug, Clone, Copy, PartialEq, Eq, Structural)]
pub enum WorkspaceMode {
    RootOnly,
    IncludeMembers,
}

impl WorkspaceMode {
    pub fn includes_members(self) -> (r: bool)
        ensures
            r == (self == WorkspaceMode::IncludeMembers),
    {
        matches!(self, WorkspaceMode::IncludeMembers)
    }
}

/// How much progress is reported.
#[derive(Debug, Clone, Copy, PartialEq, Eq, Structural)]
pub enum OutputVerbosity {
    Normal,
    Verbose,
}

impl OutputVerbosity {
    pub fn is_verbose(self) -> (r: bool)
        ensures
            r == (self == OutputVerbosity::Verbose),
    {
        matches!(self, OutputVerbosity::Verbose)
    }
}

/// The options of a run.
#[derive(Debug)]
pub struct Cli {
    /// Path to the manifest (or to the directory that holds it).
    pub manifest: String,
    /// Show only outdated dependencies.
    pub outdated_only: bool,
    /// Include build dependencies.
    pub build_deps: bool,
    /// Include workspace members.
    pub workspace: bool,
    /// Report progress.
    pub verbose: bool,
}

impl Cli {
    pub fn output_filter(&self) -> (r: OutputFilter)
        ensures
            r == (if self.outdated_only {
                OutputFilter::OutdatedOnly
            } else {
                OutputFilter::All
            }),
    {
        if self.outdated_only {
            OutputFilter::OutdatedOnly
        } else {
            OutputFilter::All
        }
    }

    pub fn dependency_scope(&self) -> (r: DependencyScope)
        ensures
            r == (if self.build_deps {
                DependencyScope::IncludeBuildDeps
            } else {
                DependencyScope::Normal
            }),
    {
        if self.build_deps {
            DependencyScope::IncludeBuildDeps
        } else {
            DependencyScope::Normal
        }
    }

    pub fn workspace_mode(&self) -> (r: WorkspaceMode)
        ensures
            r == (if self.workspace {
                WorkspaceMode::IncludeMembers
            } else {
                WorkspaceMode::RootOnly
            }),
    {
        if self.workspace {
            WorkspaceMode::IncludeMembers
        } else {
            WorkspaceMode::RootOnly
        }
    }

    pub fn output_verbosity(&self) -> (r: OutputVerbosity)
        ensures
            r == (if self.verbose {
                OutputVerbosity::Verbose
            } else {
                OutputVerbosity::Normal
            }),
    {
        if self.verbose {
            OutputVerbosity::Verbose
        } else {
            OutputVerbosity::Normal
        }
    }
}

} // verus!
