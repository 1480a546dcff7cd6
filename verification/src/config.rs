//! The path lists of a configuration and their resolution in place.

use vstd::prelude::*;
use crate::env::Environment;
use crate::resolve::process_and_dedup;
use crate::resolve::resolved_list;
use crate::resolve::root_view;
use crate::text::texts;

verus! {

/// The workspace section: where sources, libraries and ignored directories
/// are.
#[derive(Debug, Clone)]
pub struct EmmyrcWorkspace {
    /// Directories that count as roots of the workspace.
    pub workspace_roots: Vec<String>,
    /// Directories of libraries.
    pub library: Vec<String>,
    /// Directories that are left out.
    pub ignore_dir: Vec<String>,
}

/// The resource section.
#[derive(Debug, Clone)]
pub struct EmmyrcResource {
    /// Directories that resources are looked up in.
    pub paths: Vec<String>,
}

/// The part of a configuration that holds paths.
#[derive(Debug, Clone)]
pub struct Emmyrc {
    pub workspace: EmmyrcWorkspace,
    pub resource: EmmyrcResource,
}

impl Default for EmmyrcWorkspace {
    fn default() -> (out: EmmyrcWorkspace)
        ensures
            out.workspace_roots@.len() == 0,
            out.library@.len() == 0,
            out.ignore_dir@.len() == 0,
    {
        EmmyrcWorkspace { workspace_roots: Vec::new(), library: Vec::new(), ignore_dir: Vec::new() }
    }
}

impl Default for EmmyrcResource {
    fn default() -> (out: EmmyrcResource)
        ensures
            out.paths@.len() == 0,
    {
        EmmyrcResource { paths: Vec::new() }
    }
}

impl Default for Emmyrc {
    fn default() -> (out: Emmyrc)
        ensures
            out.workspace.workspace_roots@.len() == 0,
            out.workspace.library@.len() == 0,
            out.workspace.ignore_dir@.len() == 0,
            out.resource.paths@.len() == 0,
    {
        Emmyrc { workspace: EmmyrcWorkspace::default(), resource: EmmyrcResource::default() }
    }
}

impl Emmyrc {
    /// Resolves the four path lists in place: workspace roots, libraries,
    /// ignored directories and resource paths. Each list becomes the resolved
    /// forms of its entries, without repeats and in the order of first
    /// occurrence.
    ///
    /// `workspace_root` is `None` where the root has no text form.
    pub fn pre_process_emmyrc(&mut self, workspace_root: Option<&str>, env: &Environment)
        ensures
            texts(final(self).workspace.workspace_roots@) == resolved_list(
                texts(old(self).workspace.workspace_roots@),
                root_view(workspace_root),
                env@,
            ),
            texts(final(self).workspace.library@) == resolved_list(
                texts(old(self).workspace.library@),
                root_view(workspace_root),
                env@,
            ),
            texts(final(self).workspace.ignore_dir@) == resolved_list(
                texts(old(self).workspace.ignore_dir@),
                root_view(workspace_root),
                env@,
            ),
            texts(final(self).resource.paths@) == resolved_list(
                texts(old(self).resource.paths@),
                root_view(workspace_root),
                env@,
            ),
    {
        self.workspace.workspace_roots = process_and_dedup(
            &self.workspace.workspace_roots,
            workspace_root,
            env,
        );
        self.workspace.library = process_and_dedup(&self.workspace.library, workspace_root, env);
        self.workspace.ignore_dir = process_and_dedup(
            &self.workspace.ignore_dir,
            workspace_root,
            env,
        );
        self.resource.paths = process_and_dedup(&self.resource.paths, workspace_root, env);
    }
}

} // verus!
