//! The plugin table: metadata of dynamically loaded format plugins and
//! the version-compatibility policy that filters them.
//!
//! Library handles stay at the boundary; the core records metadata,
//! decides admission, and resolves plugins by name or extension.
//! Entries are append-only: a loaded plugin is never removed before
//! process exit.

use vstd::prelude::*;

use crate::bytesutil::bytes_eq;
use crate::config::VersionCompatibility;

verus! {

/// A semantic version triple.
#[derive(Clone, Copy, Debug, PartialEq, Eq, Structural)]
pub struct Version {
    pub major: u64,
    pub minor: u64,
    pub patch: u64,
}

/// What a plugin declares about itself.
#[derive(Debug)]
pub struct PluginMetadata {
    pub name: Vec<u8>,
    pub version: Version,
    pub extensions: Vec<Vec<u8>>,
    pub description: Vec<u8>,
}

/// Is a plugin version accepted against the host version under the
/// selected compatibility mode?
pub open spec fn version_compatible(
    host: Version,
    plugin: Version,
    mode: VersionCompatibility,
) -> bool {
    match mode {
        VersionCompatibility::Exact => plugin == host,
        VersionCompatibility::Major => plugin.major == host.major,
        VersionCompatibility::Minor => plugin.major == host.major && plugin.minor == host.minor,
        VersionCompatibility::Any => true,
    }
}

/// Decide version compatibility.
pub fn is_compatible(host: Version, plugin: Version, mode: VersionCompatibility) -> (r: bool)
    ensures
        r == version_compatible(host, plugin, mode),
{
    match mode {
        VersionCompatibility::Exact => plugin.major == host.major && plugin.minor == host.minor
            && plugin.patch == host.patch,
        VersionCompatibility::Major => plugin.major == host.major,
        VersionCompatibility::Minor => plugin.major == host.major && plugin.minor == host.minor,
        VersionCompatibility::Any => true,
    }
}

/// Does the plugin at `i` claim the extension?
pub open spec fn plugin_claims(p: &PluginMetadata, ext: Seq<u8>) -> bool {
    exists|j: int| 0 <= j < p.extensions@.len() && (#[trigger] p.extensions@[j])@ == ext
}

/// The process-wide plugin table.
#[derive(Debug)]
pub struct PluginManager {
    pub plugin_dir: Vec<u8>,
    pub host_version: Version,
    pub compatibility: VersionCompatibility,
    pub plugins: Vec<PluginMetadata>,
}

impl PluginManager {
    /// An empty table for the given directory and policy.
    pub fn new(plugin_dir: Vec<u8>, host_version: Version, compatibility: VersionCompatibility) -> (r:
        PluginManager)
        ensures
            r.plugin_dir@ == plugin_dir@,
            r.host_version == host_version,
            r.compatibility == compatibility,
            r.plugins@.len() == 0,
    {
        PluginManager { plugin_dir, host_version, compatibility, plugins: Vec::new() }
    }

    /// Admit one discovered plugin: it is recorded exactly when its
    /// version is compatible under the policy; the table is otherwise
    /// unchanged. Admission never removes an entry.
    pub fn admit_plugin(&mut self, meta: PluginMetadata) -> (r: bool)
        ensures
            r == version_compatible(old(self).host_version, meta.version, old(self).compatibility),
            r ==> final (self).plugins@ == old(self).plugins@.push(meta),
            !r ==> final (self).plugins@ == old(self).plugins@,
            final (self).plugin_dir == old(self).plugin_dir,
            final (self).host_version == old(self).host_version,
            final (self).compatibility == old(self).compatibility,
    {
        if is_compatible(self.host_version, meta.version, self.compatibility) {
            self.plugins.push(meta);
            true
        } else {
            false
        }
    }

    /// The slot of the first plugin with the given name.
    pub fn get_plugin(&self, name: &Vec<u8>) -> (r: Option<usize>)
        ensures
            match r {
                Some(i) => i < self.plugins@.len() && self.plugins@[i as int].name@ == name@,
                None => forall|i: int|
                    0 <= i < self.plugins@.len() ==> (#[trigger] self.plugins@[i]).name@ != name@,
            },
    {
        let n: usize = self.plugins.len();
        for i in 0..n
            invariant
                n == self.plugins@.len(),
                forall|j: int|
                    0 <= j < i ==> (#[trigger] self.plugins@[j]).name@ != name@,
        {
            if bytes_eq(&self.plugins[i].name, name) {
                return Some(i);
            }
        }
        None
    }

    /// The slot of the first plugin claiming the given extension.
    pub fn get_plugin_for_extension(&self, extension: &Vec<u8>) -> (r: Option<usize>)
        ensures
            match r {
                Some(i) => i < self.plugins@.len() && plugin_claims(
                    &self.plugins@[i as int],
                    extension@,
                ),
                None => forall|i: int|
                    0 <= i < self.plugins@.len() ==> !plugin_claims(
                        &(#[trigger] self.plugins@[i]),
                        extension@,
                    ),
            },
    {
        let n: usize = self.plugins.len();
        for i in 0..n
            invariant
                n == self.plugins@.len(),
                forall|j: int|
                    0 <= j < i ==> !plugin_claims(&(#[trigger] self.plugins@[j]), extension@),
        {
            let m: usize = self.plugins[i].extensions.len();
            for j in 0..m
                invariant
                    n == self.plugins@.len(),
                    i < n,
                    m == self.plugins@[i as int].extensions@.len(),
                    forall|jj: int|
                        0 <= jj < j ==> (#[trigger] self.plugins@[i as int].extensions@[jj])@
                            != extension@,
            {
                if bytes_eq(&self.plugins[i].extensions[j], extension) {
                    return Some(i);
                }
            }
            proof {
                assert(!plugin_claims(&self.plugins@[i as int], extension@));
            }
        }
        None
    }

    /// How many plugins are loaded.
    pub fn list_plugins(&self) -> (r: usize)
        ensures
            r == self.plugins@.len(),
    {
        self.plugins.len()
    }
}

} // verus!
