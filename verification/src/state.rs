//! What the launcher remembers between runs, and how installing a build and
//! choosing a directory change it.
use vstd::prelude::*;
use crate::catalog::{patch_key, patch_key_of};
use crate::model::{opt_view, AppState, Build, Edition};
use crate::table::KeyedTable;
use crate::text::concat_str;

verus! {

/// The key under which a build's patch is remembered when it is installed:
/// the edition's TQO channel key, or `<edition>/<version>` for an edition
/// without one.
pub open spec fn install_patch_key(
    editions: Map<Seq<char>, Edition>,
    edition: Seq<char>,
    version: Seq<char>,
) -> Seq<char> {
    match patch_key_of(editions, edition) {
        Some(k) => k,
        None => edition + seq!['/'] + version,
    }
}

/// The patch remembered under `key`, if any.
pub open spec fn remembered_patch(patches: Map<Seq<char>, String>, key: Option<Seq<char>>) -> Option<
    Seq<char>,
> {
    match key {
        Some(k) => if patches.contains_key(k) {
            Some(patches[k]@)
        } else {
            None
        },
        None => None,
    }
}

impl AppState {
    /// The directory builds are installed under: the chosen one, or
    /// `default_dir` when none was chosen.
    pub fn base_dir(&self, default_dir: &str) -> (r: String)
        ensures
            r@ == (match self.install_dir {
                Some(d) => d@,
                None => default_dir@,
            }),
    {
        match &self.install_dir {
            Some(d) => d.clone(),
            None => String::from_str(default_dir),
        }
    }

    /// Chooses the directory builds are installed under.
    pub fn set_install_dir(&mut self, dir: String)
        ensures
            final(self).install_dir == Some(dir),
            final(self).local_patches@ == old(self).local_patches@,
    {
        self.install_dir = Some(dir);
    }

    /// Remembers the patch of a build that was installed, if it has one,
    /// under its install key; returns whether the state changed (and is to
    /// be saved).
    pub fn record_installed_patch(
        &mut self,
        editions: &crate::model::Catalog,
        edition: &str,
        build: &Build,
    ) -> (changed: bool)
        ensures
            changed == build.patch is Some,
            final(self).install_dir == old(self).install_dir,
            final(self).local_patches@ == (match build.patch {
                Some(p) => old(self).local_patches@.insert(
                    install_patch_key(editions.editions@, edition@, build.version@),
                    p,
                ),
                None => old(self).local_patches@,
            }),
    {
        match &build.patch {
            None => false,
            Some(p) => {
                let key = match patch_key(editions, edition) {
                    Some(k) => k,
                    None => {
                        let k = concat_str(edition, "/");
                        proof {
                            reveal_strlit("/");
                        }
                        let k = concat_str(k.as_str(), build.version.as_str());
                        assert(k@ =~= edition@ + seq!['/'] + build.version@);
                        k
                    },
                };
                self.local_patches.insert(key, p.clone());
                true
            },
        }
    }
}

/// The patch remembered under `key` in `patches`, if any.
pub fn lookup_patch(patches: &KeyedTable<String>, key: Option<&str>) -> (r: Option<String>)
    ensures
        opt_view(r) == remembered_patch(
            patches@,
            match key {
                Some(k) => Some(k@),
                None => None,
            },
        ),
{
    match key {
        Some(k) => match patches.get(k) {
            Some(p) => Some(p.clone()),
            None => None,
        },
        None => None,
    }
}

/// Installing a build with a patch of a TQO edition, then scanning that
/// edition, reports the build's patch as installed: what the install
/// remembers is what the scan reads back.
pub proof fn law_installed_patch_is_scanned(
    patches: Map<Seq<char>, String>,
    editions: Map<Seq<char>, Edition>,
    edition: Seq<char>,
    version: Seq<char>,
    patch: String,
)
    requires
        patch_key_of(editions, edition) is Some,
    ensures
        remembered_patch(
            patches.insert(install_patch_key(editions, edition, version), patch),
            patch_key_of(editions, edition),
        ) == Some(patch@),
{
}

/// Installing a build leaves the patches remembered for every other key as
/// they were.
pub proof fn law_install_keeps_other_patches(
    patches: Map<Seq<char>, String>,
    editions: Map<Seq<char>, Edition>,
    edition: Seq<char>,
    version: Seq<char>,
    patch: String,
    other: Seq<char>,
)
    requires
        other != install_patch_key(editions, edition, version),
    ensures
        remembered_patch(
            patches.insert(install_patch_key(editions, edition, version), patch),
            Some(other),
        ) == remembered_patch(patches, Some(other)),
{
}

} // verus!
