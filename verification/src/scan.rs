//! What a scan of an edition's install directory reports.
use vstd::prelude::*;
use crate::layout::{edition_dir, is_child_path, sanitized};
use crate::model::{opt_view, ScanResult};
use crate::sorting::{is_stable_desc_sort, sort_newest_first};
use crate::state::{lookup_patch, remembered_patch};
use crate::table::KeyedTable;
use crate::version::{key_model, version_key, version_key_of, KeyModel};

verus! {

/// The sort key of a version name.
pub open spec fn version_name_key() -> spec_fn(String) -> KeyModel {
    |s: String| version_key_of(s@)
}

/// Sorts version names newest first; names of equal version key keep their order.
pub fn sort_versions_newest_first(versions: Vec<String>) -> (r: Vec<String>)
    ensures
        is_stable_desc_sort(versions@, r@, version_name_key()),
{
    let ghost src = versions@;
    let mut rest = versions;
    let mut items: Vec<((i64, i64, i64, String), String)> = Vec::new();
    let ghost mut done: int = 0;
    assert(src.skip(0) == src);
    while rest.len() > 0
        invariant
            0 <= done <= src.len(),
            rest@ == src.skip(done),
            items@.len() == done,
            forall|i: int| 0 <= i < done ==> #[trigger] items@[i].1 == src[i],
            forall|i: int|
                0 <= i < done ==> key_model(#[trigger] items@[i].0) == version_key_of(items@[i].1@),
        decreases rest@.len(),
    {
        let v = rest.remove(0);
        let k = version_key(v.as_str());
        items.push((k, v));
        proof {
            done = done + 1;
            assert(rest@ == src.skip(done));
        }
    }
    assert(items@.map_values(|x: ((i64, i64, i64, String), String)| x.1) =~= src);
    sort_newest_first(items, Ghost(version_name_key()))
}

/// What a scan of edition `edition` under `base` reports, given the names of
/// the version directories found there that hold a game binary (in the order
/// they were read): the edition's directory, those versions newest first,
/// and the patch remembered under `patch_key`, if any.
pub fn scan(
    base: &str,
    edition: &str,
    found: Vec<String>,
    patch_key: Option<&str>,
    local_patches: &KeyedTable<String>,
) -> (r: ScanResult)
    ensures
        is_child_path(r.install_dir@, base@, sanitized(edition@)),
        is_stable_desc_sort(found@, r.installed_versions@, version_name_key()),
        opt_view(r.installed_patch) == remembered_patch(
            local_patches@,
            match patch_key {
                Some(k) => Some(k@),
                None => None,
            },
        ),
{
    ScanResult {
        install_dir: edition_dir(base, edition),
        installed_versions: sort_versions_newest_first(found),
        installed_patch: lookup_patch(local_patches, patch_key),
    }
}

} // verus!
