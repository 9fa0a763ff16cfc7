//! The launcher's data: the catalog of editions, the builds a channel offers,
//! what a scan finds, and the state the launcher keeps between runs.
use vstd::prelude::*;
use crate::table::KeyedTable;

verus! {

/// The view of an optional string.
pub open spec fn opt_view(o: Option<String>) -> Option<Seq<char>> {
    match o {
        Some(s) => Some(s@),
        None => None,
    }
}

/// The catalog: each edition under its key.
pub struct Catalog {
    pub editions: KeyedTable<Edition>,
}

/// Where an edition's builds come from (`source` is `github` or `tqo`).
pub struct Edition {
    pub source: String,
    pub github: Option<GithubConfig>,
    pub tqo: Option<TqoConfig>,
    pub display: Option<Display>,
}

/// A GitHub repository, and for each platform the pattern that names its asset.
pub struct GithubConfig {
    pub repo: String,
    pub assets: KeyedTable<String>,
}

/// A channel of the TQO update endpoint.
#[derive(Clone, Debug, PartialEq, Eq)]
pub struct TqoConfig {
    pub base_url: String,
    pub channel: String,
    pub file_name: String,
}

/// How an edition is shown.
#[derive(Clone, Debug, PartialEq, Eq)]
pub struct Display {
    pub title: String,
    pub subtitle: String,
}

/// One build that a channel offers.
#[derive(Clone, Debug, PartialEq, Eq)]
pub struct Build {
    pub edition: String,
    pub version: String,
    pub label: String,
    pub file_name: String,
    pub download_url: String,
    pub sha256: Option<String>,
    pub size: Option<u64>,
    pub release_notes: String,
    pub patch: Option<String>,
}

/// What a build holds, as mathematical values.
pub struct BuildModel {
    pub edition: Seq<char>,
    pub version: Seq<char>,
    pub label: Seq<char>,
    pub file_name: Seq<char>,
    pub download_url: Seq<char>,
    pub sha256: Option<Seq<char>>,
    pub size: Option<u64>,
    pub release_notes: Seq<char>,
    pub patch: Option<Seq<char>>,
}

impl View for Build {
    type V = BuildModel;

    open spec fn view(&self) -> BuildModel {
        BuildModel {
            edition: self.edition@,
            version: self.version@,
            label: self.label@,
            file_name: self.file_name@,
            download_url: self.download_url@,
            sha256: opt_view(self.sha256),
            size: self.size,
            release_notes: self.release_notes@,
            patch: opt_view(self.patch),
        }
    }
}

/// The models of a list of builds.
pub open spec fn builds_view(v: Seq<Build>) -> Seq<BuildModel> {
    v.map_values(|b: Build| b@)
}

/// An edition as the launcher lists it.
#[derive(Clone, Debug, PartialEq, Eq)]
pub struct EditionInfo {
    pub key: String,
    pub title: String,
    pub subtitle: String,
    pub source: String,
}

/// What a scan of an edition's install directory finds.
#[derive(Clone, Debug, PartialEq, Eq)]
pub struct ScanResult {
    pub install_dir: String,
    pub installed_versions: Vec<String>,
    pub installed_patch: Option<String>,
}

/// What the launcher keeps between runs: the chosen install directory, and
/// the patch installed for each channel.
pub struct AppState {
    pub install_dir: Option<String>,
    pub local_patches: KeyedTable<String>,
}

impl Default for AppState {
    fn default() -> (r: Self)
        ensures
            r.install_dir is None,
            r.local_patches@ == Map::<Seq<char>, String>::empty(),
    {
        AppState { install_dir: None, local_patches: KeyedTable::new() }
    }
}

} // verus!
