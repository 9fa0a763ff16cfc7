//! Fetching a channel's builds: what to ask for (a GitHub release list or a
//! TQO manifest), and how the answer becomes a list of builds. The requests
//! themselves are made by the caller.
use vstd::prelude::*;
use crate::digest::{base64_decoded, digest_hex_from, digest_text, digest_to_hex, Base64Engine};
use crate::layout::{platform, platform_name};
use crate::model::{builds_view, opt_view, Build, BuildModel, Catalog, TqoConfig};
use crate::sorting::{is_stable_desc_sort, lemma_sort_of_models, sort_newest_first};
use crate::text::{chars_of, push_char, str_equal, string_of_range};
use crate::version::{version_key, version_key_of, KeyModel};

verus! {

// ---------------------------------------------------------------- patterns

#[verifier::external_type_specification]
#[verifier::external_body]
pub struct ExRegex(regex::Regex);

/// What `regex::Regex::new` reports for `pattern`: `None` where it accepts the
/// pattern, otherwise the text (`Display`) of the error it returns.
pub uninterp spec fn regex_compile_error(pattern: Seq<char>) -> Option<Seq<char>>;

/// Whether the regex compiled from `pattern` matches somewhere in `haystack`
/// (`Regex::is_match`).
pub uninterp spec fn regex_is_match(pattern: Seq<char>, haystack: Seq<char>) -> bool;

/// A compiled pattern for asset names, together with the text it was
/// compiled from. Only `regex_new` makes one.
pub struct AssetPattern {
    source: String,
    compiled: regex::Regex,
}

impl AssetPattern {
    /// The text the pattern was compiled from.
    pub closed spec fn pattern(&self) -> Seq<char> {
        self.source@
    }

    /// The text the pattern was compiled from.
    pub fn source(&self) -> (r: &str)
        ensures
            r@ == self.pattern(),
    {
        self.source.as_str()
    }
}

/// `regex::Regex::new`: compiles `pattern`, keeping its text beside it, or
/// gives the text of the error it reports. The contract states that it
/// succeeds exactly where `regex_compile_error` names no error, and that the
/// error's text is the one named.
#[verifier::external_body]
fn regex_new(pattern: &str) -> (r: Result<AssetPattern, String>)
    ensures
        r is Ok <==> regex_compile_error(pattern@) is None,
        r matches Ok(p) ==> p.pattern() == pattern@,
        r matches Err(e) ==> regex_compile_error(pattern@) == Some(e@),
{
    match regex::Regex::new(pattern) {
        Ok(re) => Ok(AssetPattern { source: pattern.to_string(), compiled: re }),
        Err(e) => Err(e.to_string()),
    }
}

/// `regex::Regex::is_match` of the compiled pattern on `haystack`, as named
/// by `regex_is_match` of the pattern's text.
#[verifier::external_body]
fn regex_matches(p: &AssetPattern, haystack: &str) -> (r: bool)
    ensures
        r == regex_is_match(p.pattern(), haystack@),
{
    p.compiled.is_match(haystack)
}

// ---------------------------------------------------------------- releases

/// One asset of a GitHub release, as the release list gives it: each field is
/// present only where the list holds a value of the right kind.
#[derive(Clone, Debug, PartialEq, Eq)]
pub struct ReleaseAsset {
    pub name: Option<String>,
    pub browser_download_url: Option<String>,
    pub size: Option<u64>,
    pub digest: Option<String>,
}

/// One GitHub release, as the release list gives it.
#[derive(Clone, Debug, PartialEq, Eq)]
pub struct Release {
    pub tag_name: Option<String>,
    pub body: Option<String>,
    pub assets: Vec<ReleaseAsset>,
}

/// The manifest of a TQO channel (`latest.json`).
#[derive(Clone, Debug, PartialEq, Eq)]
pub struct TqoManifest {
    pub patch: Option<String>,
    pub file_name: Option<String>,
    pub download_url: Option<String>,
    pub sha256: Option<String>,
    pub size: Option<u64>,
    pub release_notes: Option<String>,
    pub version: Option<String>,
}

/// The text of an optional string, empty when absent.
pub open spec fn text_or_empty(o: Option<String>) -> Seq<char> {
    match o {
        Some(s) => s@,
        None => Seq::empty(),
    }
}

/// The text of an optional string, `default` when absent.
pub open spec fn text_or(o: Option<String>, default: Seq<char>) -> Seq<char> {
    match o {
        Some(s) => s@,
        None => default,
    }
}

fn string_or_empty(o: &Option<String>) -> (r: String)
    ensures
        r@ == text_or_empty(*o),
{
    match o {
        Some(s) => s.clone(),
        None => String::new(),
    }
}

fn string_or(o: &Option<String>, default: &String) -> (r: String)
    ensures
        r@ == text_or(*o, default@),
{
    match o {
        Some(s) => s.clone(),
        None => default.clone(),
    }
}

fn clone_opt(o: &Option<String>) -> (r: Option<String>)
    ensures
        r == *o,
{
    match o {
        Some(s) => Some(s.clone()),
        None => None,
    }
}

/// Asset `i` is the first whose name (empty when absent) the pattern matches.
pub open spec fn is_first_match(pattern: Seq<char>, assets: Seq<ReleaseAsset>, i: int) -> bool {
    &&& 0 <= i < assets.len()
    &&& regex_is_match(pattern, text_or_empty(assets[i].name))
    &&& forall|j: int|
        0 <= j < i ==> !regex_is_match(pattern, text_or_empty(#[trigger] assets[j].name))
}

/// The first asset whose name the pattern matches, if any.
pub open spec fn matching_asset(pattern: Seq<char>, assets: Seq<ReleaseAsset>) -> Option<int> {
    if exists|i: int| is_first_match(pattern, assets, i) {
        Some(choose|i: int| is_first_match(pattern, assets, i))
    } else {
        None
    }
}

/// The index of the first asset whose name the pattern matches.
pub fn first_matching_asset(pattern: &AssetPattern, assets: &Vec<ReleaseAsset>) -> (r: Option<usize>)
    ensures
        match r {
            Some(i) => matching_asset(pattern.pattern(), assets@) == Some(i as int),
            None => matching_asset(pattern.pattern(), assets@) is None,
        },
{
    let n = assets.len();
    for i in 0..n
        invariant
            n == assets@.len(),
            forall|j: int|
                0 <= j < i ==> !regex_is_match(
                    pattern.pattern(),
                    text_or_empty(#[trigger] assets@[j].name),
                ),
    {
        let name = string_or_empty(&assets[i].name);
        if regex_matches(pattern, name.as_str()) {
            proof {
                assert(is_first_match(pattern.pattern(), assets@, i as int));
                let k = choose|k: int| is_first_match(pattern.pattern(), assets@, k);
                if k < i {
                } else if k > i {
                }
            }
            return Some(i);
        }
    }
    proof {
        assert forall|k: int| !is_first_match(pattern.pattern(), assets@, k) by {
            if 0 <= k < n {
            }
        }
    }
    None
}

/// The build that a release offers, given the asset chosen for this platform
/// (if any) and the hex digest of that asset (if any): none for a release
/// without a tag or without such an asset.
pub open spec fn release_build_model(
    edition: Seq<char>,
    release: Release,
    asset: Option<int>,
    sha256: Option<Seq<char>>,
) -> Option<BuildModel> {
    let tag = text_or_empty(release.tag_name);
    if tag.len() == 0 {
        None
    } else {
        match asset {
            None => None,
            Some(i) => {
                let a = release.assets@[i];
                Some(
                    BuildModel {
                        edition: edition,
                        version: tag,
                        label: tag,
                        file_name: text_or_empty(a.name),
                        download_url: text_or_empty(a.browser_download_url),
                        sha256: sha256,
                        size: a.size,
                        release_notes: text_or_empty(release.body),
                        patch: None,
                    },
                )
            },
        }
    }
}

/// The model of an optional build.
pub open spec fn opt_build_view(o: Option<Build>) -> Option<BuildModel> {
    match o {
        Some(b) => Some(b@),
        None => None,
    }
}

/// The build that a release offers, given the chosen asset and its digest.
pub fn release_build(
    edition_key: &str,
    release: &Release,
    asset: Option<usize>,
    sha256: Option<String>,
) -> (r: Option<Build>)
    requires
        asset matches Some(i) ==> i < release.assets@.len(),
    ensures
        opt_build_view(r) == release_build_model(
            edition_key@,
            *release,
            match asset {
                Some(i) => Some(i as int),
                None => None,
            },
            opt_view(sha256),
        ),
{
    let tag = string_or_empty(&release.tag_name);
    if tag.as_str().unicode_len() == 0 {
        return None;
    }
    match asset {
        None => None,
        Some(i) => {
            let a = &release.assets[i];
            Some(
                Build {
                    edition: String::from_str(edition_key),
                    version: tag.clone(),
                    label: tag,
                    file_name: string_or_empty(&a.name),
                    download_url: string_or_empty(&a.browser_download_url),
                    sha256: sha256,
                    size: a.size,
                    release_notes: string_or_empty(&release.body),
                    patch: None,
                },
            )
        },
    }
}

/// Every release with a tag offers exactly one build for its chosen asset,
/// whatever digest that asset publishes: the build is named by the tag, is
/// the asset (name, address, size), carries the given digest as it is, and
/// builds for two digests differ in the digest alone.
pub proof fn law_tagged_release_offers_its_asset(
    edition: Seq<char>,
    release: Release,
    i: int,
    sha256: Option<Seq<char>>,
    other: Option<Seq<char>>,
)
    requires
        text_or_empty(release.tag_name).len() > 0,
        0 <= i < release.assets@.len(),
    ensures
        release_build_model(edition, release, Some(i), sha256) is Some,
        ({
            let b = release_build_model(edition, release, Some(i), sha256).unwrap();
            &&& b.sha256 == sha256
            &&& b.edition == edition
            &&& b.version == text_or_empty(release.tag_name)
            &&& b.label == text_or_empty(release.tag_name)
            &&& b.file_name == text_or_empty(release.assets@[i].name)
            &&& b.download_url == text_or_empty(release.assets@[i].browser_download_url)
            &&& b.size == release.assets@[i].size
            &&& b.release_notes == text_or_empty(release.body)
            &&& b.patch is None
            &&& release_build_model(edition, release, Some(i), other) == Some(
                BuildModel { sha256: other, ..b },
            )
        }),
{
}

/// A release offers no build when it has no tag or no asset was chosen.
pub proof fn law_release_without_tag_or_asset_offers_nothing(
    edition: Seq<char>,
    release: Release,
    asset: Option<int>,
    sha256: Option<Seq<char>>,
)
    requires
        text_or_empty(release.tag_name).len() == 0 || asset is None,
    ensures
        release_build_model(edition, release, asset, sha256) is None,
{
}

/// The hex digest that an asset publishes, if any (`digest_to_hex` of it).
pub open spec fn asset_sha256(asset: ReleaseAsset) -> Option<Seq<char>> {
    match asset.digest {
        Some(d) => {
            let text = digest_text(d@);
            digest_hex_from(
                text,
                base64_decoded(Base64Engine::Standard, text),
                base64_decoded(Base64Engine::UrlSafeNoPad, text),
                base64_decoded(Base64Engine::UrlSafe, text),
            )
        },
        None => None,
    }
}

/// The build that a release offers for the platform whose asset pattern is
/// `pattern`.
pub open spec fn github_build_model(edition: Seq<char>, pattern: Seq<char>, release: Release) -> Option<
    BuildModel,
> {
    let m = matching_asset(pattern, release.assets@);
    release_build_model(
        edition,
        release,
        m,
        match m {
            Some(i) => asset_sha256(release.assets@[i]),
            None => None,
        },
    )
}

/// A release offers a build for a platform exactly when it has a tag and one
/// of its assets matches the platform's pattern; the build is that first
/// matching asset, and it is offered unchecked (no digest) when the asset
/// publishes none.
pub proof fn law_github_release_offers_first_match(edition: Seq<char>, pattern: Seq<char>, release: Release)
    ensures
        github_build_model(edition, pattern, release) is Some <==> (text_or_empty(release.tag_name).len()
            > 0 && matching_asset(pattern, release.assets@) is Some),
        github_build_model(edition, pattern, release) matches Some(b) ==> ({
            let i = matching_asset(pattern, release.assets@).unwrap();
            &&& is_first_match(pattern, release.assets@, i)
            &&& b.file_name == text_or_empty(release.assets@[i].name)
            &&& b.version == text_or_empty(release.tag_name)
            &&& (release.assets@[i].digest is None ==> b.sha256 is None)
        }),
{
    let m = matching_asset(pattern, release.assets@);
    if m is Some {
        let i = m.unwrap();
        assert(exists|j: int| is_first_match(pattern, release.assets@, j));
        assert(is_first_match(pattern, release.assets@, i));
    }
}

/// The builds that the releases offer, in the order of the releases.
pub open spec fn github_candidates(edition: Seq<char>, pattern: Seq<char>, releases: Seq<Release>) -> Seq<
    BuildModel,
>
    decreases releases.len(),
{
    if releases.len() == 0 {
        Seq::empty()
    } else {
        let rest = github_candidates(edition, pattern, releases.drop_last());
        match github_build_model(edition, pattern, releases.last()) {
            Some(b) => rest.push(b),
            None => rest,
        }
    }
}

/// The sort key of a build: the key of its version.
pub open spec fn build_model_key() -> spec_fn(BuildModel) -> KeyModel {
    |b: BuildModel| version_key_of(b.version)
}

/// The sort key of a build.
pub open spec fn build_key() -> spec_fn(Build) -> KeyModel {
    |b: Build| version_key_of(b.version@)
}

/// Sorts builds by version, newest first; builds of equal version key keep
/// their order.
pub fn sort_builds_newest_first(builds: Vec<Build>) -> (r: Vec<Build>)
    ensures
        is_stable_desc_sort(builds_view(builds@), builds_view(r@), build_model_key()),
{
    let ghost src = builds@;
    let mut rest = builds;
    let mut items: Vec<((i64, i64, i64, String), Build)> = Vec::new();
    let ghost mut done: int = 0;
    assert(src.skip(0) == src);
    while rest.len() > 0
        invariant
            0 <= done <= src.len(),
            rest@ == src.skip(done),
            items@.len() == done,
            forall|i: int| 0 <= i < done ==> #[trigger] items@[i].1 == src[i],
            forall|i: int|
                0 <= i < done ==> crate::version::key_model(#[trigger] items@[i].0) == version_key_of(
                    items@[i].1.version@,
                ),
        decreases rest@.len(),
    {
        let b = rest.remove(0);
        let k = version_key(b.version.as_str());
        items.push((k, b));
        proof {
            done = done + 1;
            assert(rest@ == src.skip(done));
        }
    }
    assert(items@.map_values(|x: ((i64, i64, i64, String), Build)| x.1) =~= src);
    let r = sort_newest_first(items, Ghost(build_key()));
    proof {
        lemma_sort_of_models(src, r@, build_key(), |b: Build| b@, build_model_key());
    }
    r
}

/// The builds of a GitHub release list for the platform whose asset pattern
/// is `pattern`: for each release with a tag, its first asset whose name the
/// pattern matches, newest version first (builds of equal version key in
/// the order of the list).
pub fn github_builds(edition_key: &str, pattern: &AssetPattern, releases: &Vec<Release>) -> (r: Vec<
    Build,
>)
    ensures
        is_stable_desc_sort(
            github_candidates(edition_key@, pattern.pattern(), releases@),
            builds_view(r@),
            build_model_key(),
        ),
{
    let mut candidates: Vec<Build> = Vec::new();
    let n = releases.len();
    for i in 0..n
        invariant
            n == releases@.len(),
            builds_view(candidates@) == github_candidates(
                edition_key@,
                pattern.pattern(),
                releases@.take(i as int),
            ),
    {
        let release = &releases[i];
        let asset = first_matching_asset(pattern, &release.assets);
        let sha256 = match asset {
            Some(k) => match &release.assets[k].digest {
                Some(d) => digest_to_hex(d.as_str()),
                None => None,
            },
            None => None,
        };
        let b = release_build(edition_key, release, asset, sha256);
        assert(releases@.take(i + 1).drop_last() == releases@.take(i as int));
        assert(releases@.take(i + 1).last() == releases@[i as int]);
        match b {
            Some(b) => {
                candidates.push(b);
                assert(builds_view(candidates@) == builds_view(candidates@.drop_last()).push(
                    candidates@.last()@,
                ));
                assert(candidates@.drop_last() =~= candidates@.subrange(0, candidates@.len() - 1));
            },
            None => {},
        }
    }
    assert(releases@.take(n as int) == releases@);
    sort_builds_newest_first(candidates)
}

// ---------------------------------------------------------------- TQO

/// `s` without its trailing `/` characters (`trim_end_matches('/')`).
pub open spec fn trim_end_slashes(s: Seq<char>) -> Seq<char>
    decreases s.len(),
{
    if s.len() > 0 && s.last() == '/' {
        trim_end_slashes(s.drop_last())
    } else {
        s
    }
}

/// The URL of a TQO channel's manifest: `<base_url>/<channel>/latest.json`,
/// trailing slashes of the base URL removed.
pub open spec fn tqo_manifest_url_text(cfg: TqoConfig) -> Seq<char> {
    trim_end_slashes(cfg.base_url@) + seq!['/'] + cfg.channel@ + seq![
        '/',
        'l',
        'a',
        't',
        'e',
        's',
        't',
        '.',
        'j',
        's',
        'o',
        'n',
    ]
}

/// The URL of a TQO channel's manifest.
pub fn tqo_manifest_url(cfg: &TqoConfig) -> (r: String)
    ensures
        r@ == tqo_manifest_url_text(*cfg),
{
    let base = chars_of(cfg.base_url.as_str());
    let mut end = base.len();
    assert(base@.take(end as int) == base@);
    while end > 0 && base[end - 1] == '/'
        invariant
            end <= base@.len(),
            base@ == cfg.base_url@,
            trim_end_slashes(base@) == trim_end_slashes(base@.take(end as int)),
        decreases end,
    {
        assert(base@.take(end as int).drop_last() == base@.take(end - 1));
        end = end - 1;
    }
    assert(base@.take(end as int) == base@.subrange(0, end as int));
    let mut url = string_of_range(&base, 0, end);
    push_char(&mut url, '/');
    url.append(cfg.channel.as_str());
    url.append("/latest.json");
    proof {
        reveal_strlit("/latest.json");
    }
    assert(url@ =~= tqo_manifest_url_text(*cfg));
    url
}

/// `trim_end_slashes` removes the trailing `/` characters and nothing else:
/// it keeps a prefix of `s` that does not end in `/`, and all that it drops
/// is `/`.
pub proof fn law_trim_end_slashes(s: Seq<char>)
    ensures
        trim_end_slashes(s).len() <= s.len(),
        s.take(trim_end_slashes(s).len() as int) == trim_end_slashes(s),
        trim_end_slashes(s).len() == 0 || trim_end_slashes(s).last() != '/',
        forall|k: int| trim_end_slashes(s).len() <= k < s.len() ==> s[k] == '/',
    decreases s.len(),
{
    if s.len() > 0 && s.last() == '/' {
        law_trim_end_slashes(s.drop_last());
        let t = trim_end_slashes(s.drop_last());
        assert(s.take(t.len() as int) =~= s.drop_last().take(t.len() as int));
        assert forall|k: int| t.len() <= k < s.len() implies s[k] == '/' by {
            if k < s.len() - 1 {
                assert(s.drop_last()[k] == s[k]);
            }
        }
    } else {
        assert(s.take(s.len() as int) =~= s);
    }
}

/// The manifest URL holds the base URL without its trailing slashes, then
/// `/`, then the channel exactly as configured (character for character),
/// then `/latest.json`.
pub proof fn law_manifest_url_shape(cfg: TqoConfig)
    ensures
        ({
            let u = tqo_manifest_url_text(cfg);
            let t = trim_end_slashes(cfg.base_url@);
            let c = cfg.channel@;
            &&& u.len() == t.len() + c.len() + 13
            &&& u.take(t.len() as int) == t
            &&& u[t.len() as int] == '/'
            &&& u.subrange(t.len() + 1int, t.len() + 1int + c.len()) == c
            &&& u.skip(t.len() + 1int + c.len()) == seq!['/', 'l', 'a', 't', 'e', 's', 't', '.', 'j', 's', 'o', 'n']
        }),
{
    let u = tqo_manifest_url_text(cfg);
    let t = trim_end_slashes(cfg.base_url@);
    let c = cfg.channel@;
    assert(u.take(t.len() as int) =~= t);
    assert(u.subrange(t.len() + 1int, t.len() + 1int + c.len()) =~= c);
    assert(u.skip(t.len() + 1int + c.len()) =~= seq!['/', 'l', 'a', 't', 'e', 's', 't', '.', 'j', 's', 'o', 'n']);
}

/// Two channels under one base URL have the same manifest URL only when they
/// are the same text: channels that differ, in letter case too, are asked for
/// at different addresses.
pub proof fn law_manifest_url_separates_channels(a: TqoConfig, b: TqoConfig)
    requires
        a.base_url@ == b.base_url@,
    ensures
        tqo_manifest_url_text(a) == tqo_manifest_url_text(b) <==> a.channel@ == b.channel@,
{
    law_manifest_url_shape(a);
    law_manifest_url_shape(b);
    let t = trim_end_slashes(a.base_url@);
    if tqo_manifest_url_text(a) == tqo_manifest_url_text(b) {
        assert(a.channel@.len() == b.channel@.len());
    }
}

/// The build that a TQO manifest offers: the manifest's fields, with the
/// channel as label (and as version when the manifest names none), the
/// configured file name when the manifest names none, and the patch (empty
/// when absent).
pub open spec fn tqo_build_model(edition: Seq<char>, cfg: TqoConfig, m: TqoManifest) -> BuildModel {
    BuildModel {
        edition: edition,
        version: text_or(m.version, cfg.channel@),
        label: cfg.channel@,
        file_name: text_or(m.file_name, cfg.file_name@),
        download_url: text_or_empty(m.download_url),
        sha256: opt_view(m.sha256),
        size: m.size,
        release_notes: text_or_empty(m.release_notes),
        patch: Some(text_or_empty(m.patch)),
    }
}

/// The build that a TQO manifest offers.
pub fn tqo_build(edition_key: &str, cfg: &TqoConfig, manifest: &TqoManifest) -> (r: Build)
    ensures
        r@ == tqo_build_model(edition_key@, *cfg, *manifest),
{
    Build {
        edition: String::from_str(edition_key),
        version: string_or(&manifest.version, &cfg.channel),
        label: cfg.channel.clone(),
        file_name: string_or(&manifest.file_name, &cfg.file_name),
        download_url: string_or_empty(&manifest.download_url),
        sha256: clone_opt(&manifest.sha256),
        size: manifest.size,
        release_notes: string_or_empty(&manifest.release_notes),
        patch: Some(string_or_empty(&manifest.patch)),
    }
}


// ---------------------------------------------------------------- plans

/// What to ask for to learn a channel's builds.
pub enum FetchPlan {
    /// The release list at `url`; each release offers the asset whose name
    /// `pattern` matches.
    Github { url: String, pattern: AssetPattern },
    /// The manifest at `url` of the TQO channel `config`.
    Tqo { url: String, config: TqoConfig },
}

/// Why a channel cannot be fetched.
#[derive(Clone, Debug, PartialEq, Eq)]
pub enum FetchError {
    /// The catalog has no edition of this key.
    UnknownEdition(String),
    /// The edition's source is neither `github` nor `tqo`.
    UnsupportedSource(String),
    /// A `github` edition without its GitHub settings.
    GithubConfigMissing,
    /// The GitHub settings name no asset pattern for this platform.
    NoAssetMatcher { platform: String, edition: String },
    /// The asset pattern is not a valid regular expression: the text of the
    /// error that compiling it reports.
    InvalidAssetPattern(String),
    /// A `tqo` edition without its TQO settings.
    TqoConfigMissing,
}

pub open spec fn github_text() -> Seq<char> {
    seq!['g', 'i', 't', 'h', 'u', 'b']
}

pub open spec fn tqo_text() -> Seq<char> {
    seq!['t', 'q', 'o']
}

/// The URL of a repository's release list: up to 100 releases.
pub open spec fn github_releases_url_text(repo: Seq<char>) -> Seq<char> {
    "https://api.github.com/repos/"@ + repo + "/releases?per_page=100"@
}

/// The URL of a repository's release list.
pub fn github_releases_url(repo: &str) -> (r: String)
    ensures
        r@ == github_releases_url_text(repo@),
{
    let mut url = String::from_str("https://api.github.com/repos/");
    url.append(repo);
    url.append("/releases?per_page=100");
    url
}

/// `r` is what fetching the edition `key` of the catalog `editions` on
/// `platform` asks for, or the error that stops it.
pub open spec fn is_fetch_plan(
    r: Result<FetchPlan, FetchError>,
    editions: Map<Seq<char>, crate::model::Edition>,
    key: Seq<char>,
    platform: Seq<char>,
) -> bool {
    if !editions.contains_key(key) {
        r matches Err(FetchError::UnknownEdition(k)) && k@ == key
    } else {
        let ed = editions[key];
        if ed.source@ == github_text() {
            match ed.github {
                None => r matches Err(FetchError::GithubConfigMissing),
                Some(g) => if !g.assets@.contains_key(platform) {
                    r matches Err(FetchError::NoAssetMatcher { platform: p, edition: e }) && p@
                        == platform && e@ == key
                } else {
                    let pat = g.assets@[platform]@;
                    match regex_compile_error(pat) {
                        None => r matches Ok(FetchPlan::Github { url, pattern }) && url@
                            == github_releases_url_text(g.repo@) && pattern.pattern() == pat,
                        Some(msg) => r matches Err(FetchError::InvalidAssetPattern(s)) && s@
                            == msg,
                    }
                },
            }
        } else if ed.source@ == tqo_text() {
            match ed.tqo {
                None => r matches Err(FetchError::TqoConfigMissing),
                Some(c) => r matches Ok(FetchPlan::Tqo { url, config }) && url@
                    == tqo_manifest_url_text(c) && config == c,
            }
        } else {
            r matches Err(FetchError::UnsupportedSource(s)) && s@ == ed.source@
        }
    }
}

fn clone_tqo(c: &TqoConfig) -> (r: TqoConfig)
    ensures
        r == *c,
{
    TqoConfig {
        base_url: c.base_url.clone(),
        channel: c.channel.clone(),
        file_name: c.file_name.clone(),
    }
}

/// What to ask for to learn the builds of the edition `edition_key` on
/// `platform` (`windows` or `linux`), or why that cannot be done.
pub fn plan_fetch_for(catalog: &Catalog, edition_key: &str, platform: &str) -> (r: Result<
    FetchPlan,
    FetchError,
>)
    ensures
        is_fetch_plan(r, catalog.editions@, edition_key@, platform@),
{
    let edition = match catalog.editions.get(edition_key) {
        Some(e) => e,
        None => {
            return Err(FetchError::UnknownEdition(String::from_str(edition_key)));
        },
    };
    let github = "github";
    let tqo = "tqo";
    proof {
        reveal_strlit("github");
        reveal_strlit("tqo");
        assert(github@ =~= github_text());
        assert(tqo@ =~= tqo_text());
    }
    if str_equal(edition.source.as_str(), github) {
        let cfg = match &edition.github {
            Some(c) => c,
            None => {
                return Err(FetchError::GithubConfigMissing);
            },
        };
        let matcher = match cfg.assets.get(platform) {
            Some(m) => m,
            None => {
                return Err(
                    FetchError::NoAssetMatcher {
                        platform: String::from_str(platform),
                        edition: String::from_str(edition_key),
                    },
                );
            },
        };
        match regex_new(matcher.as_str()) {
            Ok(pattern) => Ok(
                FetchPlan::Github { url: github_releases_url(cfg.repo.as_str()), pattern },
            ),
            Err(message) => Err(FetchError::InvalidAssetPattern(message)),
        }
    } else if str_equal(edition.source.as_str(), tqo) {
        match &edition.tqo {
            Some(c) => Ok(FetchPlan::Tqo { url: tqo_manifest_url(c), config: clone_tqo(c) }),
            None => Err(FetchError::TqoConfigMissing),
        }
    } else {
        Err(FetchError::UnsupportedSource(edition.source.clone()))
    }
}

/// What to ask for to learn the builds of the edition `edition_key` on the
/// platform the launcher runs on, or why that cannot be done.
pub fn plan_fetch(catalog: &Catalog, edition_key: &str) -> (r: Result<FetchPlan, FetchError>)
    ensures
        is_fetch_plan(r, catalog.editions@, edition_key@, platform_name('\\')) || is_fetch_plan(
            r,
            catalog.editions@,
            edition_key@,
            platform_name('/'),
        ),
{
    plan_fetch_for(catalog, edition_key, platform())
}

/// What a channel request comes to: the builds just fetched (which the caller
/// keeps as the new cached copy), the cached builds when the fetch failed, or
/// the fetch's error when nothing was cached either.
#[derive(Clone, Debug, PartialEq, Eq)]
pub enum ChannelOutcome<T> {
    Fresh(T),
    Cached(T),
    Failed(String),
}

/// The answer to a channel request, given what the fetch gave and what the
/// cache holds: a fetched list wins; a failed fetch falls back on the cache,
/// and fails with the fetch's error only when nothing is cached. The cache is
/// read only after a failed fetch, so `cached` is consulted only then.
pub fn channel_outcome<T>(fetched: Result<T, String>, cached: Option<T>) -> (r: ChannelOutcome<T>)
    ensures
        r == (match fetched {
            Ok(b) => ChannelOutcome::Fresh(b),
            Err(e) => match cached {
                Some(c) => ChannelOutcome::Cached(c),
                None => ChannelOutcome::<T>::Failed(e),
            },
        }),
{
    match fetched {
        Ok(builds) => ChannelOutcome::Fresh(builds),
        Err(e) => match cached {
            Some(c) => ChannelOutcome::Cached(c),
            None => ChannelOutcome::Failed(e),
        },
    }
}

} // verus!
