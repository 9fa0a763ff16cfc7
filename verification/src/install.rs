//! The decisions of installing a build: whether an old copy is removed first,
//! where the download is kept meanwhile, and whether it is an archive to
//! extract. Downloading, hashing and writing are done by the caller, which
//! checks the result with `digest::verify_digest`.
use vstd::prelude::*;
use crate::layout::is_plain_component;
use crate::model::{opt_view, Build};
use crate::text::{chars_of, concat_str, equal_chars, has_substring, lower_seq, str_equal, to_lower};

verus! {

/// The index of the last `.` in `s`, or -1.
pub open spec fn last_dot(s: Seq<char>) -> int
    decreases s.len(),
{
    if s.len() == 0 {
        -1
    } else if s.last() == '.' {
        s.len() - 1
    } else {
        last_dot(s.drop_last())
    }
}

/// The extension of a file name as `Path::extension` documents it: none
/// without an embedded `.`, none when the only `.` begins the name, and
/// otherwise the part after the final `.`.
pub open spec fn name_extension(name: Seq<char>) -> Option<Seq<char>> {
    let i = last_dot(name);
    if i <= 0 {
        None
    } else {
        Some(name.skip(i + 1))
    }
}

/// A name that is one ordinary path component on every platform: no
/// separator or drive mark, and not `.` or `..`.
pub open spec fn is_plain_file_name(name: Seq<char>) -> bool {
    &&& is_plain_component(name)
    &&& name != seq!['.']
    &&& name != seq!['.', '.']
}

/// The index of the last `/` in `s`, or -1.
pub open spec fn last_slash(s: Seq<char>) -> int
    decreases s.len(),
{
    if s.len() == 0 {
        -1
    } else if s.last() == '/' {
        s.len() - 1
    } else {
        last_slash(s.drop_last())
    }
}

proof fn lemma_last_slash_bounds(s: Seq<char>)
    ensures
        -1 <= last_slash(s) < s.len(),
    decreases s.len(),
{
    if s.len() > 0 && s.last() != '/' {
        lemma_last_slash_bounds(s.drop_last());
    }
}

/// The file name of a path whose only separator is `/` (`Path::file_name`):
/// its last component, where empty components and `.` are skipped; none when
/// that component is `..` or there is none.
pub open spec fn slash_file_name(s: Seq<char>) -> Option<Seq<char>>
    decreases s.len(),
{
    let i = last_slash(s);
    let seg = s.skip(i + 1);
    if seg.len() == 0 || seg == seq!['.'] {
        if i < 0 || i >= s.len() {
            None
        } else {
            slash_file_name(s.take(i))
        }
    } else if seg == seq!['.', '.'] {
        None
    } else {
        Some(seg)
    }
}

/// `Path::extension` of a path whose only separator is `/`: the extension
/// (`name_extension`) of its file name.
pub open spec fn slash_path_extension(s: Seq<char>) -> Option<Seq<char>> {
    match slash_file_name(s) {
        Some(f) => name_extension(f),
        None => None,
    }
}

/// A path whose components are split at `/` alike on every platform: it holds
/// no `\` and no `:` (so no Windows prefix or drive), and does not begin with
/// `//` (which Windows may read as a share).
pub open spec fn is_slash_path(s: Seq<char>) -> bool {
    &&& !s.contains('\\')
    &&& !s.contains(':')
    &&& !(s.len() >= 2 && s[0] == '/' && s[1] == '/')
}

/// `Path::extension` of a file name, as text. The contract states what the
/// documentation gives of every platform: an extension holds no `.` and
/// follows a `.` in the name, and a name without `.` has none; for a name
/// that is one ordinary component, the extension is the part after its final
/// `.`, as `name_extension` states; and for a path split only at `/`, it is
/// that of its final component, as `Path::components` and `Path::file_name`
/// document them (`slash_path_extension`). Where a name holds `\` or `:`,
/// which part is the file name depends on the platform, and is left unsaid.
#[verifier::external_body]
fn file_extension(file_name: &str) -> (r: Option<String>)
    ensures
        r matches Some(e) ==> !e@.contains('.') && has_substring(file_name@, seq!['.'] + e@),
        !file_name@.contains('.') ==> r is None,
        is_plain_file_name(file_name@) ==> opt_view(r) == name_extension(file_name@),
        is_slash_path(file_name@) ==> opt_view(r) == slash_path_extension(file_name@),
{
    match std::path::Path::new(file_name).extension() {
        Some(e) => match e.to_str() {
            Some(s) => Some(s.to_string()),
            None => None,
        },
        None => None,
    }
}

pub open spec fn zip_text() -> Seq<char> {
    seq!['z', 'i', 'p']
}

/// An extension that marks a zip archive: `zip`, whatever the case of its letters.
pub open spec fn is_zip_ext(ext: Option<Seq<char>>) -> bool {
    ext matches Some(e) && lower_seq(e) == zip_text()
}

/// Whether a file with extension `ext` is a zip archive.
pub fn is_zip_extension(ext: Option<&str>) -> (r: bool)
    ensures
        r == is_zip_ext(
            match ext {
                Some(e) => Some(e@),
                None => None,
            },
        ),
{
    match ext {
        None => false,
        Some(e) => {
            let zip = chars_of("zip");
            proof {
                reveal_strlit("zip");
                assert(zip@ =~= zip_text());
            }
            equal_chars(&to_lower(&chars_of(e)), &zip)
        },
    }
}

/// Whether a downloaded file is a zip archive to extract, by the extension of
/// its name (`Path::extension`): exactly when the extension of its final
/// component is `zip` in any letter case. That final component is stated for
/// every name whose only separator is `/` (`is_slash_path`), which includes
/// every name that is one ordinary component.
pub fn is_archive(file_name: &str) -> (r: bool)
    ensures
        r ==> exists|e: Seq<char>|
            !e.contains('.') && has_substring(file_name@, seq!['.'] + e) && is_zip_ext(Some(e)),
        !file_name@.contains('.') ==> !r,
        is_slash_path(file_name@) ==> r == is_zip_ext(slash_path_extension(file_name@)),
        is_plain_file_name(file_name@) ==> r == is_zip_ext(name_extension(file_name@)),
{
    match file_extension(file_name) {
        Some(e) => is_zip_extension(Some(e.as_str())),
        None => false,
    }
}

pub open spec fn pte_text() -> Seq<char> {
    seq!['P', 'T', 'E']
}

/// The name of the directory a download is kept in until it is applied:
/// `tq-<edition>-<version>`.
pub open spec fn temp_dir_name_text(edition: Seq<char>, version: Seq<char>) -> Seq<char> {
    seq!['t', 'q', '-'] + edition + seq!['-'] + version
}

/// How a build is installed.
#[derive(Clone, Debug, PartialEq, Eq)]
pub struct InstallPlan {
    /// Whether the build's directory is removed before the download: only for
    /// the `PTE` build, whose version name is reused by each new build.
    pub clear_existing: bool,
    /// The directory, under the temporary directory, the download is kept in.
    pub temp_dir_name: String,
    /// Whether the download is a zip archive to extract into the build's
    /// directory (otherwise it is moved there as it is).
    pub extract: bool,
}

/// How to install `build` of `edition`, given whether its directory exists.
pub fn plan_install(edition: &str, build: &Build, version_dir_exists: bool) -> (r: InstallPlan)
    ensures
        r.clear_existing == (version_dir_exists && build.version@ == pte_text()),
        r.temp_dir_name@ == temp_dir_name_text(edition@, build.version@),
        r.extract ==> exists|e: Seq<char>|
            !e.contains('.') && has_substring(build.file_name@, seq!['.'] + e) && is_zip_ext(
                Some(e),
            ),
        !build.file_name@.contains('.') ==> !r.extract,
        is_plain_file_name(build.file_name@) ==> r.extract == is_zip_ext(
            name_extension(build.file_name@),
        ),
        is_slash_path(build.file_name@) ==> r.extract == is_zip_ext(
            slash_path_extension(build.file_name@),
        ),
{
    let pte = "PTE";
    proof {
        reveal_strlit("PTE");
        assert(pte@ =~= pte_text());
    }
    let clear_existing = version_dir_exists && str_equal(build.version.as_str(), pte);
    let prefix = concat_str("tq-", edition);
    let prefix = concat_str(prefix.as_str(), "-");
    let temp_dir_name = concat_str(prefix.as_str(), build.version.as_str());
    proof {
        reveal_strlit("tq-");
        reveal_strlit("-");
        assert(temp_dir_name@ =~= temp_dir_name_text(edition@, build.version@));
    }
    InstallPlan { clear_existing, temp_dir_name, extract: is_archive(build.file_name.as_str()) }
}

/// The size a download is expected to have: the build's, or else the one the
/// server announces.
pub fn expected_size(build_size: Option<u64>, content_length: Option<u64>) -> (r: Option<u64>)
    ensures
        r == (match build_size {
            Some(s) => Some(s),
            None => content_length,
        }),
{
    match build_size {
        Some(s) => Some(s),
        None => content_length,
    }
}

} // verus!
