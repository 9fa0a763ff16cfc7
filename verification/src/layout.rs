//! Where builds live on disk: `<base>/<edition>/<version>/`, with both names
//! sanitized, and which file of a build directory is the game binary.
use vstd::prelude::*;
use crate::text::{
    chars_of, contains_chars, ends_with, ends_with_chars, has_substring, lower_seq, push_char,
    to_lower,
};

verus! {

// ---------------------------------------------------------------- platform

/// `std::path::MAIN_SEPARATOR`, the primary path separator of the platform the
/// launcher was built for (`\` on Windows, `/` on Unix). Nothing is stated of
/// it: it depends on the machine.
#[verifier::external_body]
fn main_separator() -> (r: char) {
    std::path::MAIN_SEPARATOR
}

/// The platform name that goes with a primary path separator: `windows` for
/// `\`, `linux` otherwise.
pub open spec fn platform_name(separator: char) -> Seq<char> {
    if separator == '\\' {
        seq!['w', 'i', 'n', 'd', 'o', 'w', 's']
    } else {
        seq!['l', 'i', 'n', 'u', 'x']
    }
}

/// The platform name for the given primary path separator.
pub fn platform_for_separator(separator: char) -> (r: &'static str)
    ensures
        r@ == platform_name(separator),
{
    if separator == '\\' {
        let r = "windows";
        proof {
            reveal_strlit("windows");
        }
        r
    } else {
        let r = "linux";
        proof {
            reveal_strlit("linux");
        }
        r
    }
}

/// The platform the launcher runs on, as the catalog names platforms:
/// `windows` on Windows, `linux` elsewhere.
pub fn platform() -> (r: &'static str)
    ensures
        r@ == platform_name('\\') || r@ == platform_name('/'),
{
    platform_for_separator(main_separator())
}

// ---------------------------------------------------------------- names

/// `char::is_alphanumeric` (the Unicode `Alphabetic` or `Numeric` property).
pub uninterp spec fn unicode_alphanumeric(c: char) -> bool;

/// `char::is_alphanumeric`, named by `unicode_alphanumeric`; the contract
/// adds what holds of ASCII: its letters and digits are alphanumeric, and no
/// other ASCII character is.
#[verifier::external_body]
fn is_alphanumeric(c: char) -> (r: bool)
    ensures
        r == unicode_alphanumeric(c),
        (c as u32) < 128 ==> (r <==> ('a' <= c <= 'z' || 'A' <= c <= 'Z' || '0' <= c <= '9')),
{
    c.is_alphanumeric()
}

/// An ASCII letter or digit.
pub open spec fn is_ascii_alphanumeric(c: char) -> bool {
    'a' <= c <= 'z' || 'A' <= c <= 'Z' || '0' <= c <= '9'
}

/// `char::is_alphanumeric`: for ASCII, the letters and digits; beyond it,
/// the Unicode `Alphabetic` and `Numeric` characters.
pub open spec fn alphanumeric(c: char) -> bool {
    if (c as u32) < 128 {
        is_ascii_alphanumeric(c)
    } else {
        unicode_alphanumeric(c)
    }
}

/// A character that may stand in a directory name as it is.
pub open spec fn is_name_char(c: char) -> bool {
    alphanumeric(c) || c == '.' || c == '-' || c == '_' || c == ' '
}

/// The sanitized form of a name: each character that is not alphanumeric,
/// `.`, `-`, `_` or a space becomes `_`.
pub open spec fn sanitized(s: Seq<char>) -> Seq<char> {
    s.map_values(|c: char| if is_name_char(c) { c } else { '_' })
}

/// Sanitizes a name for use as a directory name. The result holds no path
/// separator (`/`, `\`) and no drive mark (`:`): it is one path component.
pub fn sanitize(s: &str) -> (r: String)
    ensures
        r@ == sanitized(s@),
        forall|i: int| 0 <= i < r@.len() ==> #[trigger] r@[i] != '/' && r@[i] != '\\' && r@[i] != ':',
{
    let cs = chars_of(s);
    let mut out = String::new();
    let n = cs.len();
    for i in 0..n
        invariant
            n == cs@.len() == s@.len(),
            cs@ == s@,
            out@ == sanitized(s@.take(i as int)),
            forall|k: int| 0 <= k < out@.len() ==> #[trigger] out@[k] != '/' && out@[k] != '\\' && out@[k] != ':',
    {
        let c = cs[i];
        let keep = is_alphanumeric(c) || c == '.' || c == '-' || c == '_' || c == ' ';
        if keep {
            push_char(&mut out, c);
        } else {
            push_char(&mut out, '_');
        }
        assert(sanitized(s@.take(i + 1)) == sanitized(s@.take(i as int)).push(
            if is_name_char(s@[i as int]) {
                s@[i as int]
            } else {
                '_'
            },
        ));
    }
    assert(s@.take(n as int) == s@);
    out
}


// ---------------------------------------------------------------- paths

/// `p` has no path separator and no drive mark, so that it is neither
/// absolute nor prefixed on any platform.
pub open spec fn is_plain_component(p: Seq<char>) -> bool {
    forall|i: int| 0 <= i < p.len() ==> #[trigger] p[i] != '/' && p[i] != '\\' && p[i] != ':'
}

/// A Windows verbatim path (`\\?\...`), on which `Path::join` also removes
/// `.` and `..` components.
pub open spec fn is_verbatim(p: Seq<char>) -> bool {
    p.len() >= 4 && p[0] == '\\' && p[1] == '\\' && p[2] == '?' && p[3] == '\\'
}

/// A character after which `Path::join` adds no separator on some platform:
/// a separator of that platform, or the `:` that ends a Windows drive.
pub open spec fn may_end_without_separator(c: char) -> bool {
    c == '/' || c == '\\' || c == ':'
}

/// `child` is `base` joined with the component `name` (`Path::join`):
/// - an empty `base` gives `name` itself;
/// - a `base` ending in `/` (a separator on every platform) gives `base` + `name`;
/// - a `base` ending in another character that is neither `\` nor `:` gives
///   `base`, the platform's separator (`/` or `\`), then `name`;
/// - a `base` ending in `\` or `:` gives `base` + `name`, or `base`, a
///   separator, then `name`, as the platform has it.
/// Nothing is said of a verbatim `base`.
pub open spec fn is_child_path(child: Seq<char>, base: Seq<char>, name: Seq<char>) -> bool {
    ||| is_verbatim(base)
    ||| base.len() == 0 && child == name
    ||| base.len() > 0 && base.last() == '/' && child == base + name
    ||| base.len() > 0 && !may_end_without_separator(base.last()) && (child == base + seq!['/']
        + name || child == base + seq!['\\'] + name)
    ||| base.len() > 0 && (base.last() == '\\' || base.last() == ':') && (child == base + name
        || child == base + seq!['/'] + name || child == base + seq!['\\'] + name)
}

/// `Path::join` of a path and one more component, as text. For a component
/// without separators or drive mark (so neither absolute nor prefixed on any
/// platform) and a base that is not verbatim, the contract states the join
/// as every platform does it (`is_child_path`): nothing is added to an empty
/// base or after a trailing `/`; the platform's separator is added after any
/// other last character but `\` and `:`; after those two, whether a
/// separator is added, and which, depends on the platform and is left unsaid.
#[verifier::external_body]
fn join_path(base: &str, part: &str) -> (r: String)
    ensures
        is_plain_component(part@) ==> is_child_path(r@, base@, part@),
{
    std::path::Path::new(base).join(part).to_string_lossy().into_owned()
}

/// The directory of an edition's builds: `<base>/<edition>`, the edition's
/// name sanitized.
pub fn edition_dir(base: &str, edition: &str) -> (r: String)
    ensures
        is_child_path(r@, base@, sanitized(edition@)),
{
    let name = sanitize(edition);
    join_path(base, name.as_str())
}

/// The directory of one build: `<base>/<edition>/<version>`, both names sanitized.
pub fn version_dir(base: &str, edition: &str, version: &str) -> (r: String)
    ensures
        exists|dir: Seq<char>|
            is_child_path(dir, base@, sanitized(edition@)) && is_child_path(
                r@,
                dir,
                sanitized(version@),
            ),
{
    let dir = edition_dir(base, edition);
    let name = sanitize(version);
    join_path(dir.as_str(), name.as_str())
}

// ---------------------------------------------------------------- binaries

/// A file name that is a game binary: on Windows one that ends in `.exe`,
/// whatever the case of its letters; elsewhere one that ends in `.AppImage`.
pub open spec fn is_binary_name_spec(name: Seq<char>, windows: bool) -> bool {
    if windows {
        ends_with(lower_seq(name), seq!['.', 'e', 'x', 'e'])
    } else {
        ends_with(name, seq!['.', 'A', 'p', 'p', 'I', 'm', 'a', 'g', 'e'])
    }
}

/// Whether a file name is a game binary on the platform (`windows` or not).
pub fn is_binary_name(name: &str, windows: bool) -> (r: bool)
    ensures
        r == is_binary_name_spec(name@, windows),
{
    let cs = chars_of(name);
    if windows {
        let ext = chars_of(".exe");
        proof {
            reveal_strlit(".exe");
            assert(ext@ =~= seq!['.', 'e', 'x', 'e']);
        }
        ends_with_chars(&to_lower(&cs), &ext)
    } else {
        let ext = chars_of(".AppImage");
        proof {
            reveal_strlit(".AppImage");
            assert(ext@ =~= seq!['.', 'A', 'p', 'p', 'I', 'm', 'a', 'g', 'e']);
        }
        ends_with_chars(&cs, &ext)
    }
}

/// Which of the binaries found in a build directory is the game: the first
/// whose name contains the directory's name; otherwise the first.
pub open spec fn chosen_binary(folder: Seq<char>, names: Seq<String>) -> Option<int> {
    if names.len() == 0 {
        None
    } else if exists|i: int| 0 <= i < names.len() && has_substring(names[i]@, folder) {
        Some(
            choose|i: int|
                0 <= i < names.len() && has_substring(names[i]@, folder) && forall|j: int|
                    0 <= j < i ==> !has_substring(#[trigger] names[j]@, folder),
        )
    } else {
        Some(0)
    }
}

/// Picks the game binary among the file names `names` of the binaries found
/// (recursively, in the order found) in the build directory named `folder`:
/// the index of the first name that contains `folder`, otherwise 0; `None`
/// when there is none.
pub fn find_binary(folder: &str, names: &Vec<String>) -> (r: Option<usize>)
    ensures
        match r {
            None => names@.len() == 0,
            Some(i) => {
                &&& i < names@.len()
                &&& (has_substring(names@[i as int]@, folder@) || i == 0)
                &&& forall|j: int| 0 <= j < i ==> !has_substring(#[trigger] names@[j]@, folder@)
                &&& !has_substring(names@[i as int]@, folder@) ==> forall|j: int|
                    0 <= j < names@.len() ==> !has_substring(#[trigger] names@[j]@, folder@)
            },
        },
        r == (match chosen_binary(folder@, names@) {
            Some(i) => Some(i as usize),
            None => None::<usize>,
        }),
{
    if names.len() == 0 {
        return None;
    }
    let f = chars_of(folder);
    let n = names.len();
    for i in 0..n
        invariant
            n == names@.len(),
            n > 0,
            f@ == folder@,
            forall|j: int| 0 <= j < i ==> !has_substring(#[trigger] names@[j]@, folder@),
    {
        if contains_chars(&chars_of(names[i].as_str()), &f) {
            proof {
                let k = choose|k: int|
                    0 <= k < names@.len() && has_substring(names@[k]@, folder@) && forall|j: int|
                        0 <= j < k ==> !has_substring(#[trigger] names@[j]@, folder@);
                assert(0 <= i < names@.len() && has_substring(names@[i as int]@, folder@) && forall|j: int|
                        0 <= j < i ==> !has_substring(#[trigger] names@[j]@, folder@));
                if k < i {
                } else if k > i {
                    assert(!has_substring(names@[i as int]@, folder@));
                }
            }
            return Some(i);
        }
    }
    Some(0)
}

} // verus!
