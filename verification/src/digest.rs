//! SHA-256 digests: reading the digests that release pages publish, hashing a
//! download as it arrives, and checking a download against its digest.
use vstd::prelude::*;
use sha2::Digest;
use base64::Engine;
use crate::model::opt_view;
use crate::text::{
    chars_of, equal_ignore_case, eq_ignore_case, hex_digit, is_hex_digit, lower_seq, push_char,
    starts_with, starts_with_chars, string_of, to_lower, trim, trim_bounds,
};
use crate::version::copy_range;

verus! {

// ---------------------------------------------------------------- hex

/// The lower-case hex digit of `n` (`0 <= n < 16`).
pub open spec fn hex_char(n: int) -> char {
    if n < 10 {
        (48 + n) as char
    } else {
        (87 + n) as char
    }
}

/// The lower-case hex text of `bytes`, two digits per byte (`{:02x}` each).
pub open spec fn hex_text(bytes: Seq<u8>) -> Seq<char>
    decreases bytes.len(),
{
    if bytes.len() == 0 {
        Seq::empty()
    } else {
        hex_text(bytes.drop_last()) + seq![
            hex_char(bytes.last() as int / 16),
            hex_char(bytes.last() as int % 16),
        ]
    }
}

fn hex_digit_char(n: u8) -> (r: char)
    requires
        n < 16,
    ensures
        r == hex_char(n as int),
{
    if n < 10 {
        (48u8 + n) as char
    } else {
        (87u8 + n) as char
    }
}

/// The lower-case hex text of `bytes`.
pub fn hex(bytes: &[u8]) -> (r: String)
    ensures
        r@ == hex_text(bytes@),
{
    let mut out = String::new();
    let n = bytes.len();
    for i in 0..n
        invariant
            n == bytes@.len(),
            out@ == hex_text(bytes@.take(i as int)),
    {
        let b = bytes[i];
        push_char(&mut out, hex_digit_char(b / 16));
        push_char(&mut out, hex_digit_char(b % 16));
        assert(bytes@.take(i + 1).drop_last() == bytes@.take(i as int));
        assert(bytes@.take(i + 1).last() == b);
    }
    assert(bytes@.take(n as int) == bytes@);
    out
}

// ---------------------------------------------------------------- base64

/// The base64 engines of the `base64` crate that a published digest is tried with.
#[derive(Clone, Copy, Debug, PartialEq, Eq)]
pub enum Base64Engine {
    /// `general_purpose::STANDARD`
    Standard,
    /// `general_purpose::URL_SAFE_NO_PAD`
    UrlSafeNoPad,
    /// `general_purpose::URL_SAFE`
    UrlSafe,
}

/// What `Engine::decode` of the `base64` crate gives for `input` with the
/// engine `engine`: the decoded bytes, or `None` where it reports an error.
pub uninterp spec fn base64_decoded(engine: Base64Engine, input: Seq<char>) -> Option<Seq<u8>>;

/// The view of optional bytes.
pub open spec fn opt_bytes(o: Option<Vec<u8>>) -> Option<Seq<u8>> {
    match o {
        Some(v) => Some(v@),
        None => None,
    }
}

/// `base64::Engine::decode` with one of the general-purpose engines: its
/// result, as named by `base64_decoded`.
#[verifier::external_body]
fn base64_decode(engine: Base64Engine, input: &str) -> (r: Option<Vec<u8>>)
    ensures
        opt_bytes(r) == base64_decoded(engine, input@),
{
    let decoded = match engine {
        Base64Engine::Standard => base64::engine::general_purpose::STANDARD.decode(input),
        Base64Engine::UrlSafeNoPad => base64::engine::general_purpose::URL_SAFE_NO_PAD.decode(input),
        Base64Engine::UrlSafe => base64::engine::general_purpose::URL_SAFE.decode(input),
    };
    match decoded {
        Ok(bytes) => Some(bytes),
        Err(_) => None,
    }
}

// ---------------------------------------------------------------- published digests

pub open spec fn sha256_prefix() -> Seq<char> {
    seq!['s', 'h', 'a', '2', '5', '6', ':']
}

/// The digest text of a published value: trimmed, without a leading `sha256:`.
pub open spec fn digest_text(value: Seq<char>) -> Seq<char> {
    let t = trim(value);
    if starts_with(t, sha256_prefix()) {
        t.skip(7)
    } else {
        t
    }
}

/// 32 decoded bytes, if `decoded` holds that many.
pub open spec fn is_sha256_bytes(decoded: Option<Seq<u8>>) -> bool {
    decoded matches Some(b) && b.len() == 32
}

/// The lower-case hex digest that the digest text `text` stands for, given
/// what the three engines decode it to: the first decoding of 32 bytes, in the
/// order standard, URL-safe without padding, URL-safe; otherwise the text
/// itself in lower case if it is 64 hex digits; otherwise none.
pub open spec fn digest_hex_from(
    text: Seq<char>,
    standard: Option<Seq<u8>>,
    url_safe_no_pad: Option<Seq<u8>>,
    url_safe: Option<Seq<u8>>,
) -> Option<Seq<char>> {
    if is_sha256_bytes(standard) {
        Some(hex_text(standard->0))
    } else if is_sha256_bytes(url_safe_no_pad) {
        Some(hex_text(url_safe_no_pad->0))
    } else if is_sha256_bytes(url_safe) {
        Some(hex_text(url_safe->0))
    } else if text.len() == 64 && forall|i: int| 0 <= i < 64 ==> is_hex_digit(#[trigger] text[i]) {
        Some(lower_seq(text))
    } else {
        None
    }
}

/// The hex digest of a published digest text, given its three decodings.
pub fn digest_hex_of_decodings(
    text: &str,
    standard: Option<Vec<u8>>,
    url_safe_no_pad: Option<Vec<u8>>,
    url_safe: Option<Vec<u8>>,
) -> (r: Option<String>)
    ensures
        opt_view(r) == digest_hex_from(
            text@,
            opt_bytes(standard),
            opt_bytes(url_safe_no_pad),
            opt_bytes(url_safe),
        ),
{
    if let Some(bytes) = &standard {
        if bytes.len() == 32 {
            return Some(hex(bytes.as_slice()));
        }
    }
    if let Some(bytes) = &url_safe_no_pad {
        if bytes.len() == 32 {
            return Some(hex(bytes.as_slice()));
        }
    }
    if let Some(bytes) = &url_safe {
        if bytes.len() == 32 {
            return Some(hex(bytes.as_slice()));
        }
    }
    let cs = chars_of(text);
    if cs.len() != 64 {
        return None;
    }
    for i in 0..64
        invariant
            cs@ == text@,
            cs@.len() == 64,
            !is_sha256_bytes(opt_bytes(standard)),
            !is_sha256_bytes(opt_bytes(url_safe_no_pad)),
            !is_sha256_bytes(opt_bytes(url_safe)),
            forall|k: int| 0 <= k < i ==> is_hex_digit(#[trigger] cs@[k]),
    {
        if !hex_digit(cs[i]) {
            assert(!is_hex_digit(text@[i as int]));
            return None;
        }
    }
    Some(string_of(&to_lower(&cs)))
}

/// Converts a GitHub asset digest (base64, possibly `sha256:`-prefixed,
/// possibly URL-safe) into a lower-case hex string; falls back to treating
/// the value as hex if it is 64 hex digits.
pub fn digest_to_hex(value: &str) -> (r: Option<String>)
    ensures
        ({
            let text = digest_text(value@);
            opt_view(r) == digest_hex_from(
                text,
                base64_decoded(Base64Engine::Standard, text),
                base64_decoded(Base64Engine::UrlSafeNoPad, text),
                base64_decoded(Base64Engine::UrlSafe, text),
            )
        }),
{
    let all = chars_of(value);
    let (a, b) = trim_bounds(&all);
    let t = copy_range(&all, a, b);
    let prefix = chars_of("sha256:");
    proof {
        reveal_strlit("sha256:");
        assert(prefix@ =~= sha256_prefix());
    }
    let text = if starts_with_chars(&t, &prefix) {
        let s = copy_range(&t, 7, t.len());
        assert(s@ == t@.skip(7));
        string_of(&s)
    } else {
        string_of(&t)
    };
    let standard = base64_decode(Base64Engine::Standard, text.as_str());
    let url_safe_no_pad = base64_decode(Base64Engine::UrlSafeNoPad, text.as_str());
    let url_safe = base64_decode(Base64Engine::UrlSafe, text.as_str());
    digest_hex_of_decodings(text.as_str(), standard, url_safe_no_pad, url_safe)
}

// ---------------------------------------------------------------- hashing

#[verifier::external_type_specification]
#[verifier::external_body]
pub struct ExSha256(sha2::Sha256);

/// The bytes a `sha2::Sha256` hasher has been fed since it was made.
pub uninterp spec fn sha256_absorbed(h: sha2::Sha256) -> Seq<u8>;

/// The SHA-256 digest of `data`.
pub uninterp spec fn sha256_of(data: Seq<u8>) -> Seq<u8>;

/// `Digest::new` for SHA-256: a hasher that has been fed nothing.
#[verifier::external_body]
fn sha256_new() -> (h: sha2::Sha256)
    ensures
        sha256_absorbed(h) == Seq::<u8>::empty(),
{
    sha2::Sha256::new()
}

/// `Digest::update` for SHA-256: feeds `data` to the hasher.
#[verifier::external_body]
fn sha256_update(h: &mut sha2::Sha256, data: &[u8])
    ensures
        sha256_absorbed(*final(h)) == sha256_absorbed(*old(h)) + data@,
{
    h.update(data);
}

/// `Digest::finalize` for SHA-256: the 32-byte digest of all that the hasher
/// was fed.
#[verifier::external_body]
fn sha256_finalize(h: sha2::Sha256) -> (r: Vec<u8>)
    ensures
        r@ == sha256_of(sha256_absorbed(h)),
        r@.len() == 32,
{
    h.finalize().to_vec()
}

/// The running SHA-256 digest of a download.
pub struct DownloadDigest {
    hasher: sha2::Sha256,
}

impl DownloadDigest {
    /// The bytes received so far.
    pub closed spec fn received(&self) -> Seq<u8> {
        sha256_absorbed(self.hasher)
    }

    /// A digest of nothing received yet.
    pub fn new() -> (r: Self)
        ensures
            r.received() == Seq::<u8>::empty(),
    {
        DownloadDigest { hasher: sha256_new() }
    }

    /// Adds a chunk of the download.
    pub fn update(&mut self, chunk: &[u8])
        ensures
            final(self).received() == old(self).received() + chunk@,
    {
        sha256_update(&mut self.hasher, chunk);
    }

    /// The SHA-256 digest of all that was received.
    pub fn finish(self) -> (r: Vec<u8>)
        ensures
            r@ == sha256_of(self.received()),
            r@.len() == 32,
    {
        sha256_finalize(self.hasher)
    }
}

/// A download with digest `digest` is accepted: when a digest is expected,
/// the hex text of `digest` equals it up to the case of ASCII letters.
pub open spec fn digest_accepted(digest: Seq<u8>, expected: Option<Seq<char>>) -> bool {
    match expected {
        None => true,
        Some(e) => eq_ignore_case(hex_text(digest), e),
    }
}

/// Whether a download whose SHA-256 digest is `digest` matches the expected
/// digest, if there is one.
pub fn verify_digest(digest: &[u8], expected: &Option<String>) -> (r: bool)
    ensures
        r == digest_accepted(digest@, opt_view(*expected)),
{
    match expected {
        None => true,
        Some(e) => {
            let actual = chars_of(hex(digest).as_str());
            equal_ignore_case(&actual, &chars_of(e.as_str()))
        },
    }
}


/// The hex text of a digest has two lower-case hex digits per byte.
pub proof fn law_hex_text_shape(bytes: Seq<u8>)
    ensures
        hex_text(bytes).len() == 2 * bytes.len(),
        forall|i: int|
            0 <= i < hex_text(bytes).len() ==> ('0' <= #[trigger] hex_text(bytes)[i] <= '9' || 'a'
                <= hex_text(bytes)[i] <= 'f'),
    decreases bytes.len(),
{
    if bytes.len() > 0 {
        law_hex_text_shape(bytes.drop_last());
        let b = bytes.last() as int;
        assert(0 <= b / 16 < 16 && 0 <= b % 16 < 16);
        let rest = hex_text(bytes.drop_last());
        assert forall|i: int| 0 <= i < hex_text(bytes).len() implies ('0' <= #[trigger] hex_text(
            bytes,
        )[i] <= '9' || 'a' <= hex_text(bytes)[i] <= 'f') by {
            if i < rest.len() {
                assert(hex_text(bytes)[i] == rest[i]);
            }
        }
    }
}

/// A download is accepted when its own hex digest is the one expected, and
/// when no digest is expected.
pub proof fn law_own_digest_is_accepted(digest: Seq<u8>)
    ensures
        digest_accepted(digest, Some(hex_text(digest))),
        digest_accepted(digest, None),
{
}

} // verus!
