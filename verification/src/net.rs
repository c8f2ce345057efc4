//! Where iconify icons, URL downloads and collection listings are cached,
//! and the iconify API addresses they come from.

use crate::model::hex_digit_byte;
use crate::paths::{join_path, join_path_exec};
use crate::text::{chars_of, find_char, find_char_exec, push_str, slice_vec, string_of};
use vstd::prelude::*;

verus! {

/// The environment variable that allows a build to download missing icons.
pub const ALLOW_NETWORK_ENV: &'static str = "GUICONS_ALLOW_NETWORK";

/// A failed download, with its message.
#[derive(Debug)]
pub struct DownloadError(pub String);

impl DownloadError {
    /// The message.
    pub fn message(&self) -> (r: String)
        ensures
            r@ == self.0@,
    {
        self.0.clone()
    }
}

/// An iconify id split at its first `:` into set and name.
pub open spec fn split_id(id: Seq<char>) -> (Seq<char>, Seq<char>) {
    let k = find_char(id, ':').unwrap();
    (id.take(k), id.skip(k + 1))
}

/// Splits `set:name` at its first `:`.
pub fn split_iconify_id(id: &str) -> (r: (String, String))
    requires
        find_char(id@, ':') is Some,
    ensures
        (r.0@, r.1@) == split_id(id@),
{
    let c = chars_of(id);
    let k = find_char_exec(c.as_slice(), ':').unwrap();
    let set = slice_vec(c.as_slice(), 0, k);
    let name = slice_vec(c.as_slice(), k + 1, c.len());
    proof {
        assert(set@ == id@.take(k as int));
        assert(name@ == id@.skip(k + 1));
    }
    (string_of(set.as_slice()), string_of(name.as_slice()))
}

/// The iconify API address of an icon's SVG.
pub open spec fn iconify_url_spec(id: Seq<char>) -> Seq<char> {
    "https://api.iconify.design/"@ + split_id(id).0 + "/"@ + split_id(id).1 + ".svg"@
}

/// The iconify API address of an icon's SVG.
pub fn iconify_url(id: &str) -> (r: String)
    requires
        find_char(id@, ':') is Some,
    ensures
        r@ == iconify_url_spec(id@),
{
    let (set, name) = split_iconify_id(id);
    let mut m: Vec<char> = Vec::new();
    push_str(&mut m, "https://api.iconify.design/");
    push_str(&mut m, set.as_str());
    push_str(&mut m, "/");
    push_str(&mut m, name.as_str());
    push_str(&mut m, ".svg");
    string_of(m.as_slice())
}

/// The iconify API address of a set's full listing.
pub fn collection_url(provider: &str) -> (r: String)
    ensures
        r@ == "https://api.iconify.design/collection?prefix="@ + provider@ + "&pretty=0"@,
{
    let mut m: Vec<char> = Vec::new();
    push_str(&mut m, "https://api.iconify.design/collection?prefix=");
    push_str(&mut m, provider);
    push_str(&mut m, "&pretty=0");
    string_of(m.as_slice())
}

/// Where an iconify icon is cached under the cache directory:
/// `<set>/<name>.svg`.
pub fn iconify_cache_path(cache_dir: &str, id: &str) -> (r: String)
    requires
        find_char(id@, ':') is Some,
    ensures
        r@ == join_path(join_path(cache_dir@, split_id(id@).0), split_id(id@).1 + ".svg"@),
{
    let (set, name) = split_iconify_id(id);
    let dir = join_path_exec(cache_dir, set.as_str());
    let mut file: Vec<char> = Vec::new();
    push_str(&mut file, name.as_str());
    push_str(&mut file, ".svg");
    let file = string_of(file.as_slice());
    join_path_exec(dir.as_str(), file.as_str())
}

/// Where a set's listing is cached under the cache directory:
/// `_collections/<provider>.json`.
pub fn collection_cache_path(cache_dir: &str, provider: &str) -> (r: String)
    ensures
        r@ == join_path(join_path(cache_dir@, "_collections"@), provider@ + ".json"@),
{
    let dir = join_path_exec(cache_dir, "_collections");
    let mut file: Vec<char> = Vec::new();
    push_str(&mut file, provider);
    push_str(&mut file, ".json");
    let file = string_of(file.as_slice());
    join_path_exec(dir.as_str(), file.as_str())
}

/// Lowercase hex, two digits per byte.
pub open spec fn hex_string(bytes: Seq<u8>) -> Seq<char>
    decreases bytes.len(),
{
    if bytes.len() == 0 {
        Seq::empty()
    } else {
        hex_string(bytes.drop_last()) + seq![
            hex_digit_byte((bytes.last() / 16) as nat) as char,
            hex_digit_byte((bytes.last() % 16) as nat) as char,
        ]
    }
}

/// `hex::encode`: each byte as two lowercase hex digits.
#[verifier::external_body]
fn hex_encode(bytes: &[u8]) -> (r: String)
    ensures
        r@ == hex_string(bytes@),
{
    hex::encode(bytes)
}

/// The SHA-256 digest of some bytes.
pub uninterp spec fn sha256_digest(bytes: Seq<u8>) -> Seq<u8>;

/// `Sha256::digest`: the 32-byte SHA-256 digest, a function of the input
/// alone; its value is named, not restated.
#[verifier::external_body]
fn sha256(bytes: &[u8]) -> (r: Vec<u8>)
    ensures
        r@ == sha256_digest(bytes@),
        r@.len() == 32,
{
    <sha2::Sha256 as sha2::Digest>::digest(bytes).to_vec()
}

/// The lowercase hex SHA-256 of a string's UTF-8 bytes.
pub fn sha256_hex(input: &str) -> (r: String)
    ensures
        r@ == hex_string(sha256_digest(vstd::utf8::encode_utf8(input@))),
        r@.len() == 64,
{
    let digest = sha256(input.as_bytes());
    let r = hex_encode(digest.as_slice());
    proof {
        lemma_hex_string_len(digest@);
    }
    r
}

pub proof fn lemma_hex_string_len(bytes: Seq<u8>)
    ensures
        hex_string(bytes).len() == 2 * bytes.len(),
    decreases bytes.len(),
{
    if bytes.len() > 0 {
        lemma_hex_string_len(bytes.drop_last());
    }
}

/// Where a URL download is cached under the cache directory:
/// `url/<sha256 of the url>.svg`.
pub fn url_cache_path(cache_dir: &str, url: &str) -> (r: String)
    ensures
        r@ == join_path(join_path(cache_dir@, "url"@), hex_string(sha256_digest(vstd::utf8::encode_utf8(url@))) + ".svg"@),
{
    let dir = join_path_exec(cache_dir, "url");
    let mut file: Vec<char> = Vec::new();
    push_str(&mut file, sha256_hex(url).as_str());
    push_str(&mut file, ".svg");
    let file = string_of(file.as_slice());
    join_path_exec(dir.as_str(), file.as_str())
}

/// The message for an icon missing from the cache when downloads are not
/// allowed.
pub fn missing_from_cache_message(url: &str, cache_path: &str) -> (r: String)
    ensures
        r@ == "Icon `"@ + url@ + "` is missing from cache at "@ + cache_path@
            + ". Run a fetch step or set GUICONS_ALLOW_NETWORK=1."@,
{
    let mut m: Vec<char> = Vec::new();
    push_str(&mut m, "Icon `");
    push_str(&mut m, url);
    push_str(&mut m, "` is missing from cache at ");
    push_str(&mut m, cache_path);
    push_str(&mut m, ". Run a fetch step or set GUICONS_ALLOW_NETWORK=1.");
    string_of(m.as_slice())
}

} // verus!
