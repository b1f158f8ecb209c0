//! URLs as texts in their normal form.

use url::Url;
use vstd::prelude::*;

verus! {

/// Most bytes of a URL: it keeps places in itself as 32-bit numbers.
pub const MAX_URL_BYTES: u64 = 0xFFFF_FFFF;

/// Whether a URL of some characters can take more of them. In its normal form
/// it is ASCII, and percent encoding makes at most twelve bytes of a
/// character; a few more are separators.
pub open spec fn fits_url(url: nat, more: nat) -> bool {
    url + 12 * more + 16 <= MAX_URL_BYTES
}

/// Whether a text is no URL or one that can take more characters.
pub open spec fn has_room(s: Seq<char>, more: nat) -> bool {
    url_text(s) matches Some(t) ==> fits_url(t.len(), more)
}

/// Tests whether a URL of some characters can take more of them.
pub fn url_fits(url: usize, more: usize) -> (r: bool)
    ensures
        r == fits_url(url as nat, more as nat),
{
    url as u128 + 12 * (more as u128) + 16 <= MAX_URL_BYTES as u128
}

/// The text of an optional string.
pub open spec fn some_text(s: Option<String>) -> Option<Seq<char>> {
    match s {
        Some(t) => Some(t@),
        None => None,
    }
}

/// A URL in its normal form; `None` for text that is no URL.
pub uninterp spec fn url_text(s: Seq<char>) -> Option<Seq<char>>;

/// The scheme of a URL; `None` for text that is no URL.
pub uninterp spec fn url_scheme(s: Seq<char>) -> Option<Seq<char>>;

/// The path of a URL; `None` for text that is no URL.
pub uninterp spec fn url_path(s: Seq<char>) -> Option<Seq<char>>;

/// A URL with another scheme, in its normal form; `None` for text that is no
/// URL, or where the URL cannot have that scheme.
pub uninterp spec fn url_with_scheme(s: Seq<char>, scheme: Seq<char>) -> Option<Seq<char>>;

/// A URL with another path, in its normal form; `None` for text that is no
/// URL.
pub uninterp spec fn url_with_path(s: Seq<char>, path: Seq<char>) -> Option<Seq<char>>;

/// A URL whose query is one pair, in its normal form; `None` for text that is
/// no URL.
pub uninterp spec fn url_with_pair(s: Seq<char>, key: Seq<char>, value: Seq<char>) -> Option<Seq<char>>;

/// `url::Url::parse`: the normal form of a URL, under the name [`url_text`];
/// `None` where the text cannot be parsed.
#[verifier::external_body]
pub(crate) fn parse_url(s: &str) -> (r: Option<String>)
    ensures
        some_text(r) == url_text(s@),
{
    match Url::parse(s) {
        Ok(u) => Some(u.as_str().to_owned()),
        Err(_) => None,
    }
}

/// `url::Url::scheme`: the scheme of a URL, under the name [`url_scheme`].
#[verifier::external_body]
pub(crate) fn scheme_of(s: &str) -> (r: Option<String>)
    ensures
        some_text(r) == url_scheme(s@),
{
    match Url::parse(s) {
        Ok(u) => Some(u.scheme().to_owned()),
        Err(_) => None,
    }
}

/// `url::Url::path`: the path of a URL, under the name [`url_path`].
#[verifier::external_body]
pub(crate) fn path_of(s: &str) -> (r: Option<String>)
    ensures
        some_text(r) == url_path(s@),
{
    match Url::parse(s) {
        Ok(u) => Some(u.path().to_owned()),
        Err(_) => None,
    }
}

/// `url::Url::set_scheme`: a URL with another scheme, under the name
/// [`url_with_scheme`]. It panics where a place in the URL is no 32-bit number.
#[verifier::external_body]
pub(crate) fn with_scheme(s: &str, scheme: &str) -> (r: Option<String>)
    requires
        has_room(s@, scheme@.len()),
    ensures
        some_text(r) == url_with_scheme(s@, scheme@),
{
    let mut u = Url::parse(s).ok()?;
    u.set_scheme(scheme).ok()?;
    Some(u.as_str().to_owned())
}

/// `url::Url::set_path`: a URL with another path, under the name
/// [`url_with_path`]. It panics where a place in the URL is no 32-bit number.
#[verifier::external_body]
pub(crate) fn with_path(s: &str, path: &str) -> (r: Option<String>)
    requires
        has_room(s@, path@.len()),
    ensures
        some_text(r) == url_with_path(s@, path@),
{
    let mut u = Url::parse(s).ok()?;
    u.set_path(path);
    Some(u.as_str().to_owned())
}

/// `url::Url::query_pairs_mut`, emptied and with one pair appended: a URL whose
/// query is that pair, under the name [`url_with_pair`]. It panics where a
/// place in the URL is no 32-bit number.
#[verifier::external_body]
pub(crate) fn with_pair(s: &str, key: &str, value: &str) -> (r: Option<String>)
    requires
        has_room(s@, key@.len() + value@.len()),
    ensures
        some_text(r) == url_with_pair(s@, key@, value@),
{
    let mut u = Url::parse(s).ok()?;
    u.query_pairs_mut().clear().append_pair(key, value);
    Some(u.as_str().to_owned())
}

} // verus!
