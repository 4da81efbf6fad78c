//! URIs as the `http` crate reads and builds them.

use http::uri::InvalidUri;
use http::Uri;
use vstd::prelude::*;

verus! {

/// A URI that was read, by what is asked of it here.
pub struct ParsedUri {
    /// The URI as text.
    pub text: String,
    /// Its scheme, if it has one.
    pub scheme: Option<String>,
    /// Its host, if it has one.
    pub host: Option<String>,
}

/// What a [`ParsedUri`] holds.
#[verifier::ext_equal]
pub struct UriView {
    pub text: Seq<char>,
    pub scheme: Option<Seq<char>>,
    pub host: Option<Seq<char>>,
}

/// What an optional string holds.
pub open spec fn text_of(string: Option<String>) -> Option<Seq<char>> {
    match string {
        Some(string) => Some(string@),
        None => None,
    }
}

/// What an optional string slice holds.
pub open spec fn str_of(string: Option<&str>) -> Option<Seq<char>> {
    match string {
        Some(string) => Some(string@),
        None => None,
    }
}

impl View for ParsedUri {
    type V = UriView;

    open spec fn view(&self) -> UriView {
        UriView { text: self.text@, scheme: text_of(self.scheme), host: text_of(self.host) }
    }
}

/// What the `http` crate reads a text as, or why it is no URI.
pub uninterp spec fn parsed_uri(text: Seq<char>) -> Result<UriView, Seq<char>>;

/// What the `http` crate builds of a scheme, an authority and a path, if that
/// is a URI.
pub uninterp spec fn built_uri(
    scheme: Seq<char>,
    authority: Seq<char>,
    path: Seq<char>,
) -> Option<Seq<char>>;

/// `Uri`'s `FromStr`: the URI's text, scheme and host as its `Display`,
/// [`Uri::scheme_str`] and [`Uri::host`] give them, or the error's text.
#[verifier::external_body]
pub(crate) fn parse_uri(text: &str) -> (uri: Result<ParsedUri, String>)
    ensures
        match uri {
            Ok(uri) => parsed_uri(text@) == Ok::<UriView, Seq<char>>(uri@),
            Err(error) => parsed_uri(text@) == Err::<UriView, Seq<char>>(error@),
        },
{
    let uri: Uri = text.parse().map_err(|error: InvalidUri| error.to_string())?;
    Ok(ParsedUri {
        text: uri.to_string(),
        scheme: uri.scheme_str().map(str::to_owned),
        host: uri.host().map(str::to_owned),
    })
}

/// [`http::uri::Builder`]: the text of the URI of a scheme, an authority and a
/// path. Where there is one, it is the three put together as `://` asks, but
/// that a path is cut at a `#`.
#[verifier::external_body]
pub(crate) fn build_uri(scheme: &str, authority: &str, path: &str) -> (uri: Option<String>)
    ensures
        text_of(uri) == built_uri(scheme@, authority@, path@),
        uri is Some && path@.len() > 0 && path@[0] == '/' && !path@.contains('#') ==> uri->0@
            == scheme@ + "://"@ + authority@ + path@,
{
    let builder = Uri::builder().scheme(scheme).authority(authority).path_and_query(path);
    builder.build().ok().map(|uri| uri.to_string())
}

/// What may be there is seen as what it is, if it is there; and a URI by its
/// text, its scheme and its host.
pub proof fn law_uris_are_seen_whole(string: Option<String>, slice: Option<&str>, uri: ParsedUri)
    ensures
        string is Some ==> text_of(string) == Some(string->0@),
        string is None ==> text_of(string) is None,
        slice is Some ==> str_of(slice) == Some(slice->0@),
        slice is None ==> str_of(slice) is None,
        uri@.text == uri.text@,
        uri@.scheme is Some <==> uri.scheme is Some,
        uri.scheme is Some ==> uri@.scheme == Some(uri.scheme->0@),
        uri@.host is Some <==> uri.host is Some,
        uri.host is Some ==> uri@.host == Some(uri.host->0@),
{
}

} // verus!
