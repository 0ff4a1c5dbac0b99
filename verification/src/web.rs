//! The server index's URL assembly: gluing scheme, host and path and
//! validating the result as a URL through the `url` crate.

use vstd::prelude::*;

verus! {

#[verifier::external_type_specification]
#[verifier::external_body]
pub struct ExUrl(url::Url);

/// Whether a string parses as a URL.
pub uninterp spec fn url_parse_ok(s: Seq<char>) -> bool;

/// Relies on url::Url::parse: whether a string parses as an absolute
/// URL depends on the string alone.
#[verifier::external_body]
fn parse_url(s: &str) -> (r: Option<url::Url>)
    ensures
        (r is Some) == url_parse_ok(s@),
{
    url::Url::parse(s).ok()
}

/// Builds `{scheme}://{host}{path}` and returns it as a parsed URL,
/// or nothing when the glued text is no URL.
pub fn build_url(scheme: &str, host: &str, path: &str) -> (r: Option<url::Url>)
    ensures
        (r is Some) == url_parse_ok(scheme@ + "://"@ + host@ + path@),
{
    let mut s = scheme.to_owned();
    s.append("://");
    s.append(host);
    s.append(path);
    parse_url(s.as_str())
}

/// The landing links the server advertises for a request's scheme and
/// host: the root, the API description, and its viewer — each kept
/// only when it parses as a URL.
pub fn index_urls(scheme: &str, host: &str) -> (r: Vec<url::Url>)
    ensures
        r@.len() == (if url_parse_ok(scheme@ + "://"@ + host@ + "/"@) {
            1int
        } else {
            0int
        }) + (if url_parse_ok(scheme@ + "://"@ + host@ + "/openapi.json"@) {
            1int
        } else {
            0int
        }) + (if url_parse_ok(scheme@ + "://"@ + host@ + "/swagger-ui/"@) {
            1int
        } else {
            0int
        }),
{
    let mut result: Vec<url::Url> = Vec::new();
    if let Some(u) = build_url(scheme, host, "/") {
        result.push(u);
    }
    if let Some(u) = build_url(scheme, host, "/openapi.json") {
        result.push(u);
    }
    if let Some(u) = build_url(scheme, host, "/swagger-ui/") {
        result.push(u);
    }
    result
}

} // verus!
