//! Building API and remote URLs. Parsing and re-serializing URLs is done by
//! an outside URL library behind trusted wrappers; the assembly around it is
//! verified.
use vstd::prelude::*;
use crate::chars::chars_to_string;
use crate::chars::push_chars;
use crate::error::OxenError;
use crate::model::Remote;
use crate::model::RemoteRepository;

verus! {

/// The path prefix of the repository API.
pub const API_NAMESPACE: &'static str = "/api/repos";

/// Does the URL library accept this text as an absolute URL?
pub uninterp spec fn url_ok(s: Seq<char>) -> bool;

/// The path component of the parsed URL.
pub uninterp spec fn url_path_of(s: Seq<char>) -> Seq<char>;

/// The serialization of the parsed URL with its path cleared.
pub uninterp spec fn url_root_of(s: Seq<char>) -> Seq<char>;

/// The serialization of the parsed URL with its path replaced.
pub uninterp spec fn url_with_path_of(s: Seq<char>, p: Seq<char>) -> Seq<char>;

/// Relies on `url::Url::parse` and `url::Url::path`: parsing succeeds on a
/// fixed set of texts, and the path of the parsed URL depends on the text
/// alone.
#[verifier::external_body]
fn parse_url_path(s: &str) -> (r: Option<String>)
    ensures
        r is Some <==> url_ok(s@),
        r matches Some(p) ==> p@ == url_path_of(s@),
{
    match url::Url::parse(s) {
        Ok(u) => Some(u.path().to_string()),
        Err(_) => None,
    }
}

/// Relies on `url::Url::parse`, `url::Url::set_path` and the `Display`
/// serialization of `url::Url`: the serialization of an absolute URL is
/// never empty (it always carries the scheme).
#[verifier::external_body]
fn parse_url_root(s: &str) -> (r: Option<String>)
    ensures
        r is Some <==> url_ok(s@),
        r matches Some(p) ==> p@ == url_root_of(s@) && p@.len() >= 1,
{
    match url::Url::parse(s) {
        Ok(mut u) => {
            u.set_path("");
            Some(u.to_string())
        },
        Err(_) => None,
    }
}

/// Relies on `url::Url::parse`, `url::Url::set_path` and the `Display`
/// serialization of `url::Url`: the result depends on the URL text and the
/// new path alone.
#[verifier::external_body]
fn parse_url_with_path(s: &str, p: &str) -> (r: Option<String>)
    ensures
        r is Some <==> url_ok(s@),
        r matches Some(o) ==> o@ == url_with_path_of(s@, p@),
{
    match url::Url::parse(s) {
        Ok(mut u) => {
            u.set_path(p);
            Some(u.to_string())
        },
        Err(_) => None,
    }
}

/// The API URL on a bare host.
pub fn url_from_host(host: &str, uri: &str) -> (r: String)
    ensures
        r@ == "http://"@ + host@ + API_NAMESPACE@ + uri@,
{
    let mut out: Vec<char> = Vec::new();
    push_chars(&mut out, "http://");
    push_chars(&mut out, host);
    push_chars(&mut out, API_NAMESPACE);
    push_chars(&mut out, uri);
    proof {
        assert(out@ =~= "http://"@ + host@ + API_NAMESPACE@ + uri@);
    }
    chars_to_string(&out)
}

/// The browsing URL of a repository on a bare host.
pub fn remote_url_from_host(host: &str, namespace: &str, name: &str) -> (r: String)
    ensures
        r@ == "http://"@ + host@ + seq!['/'] + namespace@ + seq!['/'] + name@,
{
    let mut out: Vec<char> = Vec::new();
    push_chars(&mut out, "http://");
    push_chars(&mut out, host);
    out.push('/');
    push_chars(&mut out, namespace);
    out.push('/');
    push_chars(&mut out, name);
    proof {
        assert(out@ =~= "http://"@ + host@ + seq!['/'] + namespace@ + seq!['/'] + name@);
    }
    chars_to_string(&out)
}

/// Turn a remote's browsing URL into its API URL by prefixing the API
/// namespace onto its path. Fails exactly when the text is not a URL.
pub fn url_from_remote_url(url: &str) -> (r: Result<String, OxenError>)
    ensures
        r is Err <==> !url_ok(url@),
        r matches Ok(u) ==> u@ == url_with_path_of(url@, API_NAMESPACE@ + url_path_of(url@)),
        r matches Err(e) ==> e is InvalidInput,
{
    let path = match parse_url_path(url) {
        Some(p) => p,
        None => {
            return Err(OxenError::InvalidInput(url.to_owned()));
        },
    };
    let mut np: Vec<char> = Vec::new();
    push_chars(&mut np, API_NAMESPACE);
    crate::chars::push_string(&mut np, &path);
    let new_path = chars_to_string(&np);
    match parse_url_with_path(url, new_path.as_str()) {
        Some(o) => Ok(o),
        None => Err(OxenError::InvalidInput(url.to_owned())),
    }
}

/// The API URL for a request against a remote: the remote's root, the API
/// namespace, the remote's path, then the request path. Fails exactly when
/// the remote's URL does not parse.
pub fn url_from_remote(remote: &Remote, uri: &str) -> (r: Result<String, OxenError>)
    ensures
        r is Err <==> !url_ok(remote.url@),
        r matches Ok(u) ==> u@ == url_root_of(remote.url@).drop_last() + API_NAMESPACE@
            + url_path_of(remote.url@) + uri@,
        r matches Err(e) ==> e is InvalidInput,
{
    let root = match parse_url_root(remote.url.as_str()) {
        Some(p) => p,
        None => {
            return Err(OxenError::InvalidInput(uri.to_owned()));
        },
    };
    let path = match parse_url_path(remote.url.as_str()) {
        Some(p) => p,
        None => {
            return Err(OxenError::InvalidInput(uri.to_owned()));
        },
    };
    // The serialization carries a trailing slash on the cleared path; drop
    // it before appending the namespace and paths.
    let mut out = crate::chars::str_chars(root.as_str());
    out.pop();
    proof {
        assert(out@ =~= url_root_of(remote.url@).drop_last());
    }
    push_chars(&mut out, API_NAMESPACE);
    crate::chars::push_string(&mut out, &path);
    push_chars(&mut out, uri);
    proof {
        assert(out@ =~= url_root_of(remote.url@).drop_last() + API_NAMESPACE@ + url_path_of(
            remote.url@,
        ) + uri@);
    }
    Ok(chars_to_string(&out))
}

/// The API URL for a request against a hosted repository's remote.
pub fn url_from_repo(repo: &RemoteRepository, uri: &str) -> (r: Result<String, OxenError>)
    ensures
        r is Err <==> !url_ok(repo.remote.url@),
        r matches Ok(u) ==> u@ == url_root_of(repo.remote.url@).drop_last() + API_NAMESPACE@
            + url_path_of(repo.remote.url@) + uri@,
        r matches Err(e) ==> e is InvalidInput,
{
    url_from_remote(&repo.remote, uri)
}

} // verus!
