//! Reading the CalDAV server address.
use vstd::prelude::*;

use crate::config::NetworkError;

verus! {

/// The scheme, the authority (if any) and the path of a URI as `fluent_uri::Uri::parse`
/// finds them, or `None` when the text is not a URI.
pub uninterp spec fn uri_parts(text: Seq<char>) -> Option<(Seq<char>, Option<Seq<char>>, Seq<char>)>;

/// The text a URI starts with: scheme, ':', then '//' and the authority when there is one,
/// then the path.
pub open spec fn uri_head(scheme: Seq<char>, authority: Option<Seq<char>>, path: Seq<char>) -> Seq<char> {
    scheme + ":"@ + (match authority {
        Some(a) => "//"@ + a,
        None => Seq::empty(),
    }) + path
}

pub open spec fn opt_view(o: Option<String>) -> Option<Seq<char>> {
    match o {
        Some(s) => Some(s@),
        None => None,
    }
}

/// Parses a URI with `fluent_uri::Uri::parse` and returns its scheme, authority and path
/// as strings (`Uri::scheme`, `Uri::authority`, `Uri::path`, each `as_str`). The parts are
/// named, not spelled out; the contract also states that the text begins with them in
/// the order RFC 3986 gives (`scheme ":" ["//" authority] path`), which is how the crate
/// slices them out of the input.
#[verifier::external_body]
pub fn parse_uri(text: &str) -> (r: Option<(String, Option<String>, String)>)
    ensures
        r is Some <==> uri_parts(text@) is Some,
        r matches Some(p) ==> uri_parts(text@) == Some((p.0@, opt_view(p.1), p.2@)),
        r matches Some(p) ==> text@.len() >= uri_head(p.0@, opt_view(p.1), p.2@).len()
            && text@.take(uri_head(p.0@, opt_view(p.1), p.2@).len() as int) == uri_head(p.0@, opt_view(p.1), p.2@),
{
    match fluent_uri::Uri::parse(text) {
        Ok(uri) => Some((
            uri.scheme().as_str().to_string(),
            uri.authority().map(|a| a.as_str().to_string()),
            uri.path().as_str().to_string(),
        )),
        Err(_) => None,
    }
}

/// Where to send the credential check for a server address: the origin
/// "scheme://authority" and the path, "/" when the address has none.
pub open spec fn spec_request_target(scheme: Seq<char>, authority: Option<Seq<char>>, path: Seq<char>) -> (Seq<char>, Seq<char>) {
    (
        scheme + "://"@ + (match authority {
            Some(a) => a,
            None => Seq::empty(),
        }),
        if path.len() == 0 { "/"@ } else { path },
    )
}

/// The origin and path to check CalDAV credentials against, or `WrongUrl` when the
/// address is not a URI.
pub fn credentials_target(url: &str) -> (r: Result<(String, String), NetworkError>)
    ensures
        uri_parts(url@) is None ==> r == Err::<(String, String), NetworkError>(NetworkError::WrongUrl),
        uri_parts(url@) matches Some(p) ==> r matches Ok(t) && (t.0@, t.1@) == spec_request_target(p.0, p.1, p.2),
{
    let parts = match parse_uri(url) {
        Some(p) => p,
        None => {
            return Err(NetworkError::WrongUrl);
        },
    };
    let (scheme, authority, path) = parts;
    let mut origin = scheme;
    origin.append("://");
    match &authority {
        Some(a) => origin.append(a.as_str()),
        None => {},
    }
    let target_path = if path.as_str().is_empty() {
        String::from_str("/")
    } else {
        path
    };
    proof {
        reveal_strlit("/");
    }
    Ok((origin, target_path))
}

/// When the address has an authority and a path, the origin and the path sent for the credential check
/// are, put together, the beginning of the address (any query or fragment is dropped).
pub proof fn lemma_target_is_address_head(url: Seq<char>, scheme: Seq<char>, authority: Option<Seq<char>>, path: Seq<char>)
    requires
        path.len() > 0,
        authority is Some,
        url.len() >= uri_head(scheme, authority, path).len(),
        url.take(uri_head(scheme, authority, path).len() as int) == uri_head(scheme, authority, path),
    ensures
        ({
            let t = spec_request_target(scheme, authority, path);
            url.take((t.0 + t.1).len() as int) == t.0 + t.1
        }),
{
    let t = spec_request_target(scheme, authority, path);
    reveal_strlit("://");
    reveal_strlit(":");
    reveal_strlit("//");
    let a = authority->0;
    assert("://"@ =~= ":"@ + "//"@);
    assert(t.0 + t.1 =~= scheme + ":"@ + ("//"@ + a) + path);
    assert(t.0 + t.1 =~= uri_head(scheme, authority, path));
}

} // verus!
