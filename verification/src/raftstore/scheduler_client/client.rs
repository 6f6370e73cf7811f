use vstd::prelude::*;
use crate::cli::chars_of;

verus! {

broadcast use vstd::string::group_string_axioms;

/// The scheme given to a scheduler endpoint that names none.
pub open spec fn http_scheme() -> Seq<char> {
    seq!['h', 't', 't', 'p', ':', '/', '/']
}

/// The secure scheme, which an endpoint may name instead.
pub open spec fn https_scheme() -> Seq<char> {
    seq!['h', 't', 't', 'p', 's', ':', '/', '/']
}

/// Whether `url` starts with `http://` or `https://`.
pub open spec fn has_scheme(url: Seq<char>) -> bool {
    ||| (url.len() >= 7 && url.subrange(0, 7) == http_scheme())
    ||| (url.len() >= 8 && url.subrange(0, 8) == https_scheme())
}

/// `url` as the client dials it: unchanged when it names a scheme, else
/// with `http://` in front.
pub open spec fn normalized_endpoint(url: Seq<char>) -> Seq<char> {
    if has_scheme(url) {
        url
    } else {
        http_scheme() + url
    }
}

/// Normalizing twice gives what normalizing once gives: a normalized
/// endpoint names a scheme.
pub proof fn lemma_normalize_idempotent(url: Seq<char>)
    ensures
        has_scheme(normalized_endpoint(url)),
        normalized_endpoint(normalized_endpoint(url)) == normalized_endpoint(url),
{
    if !has_scheme(url) {
        assert((http_scheme() + url).subrange(0, 7) =~= http_scheme());
    }
}

/// Why a scheduler client cannot be set up.
#[derive(Debug, Clone, Copy, PartialEq, Eq, Structural)]
pub enum ClientError {
    /// No scheduler endpoint was given.
    EmptyEndpoints,
}

fn starts_with_scheme(url: &str) -> (r: bool)
    ensures
        r == has_scheme(url@),
{
    let cs = chars_of(url);
    let n: usize = cs.len();
    let http = n >= 7 && cs[0] == 'h' && cs[1] == 't' && cs[2] == 't' && cs[3] == 'p'
        && cs[4] == ':' && cs[5] == '/' && cs[6] == '/';
    let https = n >= 8 && cs[0] == 'h' && cs[1] == 't' && cs[2] == 't' && cs[3] == 'p'
        && cs[4] == 's' && cs[5] == ':' && cs[6] == '/' && cs[7] == '/';
    proof {
        let s = url@;
        if http {
            assert(s.subrange(0, 7) =~= http_scheme());
        }
        if https {
            assert(s.subrange(0, 8) =~= https_scheme());
        }
        if s.len() >= 7 && s.subrange(0, 7) == http_scheme() {
            assert(s.subrange(0, 7)[0] == s[0]);
            assert(s.subrange(0, 7)[1] == s[1]);
            assert(s.subrange(0, 7)[2] == s[2]);
            assert(s.subrange(0, 7)[3] == s[3]);
            assert(s.subrange(0, 7)[4] == s[4]);
            assert(s.subrange(0, 7)[5] == s[5]);
            assert(s.subrange(0, 7)[6] == s[6]);
        }
        if s.len() >= 8 && s.subrange(0, 8) == https_scheme() {
            assert(s.subrange(0, 8)[0] == s[0]);
            assert(s.subrange(0, 8)[1] == s[1]);
            assert(s.subrange(0, 8)[2] == s[2]);
            assert(s.subrange(0, 8)[3] == s[3]);
            assert(s.subrange(0, 8)[4] == s[4]);
            assert(s.subrange(0, 8)[5] == s[5]);
            assert(s.subrange(0, 8)[6] == s[6]);
            assert(s.subrange(0, 8)[7] == s[7]);
        }
    }
    http || https
}

/// `url` with `http://` in front unless it already names `http://` or
/// `https://`.
pub fn normalize_endpoint(url: String) -> (r: String)
    ensures
        r@ == normalized_endpoint(url@),
{
    if starts_with_scheme(url.as_str()) {
        url
    } else {
        let mut dialed = "http://".to_string();
        proof {
            reveal_strlit("http://");
            assert("http://"@ =~= http_scheme());
        }
        dialed.append(url.as_str());
        dialed
    }
}

/// The endpoint that a scheduler client connects to: the first one given,
/// normalized, or an error when none is given.
pub fn connect_endpoint(endpoints: Vec<String>) -> (r: Result<String, ClientError>)
    ensures
        endpoints@.len() == 0 <==> r == Err::<String, ClientError>(ClientError::EmptyEndpoints),
        endpoints@.len() > 0 ==> r is Ok && r->Ok_0@ == normalized_endpoint(endpoints@[0]@),
{
    let mut endpoints = endpoints;
    if endpoints.len() == 0 {
        return Err(ClientError::EmptyEndpoints);
    }
    let first = endpoints.swap_remove(0);
    Ok(normalize_endpoint(first))
}

} // verus!
