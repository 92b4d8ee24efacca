use vstd::prelude::*;

use vstd::string::StringExecFns;

verus! {

/// A name/value pair of a resolved request or response: a header, a query
/// or form parameter, or a cookie literal.
#[derive(Debug)]
pub struct HttpPair {
    pub name: String,
    pub value: String,
}

/// A fully resolved request, ready to hand to the transport.
#[derive(Debug)]
pub struct HttpRequest {
    pub method: String,
    pub url: String,
    pub headers: Vec<HttpPair>,
    pub querystring: Vec<HttpPair>,
    pub form: Vec<HttpPair>,
    pub multipart: Vec<HttpPair>,
    pub cookies: Vec<HttpPair>,
    pub content_type: Option<String>,
}

/// What came back from the transport.
#[derive(Debug)]
pub struct HttpResponse {
    pub status: u32,
    pub headers: Vec<HttpPair>,
    pub body: String,
}

/// A transport-level failure; its detail may be empty when the transport
/// supplies none.
#[derive(Debug)]
pub struct ConnectionFailure {
    pub message: String,
}

/// A cookie-store entry, shaped after the Netscape cookie-file fields.
#[derive(Debug)]
pub struct Cookie {
    pub domain: String,
    pub include_subdomain: String,
    pub path: String,
    pub https: String,
    pub expires: String,
    pub name: String,
    pub value: String,
}

/// The tab-separated cookie-file rendering of a cookie.
pub open spec fn cookie_line_of(c: Cookie) -> Seq<char> {
    c.domain@ + "\t"@ + c.include_subdomain@ + "\t"@ + c.path@ + "\t"@ + c.https@ + "\t"@
        + c.expires@ + "\t"@ + c.name@ + "\t"@ + c.value@
}

impl Cookie {
    /// Render this cookie as one cookie-file line.
    pub fn to_line(&self) -> (r: String)
        ensures
            r@ == cookie_line_of(*self),
    {
        let mut s = self.domain.clone();
        s.append("\t");
        s.append(self.include_subdomain.as_str());
        s.append("\t");
        s.append(self.path.as_str());
        s.append("\t");
        s.append(self.https.as_str());
        s.append("\t");
        s.append(self.expires.as_str());
        s.append("\t");
        s.append(self.name.as_str());
        s.append("\t");
        s.append(self.value.as_str());
        s
    }
}

/// The host part of a URL text, when the text parses as a URL with a host:
/// a function of the text alone.
pub uninterp spec fn host_of(s: Seq<char>) -> Option<Seq<char>>;

/// Relies on url::Url::parse and url::Url::host_str: parsing is a pure
/// function of the text, and `host_str` returns the parsed host, if any.
#[verifier::external_body]
pub(crate) fn url_host(s: &str) -> (r: Option<String>)
    ensures
        r is Some <==> host_of(s@) is Some,
        r matches Some(h) ==> h@ == host_of(s@)->Some_0,
{
    match url::Url::parse(s) {
        Ok(u) => u.host_str().map(|h| h.to_string()),
        Err(_) => None,
    }
}

} // verus!
