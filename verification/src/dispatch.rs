use vstd::prelude::*;
use vstd::string::StringExecFns;
use crate::error::ExecutionError;
use crate::strings::{dec_str, str_eq, str_chars, u32_to_string};
use crate::value::pairs_view;

verus! {

// ------------------------------------------------------------------
// URLs and requests
// ------------------------------------------------------------------
/// The parts of an absolute URL, as plain values.
#[derive(Debug, Clone)]
pub struct UrlParts {
    pub scheme: String,
    pub host: String,
    /// The port, when it is not the scheme's default.
    pub port: Option<u16>,
    pub path: String,
    pub query: Option<String>,
}

/// The mathematical value of a URL.
pub struct UrlModel {
    pub scheme: Seq<char>,
    pub host: Seq<char>,
    pub port: Option<u16>,
    pub path: Seq<char>,
    pub query: Option<Seq<char>>,
}

/// The model of URL parts.
pub open spec fn url_view(u: UrlParts) -> UrlModel {
    UrlModel {
        scheme: u.scheme@,
        host: u.host@,
        port: u.port,
        path: u.path@,
        query: match u.query {
            Some(q) => Some(q@),
            None => None,
        },
    }
}

/// The string form of a URL: `scheme://host[:port]path[?query]`.
pub open spec fn url_str_model(u: UrlModel) -> Seq<char> {
    u.scheme + "://"@ + u.host + (match u.port {
        Some(p) => ":"@ + dec_str(p as nat),
        None => Seq::empty(),
    }) + u.path + (match u.query {
        Some(q) => "?"@ + q,
        None => Seq::empty(),
    })
}

/// An outgoing request descriptor: method, URL, headers, all plain values.
#[derive(Debug, Clone)]
pub struct HttpRequest {
    pub method: String,
    pub url: UrlParts,
    pub headers: Vec<(String, String)>,
}

/// The mathematical value of a request descriptor.
pub struct ReqModel {
    pub method: Seq<char>,
    pub url: UrlModel,
    pub headers: Seq<(Seq<char>, Seq<char>)>,
}

/// The model of a request.
pub open spec fn req_view(r: HttpRequest) -> ReqModel {
    ReqModel { method: r.method@, url: url_view(r.url), headers: pairs_view(r.headers@) }
}

/// `headers` with every `name` entry removed and one `name: value` entry
/// appended.
pub open spec fn drop_header(
    headers: Seq<(Seq<char>, Seq<char>)>,
    name: Seq<char>,
) -> Seq<(Seq<char>, Seq<char>)> {
    headers.filter(|p: (Seq<char>, Seq<char>)| p.0 != name)
}

pub open spec fn spec_set_header(
    headers: Seq<(Seq<char>, Seq<char>)>,
    name: Seq<char>,
    value: Seq<char>,
) -> Seq<(Seq<char>, Seq<char>)> {
    drop_header(headers, name).push((name, value))
}

impl HttpRequest {
    /// A GET request for the given URL, with no headers.
    pub fn get(url: UrlParts) -> (r: HttpRequest)
        ensures
            r.method@ == "GET"@,
            req_view(r).url == url_view(url),
            r.headers@.len() == 0,
    {
        HttpRequest { method: "GET".to_owned(), url, headers: Vec::new() }
    }

    /// The default fragment request template: GET to `http://localhost/`.
    pub fn default_template() -> (r: HttpRequest)
        ensures
            req_view(r) == spec_default_template(),
    {
        let url = UrlParts {
            scheme: "http".to_owned(),
            host: "localhost".to_owned(),
            port: None,
            path: "/".to_owned(),
            query: None,
        };
        let r = HttpRequest { method: "GET".to_owned(), url, headers: Vec::new() };
        proof {
            assert(req_view(r).headers =~= spec_default_template().headers);
        }
        r
    }

    /// The URL of the request as a string.
    pub fn url_str(&self) -> (r: String)
        ensures
            r@ == url_str_model(url_view(self.url)),
    {
        let mut out = self.url.scheme.clone();
        out.append("://");
        out.append(self.url.host.as_str());
        match self.url.port {
            Some(p) => {
                out.append(":");
                let digits = u32_to_string(p as u32);
                out.append(digits.as_str());
            },
            None => {},
        }
        out.append(self.url.path.as_str());
        match &self.url.query {
            Some(q) => {
                out.append("?");
                out.append(q.as_str());
            },
            None => {},
        }
        proof {
            assert(out@ =~= url_str_model(url_view(self.url)));
        }
        out
    }

    /// A copy of the request with the same model.
    pub fn clone_request(&self) -> (r: HttpRequest)
        ensures
            req_view(r) == req_view(*self),
    {
        let url = UrlParts {
            scheme: self.url.scheme.clone(),
            host: self.url.host.clone(),
            port: self.url.port,
            path: self.url.path.clone(),
            query: match &self.url.query {
                Some(q) => Some(q.clone()),
                None => None,
            },
        };
        let mut headers: Vec<(String, String)> = Vec::new();
        let n = self.headers.len();
        let ghost hv = pairs_view(self.headers@);
        let mut i: usize = 0;
        while i < n
            invariant
                n == self.headers@.len(),
                hv == pairs_view(self.headers@),
                0 <= i <= n,
                pairs_view(headers@) =~= hv.subrange(0, i as int),
            decreases n - i,
        {
            let key = self.headers[i].0.clone();
            let val = self.headers[i].1.clone();
            let ghost hbefore = headers@;
            headers.push((key, val));
            proof {
                assert(key@ == self.headers@[i as int].0@);
                assert(val@ == self.headers@[i as int].1@);
                assert(pairs_view(hbefore) == hv.subrange(0, i as int));
                assert(pairs_view(hbefore).len() == hbefore.len());
                assert(hbefore.len() == i);
                assert(headers@ == hbefore.push((key, val)));
                assert forall|j: int| 0 <= j < i + 1 implies pairs_view(headers@)[j]
                    == #[trigger] hv.subrange(0, i + 1)[j] by {
                    assert(headers@.len() == i + 1);
                    if j < i {
                        assert(hbefore.push((key, val))[j] == hbefore[j]);
                        assert(pairs_view(hbefore)[j] == hv.subrange(0, i as int)[j]);
                    } else {
                        assert(hbefore.push((key, val))[j] == (key, val));
                        assert(hv[j] == (self.headers@[j].0@, self.headers@[j].1@));
                    }
                }
                assert(pairs_view(headers@) =~= hv.subrange(0, i + 1));
            }
            i = i + 1;
        }
        proof {
            assert(hv.subrange(0, n as int) =~= hv);
        }
        let r = HttpRequest { method: self.method.clone(), url, headers };
        proof {
            assert(req_view(r).url == req_view(*self).url);
        }
        r
    }

    /// Replaces the `name` header with the given value.
    pub fn set_header(&mut self, name: &str, value: &str)
        ensures
            final(self).method == old(self).method,
            final(self).url == old(self).url,
            pairs_view(final(self).headers@) == spec_set_header(
                pairs_view(old(self).headers@),
                name@,
                value@,
            ),
    {
        let mut kept: Vec<(String, String)> = Vec::new();
        let n = self.headers.len();
        let ghost hv = pairs_view(self.headers@);
        proof {
            reveal(Seq::filter);
            assert(drop_header(hv.subrange(0, 0), name@) =~= pairs_view(kept@));
        }
        let mut i: usize = 0;
        while i < n
            invariant
                n == self.headers@.len(),
                hv == pairs_view(self.headers@),
                0 <= i <= n,
                pairs_view(kept@) == drop_header(hv.subrange(0, i as int), name@),
            decreases n - i,
        {
            proof {
                reveal(Seq::filter);
                let prefix1 = hv.subrange(0, i + 1);
                assert(prefix1.drop_last() =~= hv.subrange(0, i as int));
                assert(prefix1.last() == hv[i as int]);
            }
            let ghost kept0 = pairs_view(kept@);
            if !str_eq(self.headers[i].0.as_str(), name) {
                kept.push((self.headers[i].0.clone(), self.headers[i].1.clone()));
                proof {
                    assert(pairs_view(kept@) =~= kept0.push(hv[i as int]));
                }
            }
            proof {
                assert(pairs_view(kept@) =~= drop_header(hv.subrange(0, i + 1), name@));
            }
            i = i + 1;
        }
        kept.push((name.to_owned(), value.to_owned()));
        proof {
            assert(hv.subrange(0, n as int) =~= hv);
        }
        let ghost keptv = kept@;
        self.headers = kept;
        proof {
            assert(pairs_view(self.headers@) =~= spec_set_header(hv, name@, value@));
        }
    }
}

/// The request `process_document` clones when no template was given:
/// GET to `http://localhost/` with no headers.
pub open spec fn spec_default_template() -> ReqModel {
    ReqModel {
        method: "GET"@,
        url: UrlModel {
            scheme: "http"@,
            host: "localhost"@,
            port: None,
            path: "/"@,
            query: None,
        },
        headers: Seq::empty(),
    }
}

// ------------------------------------------------------------------
// Trusted leaves
// ------------------------------------------------------------------
/// What XML-unescaping a string yields: entity references resolved, or
/// nothing when a reference is malformed. A function of the string alone.
pub uninterp spec fn xml_unescaped(s: Seq<char>) -> Option<Seq<char>>;

/// Relies on quick-xml's `unescape`: predefined and numeric entity
/// references resolved, an error on a malformed or unknown reference, and
/// a string holding no `&` returned unchanged.
#[verifier::external_body]
fn unescape_exec(s: &str) -> (r: Option<String>)
    ensures
        r matches Some(t) ==> xml_unescaped(s@) == Some(t@) && (!s@.contains('&') ==> t@ == s@),
        r is None ==> xml_unescaped(s@) is None && s@.contains('&'),
{
    match quick_xml::escape::unescape(s) {
        Ok(t) => Some(t.into_owned()),
        Err(_) => None,
    }
}

/// What parsing an absolute URL yields: its scheme, host, port, path and
/// query, or nothing when the string is not an absolute URL with a host.
/// A function of the string alone.
pub uninterp spec fn parsed_url(s: Seq<char>) -> Option<UrlModel>;

/// Relies on the url crate's `Url::parse` with the accessors `scheme`,
/// `host_str`, `port`, `path` and `query`: the normalised parts of the
/// URL. A URL without a host is treated as unparseable.
#[verifier::external_body]
fn parse_url_exec(s: &str) -> (r: Option<UrlParts>)
    ensures
        r matches Some(p) ==> parsed_url(s@) == Some(url_view(p)),
        r is None ==> parsed_url(s@) is None,
{
    let u = url::Url::parse(s).ok()?;
    let host = u.host_str()?.to_string();
    let query = match u.query() {
        Some(q) => Some(q.to_string()),
        None => None,
    };
    let scheme = u.scheme().to_string();
    let path = u.path().to_string();
    Some(UrlParts { scheme, host, port: u.port(), path, query })
}

// ------------------------------------------------------------------
// Building fragment requests
// ------------------------------------------------------------------
/// The errors the engine can meet, as mathematical values.
pub enum EM {
    Xml(Seq<char>),
    MissingParam(Seq<char>, Seq<char>),
    UnexpectedClose(Seq<char>),
    UnexpectedOpen(Seq<char>),
    InvalidUrl(Seq<char>),
    Request(Seq<char>),
    Status(Seq<char>, u16),
    Writer(Seq<char>),
}

/// The model of an execution error.
pub open spec fn err_view(e: ExecutionError) -> EM {
    match e {
        ExecutionError::XmlParseError(m) => EM::Xml(m@),
        ExecutionError::MissingRequiredParameter(t, p) => EM::MissingParam(t@, p@),
        ExecutionError::UnexpectedClosingTag(t) => EM::UnexpectedClose(t@),
        ExecutionError::UnexpectedOpeningTag(t) => EM::UnexpectedOpen(t@),
        ExecutionError::InvalidRequestUrl(u) => EM::InvalidUrl(u@),
        ExecutionError::RequestError(m) => EM::Request(m@),
        ExecutionError::UnexpectedStatus(u, s) => EM::Status(u@, s),
        ExecutionError::WriterError(m) => EM::Writer(m@),
    }
}

/// What `build_fragment_request` produces: the template with its URL
/// rewritten to the (optionally unescaped) fragment URL — path and query
/// only when the fragment URL is relative — and its `host` header set to
/// the resulting host. Unparseable URLs give `InvalidUrl`.
pub open spec fn spec_build_request(req: ReqModel, url: Seq<char>, is_escaped: bool) -> Result<
    ReqModel,
    EM,
> {
    let unescaped = if is_escaped {
        xml_unescaped(url)
    } else {
        Some(url)
    };
    match unescaped {
        None => Err(EM::InvalidUrl(url)),
        Some(u) => if u.len() > 0 && u[0] == '/' {
            match parsed_url(req.url.scheme + "://0.0.0.0"@ + u) {
                None => Err(EM::InvalidUrl(u)),
                Some(pu) => {
                    let nu = UrlModel {
                        scheme: req.url.scheme,
                        host: req.url.host,
                        port: req.url.port,
                        path: pu.path,
                        query: pu.query,
                    };
                    Ok(
                        ReqModel {
                            method: req.method,
                            url: nu,
                            headers: spec_set_header(req.headers, "host"@, req.url.host),
                        },
                    )
                },
            }
        } else {
            match parsed_url(u) {
                None => Err(EM::InvalidUrl(u)),
                Some(pu) => Ok(
                    ReqModel {
                        method: req.method,
                        url: pu,
                        headers: spec_set_header(req.headers, "host"@, pu.host),
                    },
                ),
            }
        },
    }
}

/// Builds the request for one fragment from the template request and the
/// tag's URL: a relative URL rewrites the template's path and query, an
/// absolute URL replaces it, and the `host` header follows the result.
pub fn build_fragment_request(request: HttpRequest, url: &str, is_escaped: bool) -> (r: Result<
    HttpRequest,
    ExecutionError,
>)
    ensures
        match r {
            Ok(req) => spec_build_request(req_view(request), url@, is_escaped) == Ok::<
                ReqModel,
                EM,
            >(req_view(req)),
            Err(e) => spec_build_request(req_view(request), url@, is_escaped) == Err::<
                ReqModel,
                EM,
            >(err_view(e)),
        },
{
    let escaped_url: String = if is_escaped {
        match unescape_exec(url) {
            Some(u) => u,
            None => {
                return Err(ExecutionError::InvalidRequestUrl(url.to_owned()));
            },
        }
    } else {
        url.to_owned()
    };
    let is_relative = {
        let chars = str_chars(escaped_url.as_str());
        chars.len() > 0 && chars[0] == '/'
    };
    let mut request = request;
    if is_relative {
        let mut probe = request.url.scheme.clone();
        probe.append("://0.0.0.0");
        probe.append(escaped_url.as_str());
        match parse_url_exec(probe.as_str()) {
            Some(pu) => {
                let host = request.url.host.clone();
                request.url.path = pu.path;
                request.url.query = pu.query;
                request.set_header("host", host.as_str());
                Ok(request)
            },
            None => Err(ExecutionError::InvalidRequestUrl(escaped_url)),
        }
    } else {
        match parse_url_exec(escaped_url.as_str()) {
            Some(pu) => {
                let host = pu.host.clone();
                request.url = pu;
                request.set_header("host", host.as_str());
                Ok(request)
            },
            None => Err(ExecutionError::InvalidRequestUrl(escaped_url)),
        }
    }
}

} // verus!
