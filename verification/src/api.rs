use vstd::prelude::*;
use vstd::string::StringExecFns;

use crate::version::Version;

verus! {

/// The scheme a request reached the service over.
#[derive(Clone, Copy, Debug, PartialEq, Eq, Structural)]
pub enum HttpProtocol {
    Http,
    Https,
}

/// The failure of reading a scheme name.
pub enum ProtoParseError {
    Unknown(String),
}

/// The scheme spelling of a protocol.
pub open spec fn spec_proto(p: HttpProtocol) -> Seq<char> {
    match p {
        HttpProtocol::Http => "http"@,
        HttpProtocol::Https => "https"@,
    }
}

impl HttpProtocol {
    /// Reads a scheme name; only "http" and "https" are accepted, and the
    /// rejection carries the offending spelling.
    pub fn parse(s: &str) -> (r: Result<HttpProtocol, ProtoParseError>)
        ensures
            s@ == "http"@ ==> r == Ok::<_, ProtoParseError>(HttpProtocol::Http),
            s@ == "https"@ ==> r == Ok::<_, ProtoParseError>(HttpProtocol::Https),
            s@ != "http"@ && s@ != "https"@ ==> (r matches Err(ProtoParseError::Unknown(u))
                && u@ == s@),
    {
        proof {
            reveal_strlit("http");
            reveal_strlit("https");
            assert("http"@.len() == 4);
            assert("https"@.len() == 5);
        }
        if crate::store::str_eq(s, "http") {
            Ok(HttpProtocol::Http)
        } else if crate::store::str_eq(s, "https") {
            Ok(HttpProtocol::Https)
        } else {
            Err(ProtoParseError::Unknown(s.to_owned()))
        }
    }

    /// The scheme spelling.
    pub fn as_str(&self) -> (r: &'static str)
        ensures
            r@ == spec_proto(*self),
    {
        match self {
            HttpProtocol::Http => "http",
            HttpProtocol::Https => "https",
        }
    }
}

/// The sparse-index configuration document: where archives are downloaded
/// from, where the API lives, and that every request must authenticate.
#[derive(Debug)]
pub struct Config {
    pub dl: String,
    pub api: String,
    pub auth_required: bool,
}

/// The download URL a configuration advertises.
pub open spec fn spec_config_dl(proto: HttpProtocol, host: Seq<char>) -> Seq<char> {
    ((spec_proto(proto) + "://"@) + host) + "/api/v1/crates"@
}

/// The API URL a configuration advertises.
pub open spec fn spec_config_api(proto: HttpProtocol, host: Seq<char>) -> Seq<char> {
    (spec_proto(proto) + "://"@) + host
}

impl Config {
    /// Builds the configuration advertised for one forwarded scheme and
    /// host: the download URL is the API URL extended by the crates route,
    /// and authentication is always required.
    pub fn new(proto: HttpProtocol, host: &str) -> (r: Config)
        ensures
            r.dl@ == spec_config_dl(proto, host@),
            r.api@ == spec_config_api(proto, host@),
            r.auth_required,
    {
        let mut api = proto.as_str().to_owned();
        api.append("://");
        api.append(host);
        let mut dl = api.clone();
        dl.append("/api/v1/crates");
        Config { dl, api, auth_required: true }
    }
}

/// A search query: the text looked for and the page size asked for.
#[derive(Debug)]
pub struct SearchCratesQuery {
    pub q: String,
    pub per_page: usize,
}

/// One search result: a crate, its best version and its description.
#[derive(Debug)]
pub struct QueriedPackage {
    pub name: String,
    pub max_version: Version,
    pub description: String,
}

/// The caller identity a token resolves to.
#[derive(Debug)]
pub struct RegistryUser {
    pub id: u32,
    pub login: String,
    pub name: String,
}

/// The warnings a publish response carries.
#[derive(Debug)]
pub struct PostIndexWarnings {
    pub invalid_categories: Vec<String>,
    pub invalid_badges: Vec<String>,
    pub other: Vec<String>,
}

/// The body of a successful publish response.
#[derive(Debug)]
pub struct PostIndexResponse {
    pub warnings: PostIndexWarnings,
}

/// The raw bearer token of a request's authorization header.
#[derive(Debug)]
pub struct RawAuthorization {
    value: String,
}

impl RawAuthorization {
    /// Wraps a bearer token.
    pub fn new(value: String) -> (r: RawAuthorization)
        ensures
            r@ == value@,
    {
        RawAuthorization { value }
    }

    /// The token text.
    pub fn value(&self) -> (r: &str)
        ensures
            r@ == self@,
    {
        self.value.as_str()
    }
}

impl View for RawAuthorization {
    type V = Seq<char>;

    closed spec fn view(&self) -> Seq<char> {
        self.value@
    }
}

impl Clone for RawAuthorization {
    /// Cloning keeps the token text.
    fn clone(&self) -> (r: Self)
        ensures
            r@ == self@,
    {
        RawAuthorization { value: self.value.clone() }
    }
}

/// A header that may be absent.
pub struct OptionalHeader<T>(pub Option<T>);

/// A header parsed by this library's own rules rather than a framework's.
pub struct CustomTypedHeader<T>(pub T);

/// The forwarded host name set by a proxy.
pub struct XForwardedHost(pub String);

/// The forwarded scheme set by a proxy.
pub struct XForwardedProto(pub String);

} // verus!
