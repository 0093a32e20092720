//! Explicit host seams for Java ME's external connection services.
//!
//! Old games commonly probe GCF HTTP or JSR-120 SMS. Device support and host
//! permission are two separate facts: [`ConnectorFragment`] records what the
//! selected phone exposed, while a caller-supplied [`ServiceBackend`] is the
//! only code allowed to perform an external action. The default backend
//! denies everything, so merely recovering a game can never replay an
//! obsolete telemetry request or send a message.

use vstd::prelude::*;
use crate::device::{lists_text, same_text, ConnectorFragment};
use crate::input::preset::{ascii_lowercase, ascii_lowercase_spec};
use crate::platform::PlatformError;
use crate::text::{debug_quoted, debug_text, str_chars, text_of};

verus! {

#[derive(Debug, Clone, PartialEq, Eq)]
pub struct HttpRequest {
    pub url: String,
    pub method: String,
    pub headers: Vec<(String, String)>,
    pub body: Vec<u8>,
}

impl HttpRequest {
    pub fn new(url: &str, method: &str) -> (r: Self)
        ensures
            r.url@ == url@,
            r.method@ == method@,
            r.headers@.len() == 0,
            r.body@.len() == 0,
    {
        HttpRequest { url: String::from_str(url), method: String::from_str(method), headers: Vec::new(), body: Vec::new() }
    }
}

#[derive(Debug, Clone, PartialEq, Eq)]
pub struct HttpResponse {
    pub status: u16,
    pub headers: Vec<(String, String)>,
    pub body: Vec<u8>,
}

#[derive(Debug, Clone, PartialEq, Eq)]
pub struct SmsRequest {
    /// Exact GCF connection URL, normally `sms://<number>`.
    pub connection_url: String,
    pub payload: String,
}

/// The code a host supplies to perform external actions.
pub trait ServiceBackend {
    fn execute_http(&mut self, request: &HttpRequest) -> Result<HttpResponse, PlatformError>;

    fn send_sms(&mut self, request: &SmsRequest) -> Result<(), PlatformError>;
}

/// Safe backend for preservation tools, tests, and hosts that have not
/// exposed an explicit user-controlled external-services policy.
#[derive(Debug, Default, Clone, Copy)]
pub struct DisabledServices;

impl ServiceBackend for DisabledServices {
    fn execute_http(&mut self, _request: &HttpRequest) -> (r: Result<HttpResponse, PlatformError>) {
        Err(PlatformError::Service(String::from_str("HTTP backend is disabled by host policy")))
    }

    fn send_sms(&mut self, _request: &SmsRequest) -> (r: Result<(), PlatformError>) {
        Err(PlatformError::Service(String::from_str("SMS backend is disabled by host policy")))
    }
}

/// Whether `c` may appear in a URI scheme.
pub open spec fn scheme_char(c: char) -> bool {
    ('a' <= c <= 'z') || ('A' <= c <= 'Z') || ('0' <= c <= '9') || c == '+' || c == '-' || c == '.'
}

/// The index of the first `':'` in `s`, from `i` on.
pub open spec fn colon_at(s: Seq<char>, i: int) -> Option<int>
    decreases s.len() - i,
{
    if i < 0 || i >= s.len() {
        None
    } else if s[i] == ':' {
        Some(i)
    } else {
        colon_at(s, i + 1)
    }
}

/// A connection name's URI scheme, lowercased, or the refusal message.
pub open spec fn scheme_spec(url: Seq<char>) -> Result<Seq<char>, Seq<char>> {
    match colon_at(url, 0) {
        None => Err("connection name has no URI scheme: "@ + debug_text(url)),
        Some(k) => {
            let scheme = url.subrange(0, k);
            if scheme.len() == 0 || exists|i: int| 0 <= i < scheme.len() && !scheme_char(#[trigger] scheme[i]) {
                Err("connection name has an invalid URI scheme: "@ + debug_text(url))
            } else {
                Ok(ascii_lowercase_spec(scheme))
            }
        },
    }
}

fn connection_scheme(url: &str) -> (r: Result<Vec<char>, PlatformError>)
    ensures
        match scheme_spec(url@) {
            Ok(s) => r matches Ok(v) && v@ == s,
            Err(m) => r matches Err(PlatformError::Service(e)) && e@ == m,
        },
{
    let chars = str_chars(url);
    let mut k: usize = 0;
    while k < chars.len() && chars[k] != ':'
        invariant
            chars@ == url@,
            k <= chars@.len(),
            colon_at(url@, 0) == colon_at(url@, k as int),
        decreases chars@.len() - k,
    {
        k += 1;
    }
    if k == chars.len() {
        let mut m = String::from_str("connection name has no URI scheme: ");
        let q = debug_quoted(url);
        m.append(q.as_str());
        return Err(PlatformError::Service(m));
    }
    let ghost scheme = url@.subrange(0, k as int);
    let mut ok = k > 0;
    let mut i: usize = 0;
    while i < k && ok
        invariant
            chars@ == url@,
            k < chars@.len(),
            scheme == url@.subrange(0, k as int),
            colon_at(url@, 0) == Some(k as int),
            i <= k,
            ok == (k > 0),
            forall|j: int| 0 <= j < i ==> scheme_char(#[trigger] scheme[j]),
        decreases k - i,
    {
        let c = chars[i];
        if !(('a' <= c && c <= 'z') || ('A' <= c && c <= 'Z') || ('0' <= c && c <= '9') || c == '+' || c == '-'
            || c == '.') {
            assert(!scheme_char(scheme[i as int]));
            let mut m = String::from_str("connection name has an invalid URI scheme: ");
            let q = debug_quoted(url);
            m.append(q.as_str());
            return Err(PlatformError::Service(m));
        }
        i += 1;
    }
    if !ok {
        let mut m = String::from_str("connection name has an invalid URI scheme: ");
        let q = debug_quoted(url);
        m.append(q.as_str());
        return Err(PlatformError::Service(m));
    }
    Ok(ascii_lowercase(&chars, 0, k))
}

/// Why the gates refuse an HTTP request before the backend sees it, if
/// they do: a bad or non-HTTP scheme, a scheme the device lacks, or a method
/// other than `GET`, `POST` and `HEAD`.
pub open spec fn http_refusal(capabilities: ConnectorFragment, url: Seq<char>, method: Seq<char>) -> Option<
    Seq<char>,
> {
    match scheme_spec(url) {
        Err(m) => Some(m),
        Ok(scheme) => if !(scheme == "http"@ || scheme == "https"@) {
            Some(debug_text(scheme) + " is not an HttpConnection scheme"@)
        } else if !lists_text(capabilities.schemes@, scheme) {
            Some("selected device profile does not expose Connector scheme "@ + debug_text(scheme))
        } else if !(method == "GET"@ || method == "POST"@ || method == "HEAD"@) {
            Some("unsupported HttpConnection request method "@ + debug_text(method))
        } else {
            None
        },
    }
}

/// Why the gates refuse an SMS before the backend sees it, if they do: a bad
/// or non-SMS scheme, or a device without SMS.
pub open spec fn sms_refusal(capabilities: ConnectorFragment, url: Seq<char>) -> Option<Seq<char>> {
    match scheme_spec(url) {
        Err(m) => Some(m),
        Ok(scheme) => if scheme != "sms"@ {
            Some(debug_text(scheme) + " is not a MessageConnection SMS scheme"@)
        } else if !lists_text(capabilities.schemes@, scheme) {
            Some("selected device profile does not expose Connector scheme "@ + debug_text(scheme))
        } else {
            None
        },
    }
}

/// The runtime that gates external actions on the device's capabilities
/// before handing them to the host's backend.
pub struct ServiceRuntime<B> {
    capabilities: ConnectorFragment,
    backend: B,
}

impl<B: ServiceBackend> ServiceRuntime<B> {
    pub closed spec fn exposed(&self) -> ConnectorFragment {
        self.capabilities
    }

    pub closed spec fn host(&self) -> B {
        self.backend
    }

    pub fn new(capabilities: ConnectorFragment, backend: B) -> (r: Self)
        ensures
            r.exposed() == capabilities,
            r.host() == backend,
    {
        ServiceRuntime { capabilities, backend }
    }

    pub fn backend(&self) -> (r: &B)
        ensures
            *r == self.host(),
    {
        &self.backend
    }

    pub fn backend_mut(&mut self) -> (r: &mut B)
        ensures
            *r == old(self).host(),
            final(self).host() == *final(r),
            final(self).exposed() == old(self).exposed(),
    {
        &mut self.backend
    }

    fn require_capability(&self, scheme: &str) -> (r: Result<(), PlatformError>)
        ensures
            lists_text(self.exposed().schemes@, scheme@) ==> r is Ok,
            !lists_text(self.exposed().schemes@, scheme@) ==> (r matches Err(PlatformError::Service(m)) && m@
                == "selected device profile does not expose Connector scheme "@ + debug_text(scheme@)),
    {
        if self.capabilities.supports(scheme) {
            Ok(())
        } else {
            let mut m = String::from_str("selected device profile does not expose Connector scheme ");
            let q = debug_quoted(scheme);
            m.append(q.as_str());
            Err(PlatformError::Service(m))
        }
    }

    /// `HttpConnection`: the gates first, then the backend. A refused
    /// request never reaches the backend; an admitted one returns whatever
    /// the backend answers.
    pub fn execute_http(&mut self, request: &HttpRequest) -> (r: Result<HttpResponse, PlatformError>)
        ensures
            final(self).exposed() == old(self).exposed(),
            match http_refusal(old(self).exposed(), request.url@, request.method@) {
                Some(m) => (r matches Err(PlatformError::Service(e)) && e@ == m) && final(self).host() == old(
                    self,
                ).host(),
                None => true,
            },
    {
        let scheme_chars = match connection_scheme(request.url.as_str()) {
            Ok(s) => s,
            Err(e) => return Err(e),
        };
        let scheme = text_of(&scheme_chars);
        if !(same_text(scheme.as_str(), "http") || same_text(scheme.as_str(), "https")) {
            let mut m = debug_quoted(scheme.as_str());
            m.append(" is not an HttpConnection scheme");
            return Err(PlatformError::Service(m));
        }
        if let Err(e) = self.require_capability(scheme.as_str()) {
            return Err(e);
        }
        let method = request.method.as_str();
        if !(same_text(method, "GET") || same_text(method, "POST") || same_text(method, "HEAD")) {
            let mut m = String::from_str("unsupported HttpConnection request method ");
            let q = debug_quoted(method);
            m.append(q.as_str());
            return Err(PlatformError::Service(m));
        }
        self.backend.execute_http(request)
    }

    /// `MessageConnection` SMS: the gates first, then the backend.
    pub fn send_sms(&mut self, request: &SmsRequest) -> (r: Result<(), PlatformError>)
        ensures
            final(self).exposed() == old(self).exposed(),
            match sms_refusal(old(self).exposed(), request.connection_url@) {
                Some(m) => (r matches Err(PlatformError::Service(e)) && e@ == m) && final(self).host() == old(
                    self,
                ).host(),
                None => true,
            },
    {
        let scheme_chars = match connection_scheme(request.connection_url.as_str()) {
            Ok(s) => s,
            Err(e) => return Err(e),
        };
        let scheme = text_of(&scheme_chars);
        if !same_text(scheme.as_str(), "sms") {
            let mut m = debug_quoted(scheme.as_str());
            m.append(" is not a MessageConnection SMS scheme");
            return Err(PlatformError::Service(m));
        }
        if let Err(e) = self.require_capability(scheme.as_str()) {
            return Err(e);
        }
        self.backend.send_sms(request)
    }
}

} // verus!
