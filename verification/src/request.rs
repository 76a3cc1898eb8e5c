//! The request builder, and the sealed description of a request that it ends in.

use crate::continuation::fresh;
use crate::continuation::Continuation;
use crate::error::Error;
use crate::error::NativeError;
use crate::filename::derive_filename;
use crate::filename::derived_filename;
use crate::headers::updated;
use crate::headers::Headers;
use crate::response::Downloaded;
use vstd::prelude::*;

verus! {

/// The method of a request for which none was set.
pub const DEFAULT_METHOD: &'static str = "GET";

/// What a request is made of.
pub struct RequestView {
    /// The URL, as it was given.
    pub url: Seq<char>,
    /// The HTTP method.
    pub method: Seq<char>,
    /// The header fields: each name with its one value.
    pub headers: Map<Seq<char>, Seq<char>>,
    /// The body, if one was set.
    pub body: Option<Seq<u8>>,
}

/// The request that `Request::new` makes of a URL.
pub open spec fn initial(url: Seq<char>) -> RequestView {
    RequestView { url, method: DEFAULT_METHOD@, headers: Map::empty(), body: None }
}

/// How the transport is to hand over what it receives.
#[derive(Debug, Clone, Copy, PartialEq, Eq, Structural)]
pub enum Mode {
    /// The whole body is held in memory.
    Data,
    /// The body is streamed to a file.
    Download,
}

/// What a sealed request is made of.
pub struct SpecView {
    /// The request as it was built.
    pub request: RequestView,
    /// How the response is to be handed over.
    pub mode: Mode,
}

/// A request that is sealed: it says in full what the transport is to do, and
/// can no longer be changed.
#[derive(Debug)]
pub struct RequestSpec {
    request: Request,
    mode: Mode,
}

impl View for RequestSpec {
    type V = SpecView;

    closed spec fn view(&self) -> SpecView {
        SpecView { request: self.request@, mode: self.mode }
    }
}

impl RequestSpec {
    /// The URL.
    pub fn url(&self) -> (url: &String)
        ensures
            url@ == self@.request.url,
    {
        &self.request.url
    }

    /// The HTTP method.
    pub fn method(&self) -> (method: &String)
        ensures
            method@ == self@.request.method,
    {
        &self.request.method
    }

    /// The header fields.
    pub fn headers(&self) -> (headers: &Headers)
        ensures
            headers@ == self@.request.headers,
    {
        &self.request.headers
    }

    /// The body, if there is one.
    pub fn body(&self) -> (body: Option<&[u8]>)
        ensures
            match body {
                Some(bytes) => self@.request.body == Some(bytes@),
                None => self@.request.body is None,
            },
    {
        match &self.request.body {
            Some(bytes) => Some(&**bytes),
            None => None,
        }
    }

    /// The name under which a download is to be kept: the one derived from
    /// the URL.
    pub fn file_name(&self) -> (name: &String)
        ensures
            name@ == derived_filename(self@.request.url),
    {
        proof {
            use_type_invariant(&self.request);
        }
        &self.request.file_name
    }

    /// How the response is to be handed over.
    pub fn mode(&self) -> (mode: Mode)
        ensures
            mode == self@.mode,
    {
        self.mode
    }
}

/// How the synchronous part of a request ended.
#[derive(Debug)]
pub enum Setup<T, H> {
    /// The request is sealed. The transport is to be started on `spec`, the
    /// handle it returns offered to `continuation`, and its completion
    /// delivered there.
    Ready { spec: RequestSpec, continuation: Continuation<T, NativeError, H> },
    /// Nothing is to be started: whoever awaits the request gets this error.
    Failed(Error),
}

/// What sealing a request gives: the sealed request with a fresh continuation
/// where the URL parses, and `InvalidURL` with the URL where it does not.
pub open spec fn sealed<T, H>(
    request: RequestView,
    mode: Mode,
    url_parses: bool,
    setup: Setup<T, H>,
) -> bool {
    match setup {
        Setup::Ready { spec, continuation } => {
            &&& url_parses
            &&& spec@ == (SpecView { request, mode })
            &&& continuation@ == fresh::<T, NativeError, H>()
        },
        Setup::Failed(error) => {
            &&& !url_parses
            &&& error matches Error::InvalidURL(text)
            &&& text@ == request.url
        },
    }
}

/// A request under construction.
#[derive(Debug)]
pub struct Request {
    url: String,
    headers: Headers,
    body: Option<Box<[u8]>>,
    method: String,
    file_name: String,
}

impl View for Request {
    type V = RequestView;

    closed spec fn view(&self) -> RequestView {
        RequestView {
            url: self.url@,
            method: self.method@,
            headers: self.headers@,
            body: match self.body {
                Some(bytes) => Some(bytes@),
                None => None,
            },
        }
    }
}

impl Request {
    #[verifier::type_invariant]
    spec fn inv(self) -> bool {
        self.file_name@ == derived_filename(self.url@)
    }

    /// Begins a request for `url`, which the platform's URL parser has been
    /// asked about: `url_parses` is whether it took the text for a URL.
    ///
    /// The method is `GET`, there are no header fields and there is no body.
    pub fn new(url: String, url_parses: bool) -> (made: Result<Request, Error>)
        ensures
            url_parses ==> made is Ok && made->Ok_0@ == initial(url@),
            !url_parses ==> made == Err::<Request, Error>(Error::InvalidURL(url)),
    {
        if !url_parses {
            return Err(Error::InvalidURL(url));
        }
        let file_name = derive_filename(url.as_str());
        Ok(
            Request {
                url,
                headers: Headers::new(),
                body: None,
                method: DEFAULT_METHOD.to_owned(),
                file_name,
            },
        )
    }

    /// The URL the request is for.
    pub fn url(&self) -> (url: &String)
        ensures
            url@ == self@.url,
    {
        &self.url
    }

    /// Sets a header field, or removes it where `value` is `None`.
    pub fn header(self, key: String, value: Option<String>) -> (request: Request)
        ensures
            request@ == (RequestView {
                headers: updated(
                    self@.headers,
                    key@,
                    match value {
                        Some(v) => Some(v@),
                        None => None,
                    },
                ),
                ..self@
            }),
    {
        proof {
            use_type_invariant(&self);
        }
        Request {
            url: self.url,
            headers: self.headers.set(key, value),
            body: self.body,
            method: self.method,
            file_name: self.file_name,
        }
    }

    /// Sets the HTTP method.
    pub fn method(self, method: String) -> (request: Request)
        ensures
            request@ == (RequestView { method: method@, ..self@ }),
    {
        proof {
            use_type_invariant(&self);
        }
        Request {
            url: self.url,
            headers: self.headers,
            body: self.body,
            method,
            file_name: self.file_name,
        }
    }

    /// Sets the body.
    pub fn body(self, body: Box<[u8]>) -> (request: Request)
        ensures
            request@ == (RequestView { body: Some(body@), ..self@ }),
    {
        proof {
            use_type_invariant(&self);
        }
        Request {
            url: self.url,
            headers: self.headers,
            body: Some(body),
            method: self.method,
            file_name: self.file_name,
        }
    }

    /// Seals the request for the transport to carry out in the given mode.
    fn seal<T, H>(self, mode: Mode, url_parses: bool) -> (setup: Setup<T, H>)
        ensures
            sealed(self@, mode, url_parses, setup),
    {
        if url_parses {
            Setup::Ready { spec: RequestSpec { request: self, mode }, continuation: Continuation::new() }
        } else {
            Setup::Failed(Error::InvalidURL(self.url))
        }
    }

    /// The synchronous part of a request whose response is held in memory.
    ///
    /// The platform's URL parser has been asked again: `url_parses` is whether
    /// it took the URL. Where it did not, nothing is to be started.
    /// The continuation carries the status code and the body.
    pub fn perform<H>(self, url_parses: bool) -> (setup: Setup<(u16, Vec<u8>), H>)
        ensures
            sealed(self@, Mode::Data, url_parses, setup),
    {
        self.seal(Mode::Data, url_parses)
    }

    /// The synchronous part of a request whose response is streamed to a file.
    ///
    /// The platform's URL parser has been asked again: `url_parses` is whether
    /// it took the URL. Where it did not, nothing is to be started.
    /// The continuation carries the file, moved to a directory of its own.
    pub fn download<H>(self, url_parses: bool) -> (setup: Setup<Downloaded, H>)
        ensures
            sealed(self@, Mode::Download, url_parses, setup),
    {
        self.seal(Mode::Download, url_parses)
    }
}

} // verus!
