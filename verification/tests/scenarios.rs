use requestr::continuation::Continuation;
use requestr::continuation::Delivery;
use requestr::continuation::Disposal;
use requestr::error::Error;
use requestr::error::NativeError;
use requestr::request::Mode;
use requestr::request::Request;
use requestr::request::RequestSpec;
use requestr::request::Setup;
use requestr::response::Downloaded;
use requestr::response::Response;

/// A transport that completes every operation at once with what it was told to.
struct StubTransport {
    status: u16,
    body: Vec<u8>,
    failure: Option<NativeError>,
    started: Vec<String>,
    cancelled: Vec<usize>,
}

impl StubTransport {
    fn completing_with(status: u16, body: &[u8]) -> StubTransport {
        StubTransport {
            status,
            body: body.to_vec(),
            failure: None,
            started: Vec::new(),
            cancelled: Vec::new(),
        }
    }

    fn failing_with(failure: NativeError) -> StubTransport {
        StubTransport {
            status: 0,
            body: Vec::new(),
            failure: Some(failure),
            started: Vec::new(),
            cancelled: Vec::new(),
        }
    }

    fn start(&mut self, spec: &RequestSpec) -> usize {
        self.started.push(format!("{} {}", spec.method(), spec.url()));
        self.started.len() - 1
    }

    fn data(&self) -> Result<(u16, Vec<u8>), NativeError> {
        match &self.failure {
            Some(failure) => Err(failure.clone()),
            None => Ok((self.status, self.body.clone())),
        }
    }

    fn file(&self, spec: &RequestSpec) -> Result<Downloaded, NativeError> {
        match &self.failure {
            Some(failure) => Err(failure.clone()),
            None => {
                let dir = tempfile::tempdir().unwrap();
                let scratch = tempfile::NamedTempFile::new().unwrap();
                let path = dir.path().join(spec.file_name());
                scratch.persist(&path).unwrap();
                Ok(Downloaded::new(dir, path, self.status))
            }
        }
    }

    fn dispose(&mut self, disposal: Disposal<usize>) {
        if let Disposal::Cancel(handle) = disposal {
            self.cancelled.push(handle);
        }
    }
}

fn wait<T>(continuation: &mut Continuation<T, NativeError, usize>) -> Result<T, NativeError> {
    match continuation.poll() {
        Some(result) => result,
        None => panic!("nothing was delivered"),
    }
}

fn perform(request: Request, url_parses: bool, transport: &mut StubTransport) -> Result<Response, Error> {
    match request.perform(url_parses) {
        Setup::Failed(error) => Err(error),
        Setup::Ready { spec, mut continuation } => {
            assert_eq!(spec.mode(), Mode::Data);
            let handle = transport.start(&spec);
            assert_eq!(continuation.complete(transport.data()), Delivery::Resolved);
            transport.dispose(continuation.accept(handle));
            let outcome = Response::from_completion(wait(&mut continuation));
            transport.dispose(continuation.abandon());
            outcome
        }
    }
}

fn download(request: Request, url_parses: bool, transport: &mut StubTransport) -> Result<Downloaded, Error> {
    match request.download(url_parses) {
        Setup::Failed(error) => Err(error),
        Setup::Ready { spec, mut continuation } => {
            assert_eq!(spec.mode(), Mode::Download);
            let handle = transport.start(&spec);
            transport.dispose(continuation.accept(handle));
            assert_eq!(continuation.complete(transport.file(&spec)), Delivery::Resolved);
            let outcome = Downloaded::from_completion(wait(&mut continuation));
            transport.dispose(continuation.abandon());
            outcome
        }
    }
}

#[test]
fn status_200_yields_the_body() {
    let mut transport = StubTransport::completing_with(200, b"ok");
    let request = Request::new("https://example.com/a/b.txt".to_string(), true)
        .unwrap()
        .method("GET".to_string());
    let response = perform(request, true, &mut transport).unwrap();
    let data = response.check_status().unwrap();
    assert_eq!(data.as_slice(), b"ok");
    assert_eq!(transport.started, vec!["GET https://example.com/a/b.txt".to_string()]);
    assert!(transport.cancelled.is_empty());
}

#[test]
fn status_404_yields_the_status_and_the_body() {
    let mut transport = StubTransport::completing_with(404, b"not here");
    let request = Request::new("https://example.com/a/b.txt".to_string(), true)
        .unwrap()
        .method("GET".to_string());
    let response = perform(request, true, &mut transport).unwrap();
    match response.check_status() {
        Err((404, body)) => assert_eq!(body.as_slice(), b"not here"),
        other => panic!("a 404 was expected, not {:?}", other),
    }
    assert_eq!(transport.started.len(), 1);
}

#[test]
fn invalid_url_never_reaches_the_transport() {
    let mut transport = StubTransport::completing_with(200, b"ok");
    match Request::new("not a url".to_string(), false) {
        Err(error) => assert_eq!(error, Error::InvalidURL("not a url".to_string())),
        Ok(_) => panic!("the URL was taken"),
    }
    let request = Request::new("not a url".to_string(), true).unwrap();
    match perform(request, false, &mut transport) {
        Err(error) => assert_eq!(error, Error::InvalidURL("not a url".to_string())),
        Ok(_) => panic!("the request was performed"),
    }
    let request = Request::new("not a url".to_string(), true).unwrap();
    match download(request, false, &mut transport) {
        Err(error) => assert_eq!(error, Error::InvalidURL("not a url".to_string())),
        Ok(_) => panic!("the request was performed"),
    }
    assert!(transport.started.is_empty());
}

#[test]
fn transport_failure_is_passed_on() {
    let failure = NativeError { code: Some(-1001), description: "timed out".to_string() };
    let mut transport = StubTransport::failing_with(failure.clone());
    let request = Request::new("https://example.com/a/b.txt".to_string(), true).unwrap();
    match perform(request, true, &mut transport) {
        Err(error) => assert_eq!(error, Error::PlatformError(failure)),
        Ok(_) => panic!("a failure was expected"),
    }
    assert_eq!(transport.started.len(), 1);
}

#[test]
fn giving_up_in_flight_cancels_the_operation_once() {
    let mut transport = StubTransport::completing_with(200, b"ok");
    let request = Request::new("https://example.com/a/b.txt".to_string(), true).unwrap();
    match request.perform(true) {
        Setup::Ready { spec, mut continuation } => {
            let handle = transport.start(&spec);
            transport.dispose(continuation.accept(handle));
            assert_eq!(continuation.poll(), None);
            transport.dispose(continuation.abandon());
            assert_eq!(continuation.complete(transport.data()), Delivery::Discarded);
            transport.dispose(continuation.abandon());
            assert_eq!(transport.cancelled, vec![handle]);
        }
        Setup::Failed(error) => panic!("setup failed: {:?}", error),
    }
}

#[test]
fn request_github() {
    let mut transport = StubTransport::completing_with(200, b"{}");
    let r = Request::new("https://sealedabstract.com".to_string(), true).unwrap();
    let request = r
        .header("Accept".to_string(), Some("application/vnd.github.v3+json".to_string()))
        .header("Authorization".to_string(), Some("token foobar".to_string()));
    let result = perform(request, true, &mut transport);
    let response = result.unwrap();
    let data = response.check_status().unwrap();
    println!("{:?}", data);
}

#[test]
fn request_download() {
    let mut transport = StubTransport::completing_with(200, b"");
    let r = Request::new("https://sealedabstract.com/index.html".to_string(), true).unwrap();
    let result = download(r, true, &mut transport);
    let response = result.unwrap();
    println!("{:?}", response);
    assert!(response.copy_path().ends_with("index.html"));
    assert!(response.copy_path().is_file());
    assert_eq!(response.check_status(), Ok(()));
}

#[test]
fn download_with_status_404_is_still_an_artifact() {
    let mut transport = StubTransport::completing_with(404, b"");
    let r = Request::new("https://example.com/a/b.txt".to_string(), true).unwrap();
    let artifact = download(r, true, &mut transport).unwrap();
    let path = artifact.copy_path();
    assert!(path.is_file());
    assert_eq!(artifact.check_status(), Err(Error::StatusCode(404)));
    drop(artifact);
    assert!(!path.exists());
}
