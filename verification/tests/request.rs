use requestr::error::Error;
use requestr::request::Mode;
use requestr::request::Request;
use requestr::request::RequestSpec;
use requestr::request::Setup;
use requestr::request::DEFAULT_METHOD;
use requestr::response::Downloaded;

fn owned(s: &str) -> String {
    s.to_string()
}

fn sealed(request: Request) -> RequestSpec {
    match request.perform::<u8>(true) {
        Setup::Ready { spec, continuation } => {
            assert!(!continuation.is_resolved());
            assert!(!continuation.is_abandoned());
            spec
        }
        Setup::Failed(error) => panic!("setup failed: {:?}", error),
    }
}

#[test]
fn new_request_has_the_defaults() {
    let spec = sealed(Request::new(owned("https://example.com/a/report.json"), true).unwrap());
    assert_eq!(spec.url(), "https://example.com/a/report.json");
    assert_eq!(DEFAULT_METHOD, "GET");
    assert_eq!(spec.method(), "GET");
    assert!(spec.headers().entries().is_empty());
    assert_eq!(spec.body(), None);
    assert_eq!(spec.file_name(), "report.json");
    assert_eq!(spec.mode(), Mode::Data);
}

#[test]
fn url_that_does_not_parse_is_refused() {
    match Request::new(owned("not a url"), false) {
        Err(error) => assert_eq!(error, Error::InvalidURL(owned("not a url"))),
        Ok(_) => panic!("the URL was taken"),
    }
}

#[test]
fn file_name_falls_back_where_the_url_offers_none() {
    let spec = sealed(Request::new(owned("https://example.com/"), true).unwrap());
    assert_eq!(spec.file_name(), "requestsr");
    let spec = sealed(Request::new(owned("https://example.com/a/"), true).unwrap());
    assert_eq!(spec.file_name(), "requestsr");
    let spec = sealed(Request::new(owned("https://sealedabstract.com"), true).unwrap());
    assert_eq!(spec.file_name(), "requestsr");
    let spec = sealed(Request::new(owned("https://example.com/a/?x=1"), true).unwrap());
    assert_eq!(spec.file_name(), "requestsr");
}

#[test]
fn file_name_leaves_out_the_query() {
    let spec = sealed(Request::new(owned("https://example.com/a/report.json?v=2"), true).unwrap());
    assert_eq!(spec.file_name(), "report.json");
    assert_eq!(spec.url(), "https://example.com/a/report.json?v=2");
}

#[test]
fn method_is_replaced() {
    let request = Request::new(owned("https://example.com/a"), true).unwrap();
    let spec = sealed(request.method(owned("POST")).method(owned("PUT")));
    assert_eq!(spec.method(), "PUT");
    assert_eq!(spec.url(), "https://example.com/a");
    assert_eq!(spec.file_name(), "a");
}

#[test]
fn body_is_kept() {
    let request = Request::new(owned("https://example.com/a"), true).unwrap();
    let spec = sealed(request.body(vec![1u8, 2, 3].into_boxed_slice()));
    assert_eq!(spec.body(), Some(&[1u8, 2, 3][..]));
    let request = Request::new(owned("https://example.com/a"), true).unwrap();
    let spec = sealed(
        request.body(vec![1u8].into_boxed_slice()).body(Vec::new().into_boxed_slice()),
    );
    assert_eq!(spec.body(), Some(&[][..]));
}

#[test]
fn headers_are_kept() {
    let request = Request::new(owned("https://sealedabstract.com"), true).unwrap();
    let spec = sealed(
        request
            .header(owned("Accept"), Some(owned("application/vnd.github.v3+json")))
            .header(owned("Authorization"), Some(owned("token foobar"))),
    );
    assert_eq!(
        spec.headers().get(&owned("Accept")),
        Some(&owned("application/vnd.github.v3+json"))
    );
    assert_eq!(spec.headers().get(&owned("Authorization")), Some(&owned("token foobar")));
    assert_eq!(spec.headers().entries().len(), 2);
    assert_eq!(spec.method(), "GET");
    assert_eq!(spec.body(), None);
}

#[test]
fn header_set_to_none_is_absent_from_the_sealed_request() {
    let request = Request::new(owned("https://example.com/a"), true).unwrap();
    let spec = sealed(
        request
            .header(owned("Accept"), Some(owned("text/plain")))
            .header(owned("Range"), Some(owned("bytes=0-9")))
            .header(owned("Accept"), None),
    );
    assert_eq!(spec.headers().get(&owned("Accept")), None);
    assert_eq!(spec.headers().get(&owned("Range")), Some(&owned("bytes=0-9")));
    assert_eq!(spec.headers().entries().len(), 1);
}

#[test]
fn later_header_value_replaces_the_earlier() {
    let request = Request::new(owned("https://example.com/a"), true).unwrap();
    let spec = sealed(
        request
            .header(owned("Accept"), Some(owned("text/plain")))
            .header(owned("Accept"), Some(owned("image/png"))),
    );
    assert_eq!(spec.headers().get(&owned("Accept")), Some(&owned("image/png")));
    assert_eq!(spec.headers().entries().len(), 1);
}

#[test]
fn perform_refuses_a_url_that_does_not_parse() {
    let request = Request::new(owned("not a url"), true).unwrap();
    match request.method(owned("POST")).perform::<u8>(false) {
        Setup::Failed(error) => assert_eq!(error, Error::InvalidURL(owned("not a url"))),
        Setup::Ready { .. } => panic!("the request was sealed"),
    }
}

#[test]
fn download_seals_for_a_file() {
    let request = Request::new(owned("https://sealedabstract.com/index.html"), true).unwrap();
    match request.header(owned("Accept"), Some(owned("text/html"))).download::<u8>(true) {
        Setup::Ready { spec, continuation } => {
            assert_eq!(spec.mode(), Mode::Download);
            assert_eq!(spec.file_name(), "index.html");
            assert_eq!(spec.url(), "https://sealedabstract.com/index.html");
            assert_eq!(spec.headers().get(&owned("Accept")), Some(&owned("text/html")));
            assert!(!continuation.is_resolved());
        }
        Setup::Failed(error) => panic!("setup failed: {:?}", error),
    }
}

#[test]
fn download_refuses_a_url_that_does_not_parse() {
    let request = Request::new(owned("not a url"), true).unwrap();
    let setup: Setup<Downloaded, u8> = request.download(false);
    match setup {
        Setup::Failed(error) => assert_eq!(error, Error::InvalidURL(owned("not a url"))),
        Setup::Ready { .. } => panic!("the request was sealed"),
    }
}
