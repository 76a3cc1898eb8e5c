//! The two shapes a finished request takes, and the classification of HTTP status codes.

use crate::error::Error;
use crate::error::NativeError;
use std::path::PathBuf;
use tempfile::TempDir;
use vstd::prelude::*;

verus! {

/// `tempfile::TempDir`, a temporary directory that belongs to the value: when the
/// value is dropped the directory is removed with all it holds, unless the value
/// was told to keep it, and a removal that fails goes unreported. The value is
/// carried as it is; nothing is claimed of what is inside it.
#[verifier::external_type_specification]
#[verifier::external_body]
pub struct ExTempDir(tempfile::TempDir);

/// `std::path::PathBuf`, an owned file-system path. The value is carried as it
/// is; nothing is claimed of what is inside it.
#[verifier::external_type_specification]
#[verifier::external_body]
pub struct ExPathBuf(std::path::PathBuf);

/// `PathBuf::clone`: the copy is the path that was copied.
pub assume_specification[ <std::path::PathBuf as Clone>::clone ](path: &std::path::PathBuf) -> (copy:
    std::path::PathBuf)
    ensures
        copy == *path,
;

/// Whether `status` lies in the success class of HTTP status codes.
pub open spec fn is_success(status: u16) -> bool {
    200 <= status <= 299
}

/// Decides whether a status code reports success.
pub fn status_is_success(status: u16) -> (success: bool)
    ensures
        success == is_success(status),
{
    200 <= status && status <= 299
}

/// The body of a response, as bytes.
#[derive(Debug)]
pub struct Data {
    bytes: Vec<u8>,
}

impl View for Data {
    type V = Seq<u8>;

    closed spec fn view(&self) -> Seq<u8> {
        self.bytes@
    }
}

impl Data {
    /// The bytes of the body.
    pub fn as_slice(&self) -> (bytes: &[u8])
        ensures
            bytes@ == self@,
    {
        self.bytes.as_slice()
    }
}

/// What a response is made of.
pub struct ResponseView {
    pub status: u16,
    pub body: Seq<u8>,
}

/// A response held in memory: the status code and the whole body.
#[derive(Debug)]
pub struct Response {
    status: u16,
    data: Data,
}

impl View for Response {
    type V = ResponseView;

    closed spec fn view(&self) -> ResponseView {
        ResponseView { status: self.status, body: self.data@ }
    }
}

impl Response {
    /// A response with the given status code and body.
    pub fn new(status: u16, body: Vec<u8>) -> (response: Response)
        ensures
            response@ == (ResponseView { status, body: body@ }),
    {
        Response { status, data: Data { bytes: body } }
    }

    /// What awaiting a request yields once the transport has completed: the
    /// response made of the status code and body it delivered, or its failure
    /// as an error of this library. The status code is not judged here.
    pub fn from_completion(completion: Result<(u16, Vec<u8>), NativeError>) -> (outcome: Result<
        Response,
        Error,
    >)
        ensures
            match completion {
                Ok((status, body)) => outcome is Ok && outcome->Ok_0@ == (ResponseView {
                    status,
                    body: body@,
                }),
                Err(native) => outcome == Err::<Response, Error>(Error::PlatformError(native)),
            },
    {
        match completion {
            Ok((status, body)) => Ok(Response::new(status, body)),
            Err(native) => Err(Error::from_native(native)),
        }
    }

    /// The body, whatever the status code.
    pub fn data(&self) -> (data: &Data)
        ensures
            data@ == self@.body,
    {
        &self.data
    }

    /// Sorts the response by its status code: the body alone where the code
    /// reports success, the code together with the body where it does not.
    pub fn check_status(&self) -> (checked: Result<&Data, (u16, &Data)>)
        ensures
            match checked {
                Ok(data) => is_success(self@.status) && data@ == self@.body,
                Err((status, data)) => !is_success(self@.status) && status == self@.status && data@
                    == self@.body,
            },
    {
        if status_is_success(self.status) {
            Ok(&self.data)
        } else {
            Err((self.status, &self.data))
        }
    }
}

/// A response streamed to a file in a temporary directory of its own.
///
/// The directory, and the file with it, is removed when this value is dropped.
#[derive(Debug)]
pub struct Downloaded {
    _tempfile: TempDir,
    pathbuf: PathBuf,
    code: u16,
}

impl Downloaded {
    /// The directory that holds the file.
    pub closed spec fn directory(&self) -> TempDir {
        self._tempfile
    }

    /// Where the file lies.
    pub closed spec fn path(&self) -> PathBuf {
        self.pathbuf
    }

    /// The status code the download ended with.
    pub closed spec fn status(&self) -> u16 {
        self.code
    }

    /// Takes ownership of the directory `dir` and records the file at `path_buf` in it.
    pub fn new(dir: TempDir, path_buf: PathBuf, code: u16) -> (artifact: Downloaded)
        ensures
            artifact.directory() == dir,
            artifact.path() == path_buf,
            artifact.status() == code,
    {
        Downloaded { _tempfile: dir, pathbuf: path_buf, code }
    }

    /// What awaiting a download yields once the transport has completed: the
    /// artifact it delivered, whatever its status code, or its failure as an
    /// error of this library.
    pub fn from_completion(completion: Result<Downloaded, NativeError>) -> (outcome: Result<
        Downloaded,
        Error,
    >)
        ensures
            outcome == match completion {
                Ok(artifact) => Ok::<Downloaded, Error>(artifact),
                Err(native) => Err::<Downloaded, Error>(Error::PlatformError(native)),
            },
    {
        match completion {
            Ok(artifact) => Ok(artifact),
            Err(native) => Err(Error::from_native(native)),
        }
    }

    /// A copy of the path of the file; the file itself is not copied.
    pub fn copy_path(&self) -> (path: PathBuf)
        ensures
            path == self.path(),
    {
        self.pathbuf.clone()
    }

    /// The path of the file, borrowed.
    pub fn as_path(&self) -> (path: &PathBuf)
        ensures
            *path == self.path(),
    {
        &self.pathbuf
    }

    /// Gives up the artifact for the directory that holds it, so that the
    /// caller can remove the directory itself and learn whether that worked.
    pub fn into_directory(self) -> (dir: TempDir)
        ensures
            dir == self.directory(),
    {
        self._tempfile
    }

    /// Fails with the status code where it lies outside the success class.
    pub fn check_status(&self) -> (checked: Result<(), Error>)
        ensures
            is_success(self.status()) ==> checked == Ok::<(), Error>(()),
            !is_success(self.status()) ==> checked == Err::<(), Error>(
                Error::StatusCode(self.status()),
            ),
    {
        if status_is_success(self.code) {
            Ok(())
        } else {
            Err(Error::StatusCode(self.code))
        }
    }
}

} // verus!
