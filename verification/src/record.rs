//! Issues and comments as they are read from the store.

use vstd::prelude::*;
use crate::error::FsError;

verus! {

/// `std::time::SystemTime`, carried through the library as an opaque value.
#[verifier::external_type_specification]
#[verifier::external_body]
pub struct ExSystemTime(std::time::SystemTime);

/// `Clone::clone` of `std::time::SystemTime`, a `Copy` type: the clone is the
/// same point in time.
pub assume_specification[ <std::time::SystemTime as Clone>::clone ](
    t: &std::time::SystemTime,
) -> (c: std::time::SystemTime)
    ensures
        c == *t,
;

/// What reading one file of the store gives: its text and the times that the
/// file system keeps for it.
#[derive(Debug, Clone)]
pub struct FileRead {
    pub created: std::time::SystemTime,
    pub modified: std::time::SystemTime,
    pub content: String,
}

/// A comment of an issue.
#[derive(Debug, Clone)]
pub struct Comment {
    pub issue_id: u32,
    pub comment_id: u32,
    pub created: std::time::SystemTime,
    pub modified: std::time::SystemTime,
    pub content: String,
}

/// An issue, with its first comment as content.
#[derive(Debug, Clone)]
pub struct Issue {
    pub issue_id: u32,
    pub created: std::time::SystemTime,
    pub modified: std::time::SystemTime,
    /// the first comment
    pub content: String,
}

/// How the attempt to read one file of the store ended.
#[derive(Debug)]
pub enum Probe {
    /// There is no such file.
    Missing,
    /// The file system refused for another reason.
    Failed(std::io::Error),
    /// The file was read.
    Found(FileRead),
}

/// Whether `err` says that the file does not exist: whether
/// `std::io::Error::kind` gives `ErrorKind::NotFound` for it.
pub uninterp spec fn open_error_is_missing(err: std::io::Error) -> bool;

/// Calls `std::io::Error::kind` on `err` and tells whether the kind is
/// `ErrorKind::NotFound`. The kind of an error depends on the error alone;
/// the answer is `open_error_is_missing(err)`.
#[verifier::external_body]
fn is_not_found(err: &std::io::Error) -> (missing: bool)
    ensures
        missing == open_error_is_missing(*err),
{
    match err.kind() {
        std::io::ErrorKind::NotFound => true,
        _ => false,
    }
}

/// The outcome that stands for a failed attempt to open a file, given
/// whether the failure says that the file does not exist.
pub fn failed_open(missing: bool, err: std::io::Error) -> (p: Probe)
    ensures
        p == (if missing { Probe::Missing } else { Probe::Failed(err) }),
{
    if missing {
        Probe::Missing
    } else {
        Probe::Failed(err)
    }
}

/// The outcome that stands for the attempt to open a file that failed with
/// `err`: the file is missing where `err` says that it does not exist, and
/// else the attempt failed with `err`.
pub fn probe_of_open_error(err: std::io::Error) -> (p: Probe)
    ensures
        p == (if open_error_is_missing(err) {
            Probe::Missing
        } else {
            Probe::Failed(err)
        }),
{
    let missing = is_not_found(&err);
    failed_open(missing, err)
}

/// The issue that a read of its first comment shows.
pub open spec fn issue_of(issue_id: u32, file: FileRead) -> Issue {
    Issue { issue_id, created: file.created, modified: file.modified, content: file.content }
}

/// The comment that a read of its file shows.
pub open spec fn comment_of(issue_id: u32, comment_id: u32, file: FileRead) -> Comment {
    Comment {
        issue_id,
        comment_id,
        created: file.created,
        modified: file.modified,
        content: file.content,
    }
}

/// The element that an enumeration of issues yields for one identifier:
/// nothing where the file is missing, the failure where the read failed,
/// else the issue.
pub open spec fn issue_entry_of(issue_id: u32, probe: Probe) -> Option<Result<Issue, FsError>> {
    match probe {
        Probe::Missing => None,
        Probe::Failed(err) => Some(Err(FsError::Io(err))),
        Probe::Found(file) => Some(Ok(issue_of(issue_id, file))),
    }
}

/// The element that an enumeration of comments yields for one identifier.
pub open spec fn comment_entry_of(issue_id: u32, comment_id: u32, probe: Probe) -> Option<
    Result<Comment, FsError>,
> {
    match probe {
        Probe::Missing => None,
        Probe::Failed(err) => Some(Err(FsError::Io(err))),
        Probe::Found(file) => Some(Ok(comment_of(issue_id, comment_id, file))),
    }
}

/// What an enumeration of issues yields for `issue_id`.
pub fn issue_entry(issue_id: u32, probe: Probe) -> (e: Option<Result<Issue, FsError>>)
    ensures
        e == issue_entry_of(issue_id, probe),
{
    match probe {
        Probe::Missing => None,
        Probe::Failed(err) => Some(Err(FsError::Io(err))),
        Probe::Found(file) => Some(
            Ok(
                Issue {
                    issue_id,
                    created: file.created,
                    modified: file.modified,
                    content: file.content,
                },
            ),
        ),
    }
}

/// What an enumeration of the comments of `issue_id` yields for `comment_id`.
pub fn comment_entry(issue_id: u32, comment_id: u32, probe: Probe) -> (e: Option<
    Result<Comment, FsError>,
>)
    ensures
        e == comment_entry_of(issue_id, comment_id, probe),
{
    match probe {
        Probe::Missing => None,
        Probe::Failed(err) => Some(Err(FsError::Io(err))),
        Probe::Found(file) => Some(
            Ok(
                Comment {
                    issue_id,
                    comment_id,
                    created: file.created,
                    modified: file.modified,
                    content: file.content,
                },
            ),
        ),
    }
}

} // verus!
