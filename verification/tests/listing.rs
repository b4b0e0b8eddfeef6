use praia::error::FsError;
use praia::listing::{list_comments, list_issues};
use praia::record::{FileRead, Probe};
use std::io::{Error, ErrorKind};
use std::time::{Duration, SystemTime};

fn found(content: &str, secs: u64) -> Probe {
    let at = SystemTime::UNIX_EPOCH + Duration::from_secs(secs);
    Probe::Found(FileRead { created: at, modified: at, content: content.to_string() })
}

#[test]
fn listing_nothing_gives_nothing() {
    assert!(list_issues(Vec::new()).is_empty());
    assert!(list_comments(3, Vec::new()).is_empty());
    assert!(list_issues(vec![Probe::Missing, Probe::Missing]).is_empty());
}

#[test]
fn listing_issues_skips_the_deleted_one() {
    let got = list_issues(vec![found("zero", 1), Probe::Missing, found("two", 2)]);
    assert_eq!(got.len(), 2);
    let a = got[0].as_ref().unwrap();
    let b = got[1].as_ref().unwrap();
    assert_eq!((a.issue_id, a.content.as_str()), (0, "zero"));
    assert_eq!((b.issue_id, b.content.as_str()), (2, "two"));
    assert_eq!(a.created, SystemTime::UNIX_EPOCH + Duration::from_secs(1));
    assert_eq!(b.modified, SystemTime::UNIX_EPOCH + Duration::from_secs(2));
}

#[test]
fn listing_comments_keeps_order_and_failures() {
    let got = list_comments(
        4,
        vec![
            found("first", 1),
            Probe::Failed(Error::from(ErrorKind::PermissionDenied)),
            Probe::Missing,
            found("fourth", 4),
            Probe::Missing,
        ],
    );
    assert_eq!(got.len(), 3);
    let a = got[0].as_ref().unwrap();
    assert_eq!((a.issue_id, a.comment_id, a.content.as_str()), (4, 0, "first"));
    match &got[1] {
        Err(FsError::Io(err)) => assert_eq!(err.kind(), ErrorKind::PermissionDenied),
        _ => panic!("expected an i/o error"),
    }
    let c = got[2].as_ref().unwrap();
    assert_eq!((c.issue_id, c.comment_id, c.content.as_str()), (4, 3, "fourth"));
}
