use praia::error::FsError;
use praia::record::{comment_entry, issue_entry, probe_of_open_error, Comment, FileRead, Issue, Probe};
use praia::scan::ScanEntry;
use praia::store::{FsDb, IndexSource, IssueWork};
use std::io::{Error, ErrorKind};
use std::time::{Duration, SystemTime};

fn file(content: &str, secs: u64) -> FileRead {
    let at = SystemTime::UNIX_EPOCH + Duration::from_secs(secs);
    FileRead { created: at, modified: at, content: content.to_string() }
}

fn lines_of(text: &[u8]) -> (String, Vec<String>) {
    let text = String::from_utf8(text.to_vec()).unwrap();
    assert!(text.ends_with('\n'));
    let mut lines: Vec<String> = text.lines().map(|l| l.to_string()).collect();
    let first = lines.remove(0);
    lines.sort();
    (first, lines)
}

fn saved(count: &str, entries: &[&str]) -> (String, Vec<String>) {
    let mut lines: Vec<String> = entries.iter().map(|l| l.to_string()).collect();
    lines.sort();
    (count.to_string(), lines)
}

fn empty_store() -> FsDb {
    FsDb::new(IndexSource::Scan(Vec::new())).unwrap()
}

fn list_issues(db: &FsDb, mut probes: Vec<Probe>) -> Vec<Result<Issue, FsError>> {
    let mut range = db.get_issues();
    let mut out = Vec::new();
    probes.reverse();
    while let Some(id) = range.next_id() {
        if let Some(entry) = issue_entry(id, probes.pop().unwrap()) {
            out.push(entry);
        }
    }
    assert!(probes.is_empty());
    out
}

fn list_comments(db: &FsDb, issue_id: u32, mut probes: Vec<Probe>) -> Vec<Result<Comment, FsError>> {
    let mut range = db.get_issue_comments(issue_id).unwrap();
    let mut out = Vec::new();
    probes.reverse();
    while let Some(id) = range.next_id() {
        if let Some(entry) = comment_entry(issue_id, id, probes.pop().unwrap()) {
            out.push(entry);
        }
    }
    assert!(probes.is_empty());
    out
}

#[test]
fn empty_root_opens_with_no_issues() {
    let db = empty_store();
    assert_eq!(db.next_issue_id(), 0);
    assert!(matches!(db.next_comment_id(0), Err(FsError::NoIssue(0))));
    assert_eq!(db.save_index(), b"0\n".to_vec());
}

#[test]
fn issue_ids_count_up_from_zero() {
    let mut db = empty_store();
    assert_eq!(db.new_issue(), 0);
    assert_eq!(db.new_comment(0).unwrap(), 1);
    assert_eq!(db.new_issue(), 1);
    assert_eq!(db.new_comment(1).unwrap(), 1);
    assert_eq!(db.new_comment(0).unwrap(), 2);
    assert_eq!(db.new_issue(), 2);
    assert_eq!(db.new_issue(), 3);
    assert_eq!(db.next_issue_id(), 4);
}

#[test]
fn comment_ids_count_up_from_one() {
    let mut db = empty_store();
    let issue = db.new_issue();
    assert_eq!(db.next_comment_id(issue).unwrap(), 1);
    for k in 1..20u32 {
        assert_eq!(db.next_comment_id(issue).unwrap(), k);
        assert_eq!(db.new_comment(issue).unwrap(), k);
    }
    assert_eq!(db.next_comment_id(issue).unwrap(), 20);
}

#[test]
fn comment_on_unknown_issue_is_refused() {
    let mut db = empty_store();
    db.new_issue();
    assert!(matches!(db.new_comment(7), Err(FsError::NoIssue(7))));
    assert!(matches!(db.next_comment_id(1), Err(FsError::NoIssue(1))));
    assert!(matches!(db.get_issue_comments(3), Err(FsError::NoIssue(3))));
    assert_eq!(db.next_issue_id(), 1);
    assert_eq!(db.save_index(), b"1\n0 1\n".to_vec());
}

#[test]
fn missing_comment_is_an_error() {
    let r = FsDb::get_issue_comment(0, 9, Err(Error::from(ErrorKind::NotFound)));
    match r {
        Err(FsError::Io(err)) => assert_eq!(err.kind(), ErrorKind::NotFound),
        _ => panic!("expected an i/o error"),
    }
    let r = FsDb::get_issue(4, Err(Error::from(ErrorKind::NotFound)));
    assert!(matches!(r, Err(FsError::Io(_))));
}

#[test]
fn single_reads_build_the_record() {
    let issue = FsDb::get_issue(3, Ok(file("hello", 10))).unwrap();
    assert_eq!(issue.issue_id, 3);
    assert_eq!(issue.content, "hello");
    assert_eq!(issue.created, SystemTime::UNIX_EPOCH + Duration::from_secs(10));
    assert_eq!(issue.modified, issue.created);
    let comment = FsDb::get_issue_comment(3, 2, Ok(file("world", 11))).unwrap();
    assert_eq!(comment.issue_id, 3);
    assert_eq!(comment.comment_id, 2);
    assert_eq!(comment.content, "world");
    assert_eq!(comment.created, SystemTime::UNIX_EPOCH + Duration::from_secs(11));
    let copy = comment.clone();
    assert_eq!(copy.created, comment.created);
    assert_eq!(copy.content, "world");
}

#[test]
fn save_then_load_keeps_the_counters() {
    let mut db = empty_store();
    db.new_issue();
    db.new_issue();
    db.new_comment(1).unwrap();
    db.new_comment(1).unwrap();
    db.new_issue();
    db.new_comment(0).unwrap();
    let text = db.save_index();
    assert_eq!(lines_of(&text), saved("3", &["0 2", "1 3", "2 1"]));
    let again = FsDb::new(IndexSource::File(text)).unwrap();
    assert_eq!(again.next_issue_id(), 3);
    assert_eq!(again.next_comment_id(0).unwrap(), 2);
    assert_eq!(again.next_comment_id(1).unwrap(), 3);
    assert_eq!(again.next_comment_id(2).unwrap(), 1);
    assert!(matches!(again.next_comment_id(3), Err(FsError::NoIssue(3))));
    assert_eq!(lines_of(&again.save_index()), saved("3", &["0 2", "1 3", "2 1"]));
}

#[test]
fn enumeration_passes_over_gaps() {
    let mut db = empty_store();
    db.new_issue();
    db.new_issue();
    db.new_issue();
    let got = list_issues(
        &db,
        vec![Probe::Found(file("a", 1)), Probe::Missing, Probe::Found(file("c", 3))],
    );
    assert_eq!(got.len(), 2);
    let first = got[0].as_ref().unwrap();
    let second = got[1].as_ref().unwrap();
    assert_eq!((first.issue_id, first.content.as_str()), (0, "a"));
    assert_eq!((second.issue_id, second.content.as_str()), (2, "c"));
}

#[test]
fn enumeration_reports_other_failures_and_goes_on() {
    let mut db = empty_store();
    db.new_issue();
    db.new_issue();
    let got = list_issues(
        &db,
        vec![
            probe_of_open_error(Error::from(ErrorKind::PermissionDenied)),
            Probe::Found(file("b", 2)),
        ],
    );
    assert_eq!(got.len(), 2);
    match &got[0] {
        Err(FsError::Io(err)) => assert_eq!(err.kind(), ErrorKind::PermissionDenied),
        _ => panic!("expected an i/o error"),
    }
    assert_eq!(got[1].as_ref().unwrap().issue_id, 1);
}

#[test]
fn open_errors_are_told_apart() {
    assert!(matches!(probe_of_open_error(Error::from(ErrorKind::NotFound)), Probe::Missing));
    assert!(matches!(
        probe_of_open_error(Error::from(ErrorKind::PermissionDenied)),
        Probe::Failed(_)
    ));
    assert!(matches!(praia::record::failed_open(true, Error::from(ErrorKind::Other)), Probe::Missing));
    assert!(matches!(
        praia::record::failed_open(false, Error::from(ErrorKind::NotFound)),
        Probe::Failed(_)
    ));
}

#[test]
fn hello_world_scenario() {
    let mut db = empty_store();
    assert_eq!(db.next_issue_id(), 0);
    assert_eq!(db.new_issue(), 0);
    assert_eq!(db.next_comment_id(0).unwrap(), 1);
    assert_eq!(db.new_comment(0).unwrap(), 1);
    let issue = FsDb::get_issue(0, Ok(file("hello", 5))).unwrap();
    assert_eq!(issue.content, "hello");
    let got = list_comments(
        &db,
        0,
        vec![Probe::Found(file("hello", 5)), Probe::Found(file("world", 6))],
    );
    let replies: Vec<&Comment> =
        got.iter().map(|r| r.as_ref().unwrap()).filter(|c| c.comment_id >= 1).collect();
    assert_eq!(replies.len(), 1);
    assert_eq!(replies[0].comment_id, 1);
    assert_eq!(replies[0].content, "world");
    assert_eq!(got.len(), 2);
    assert_eq!(got[0].as_ref().unwrap().comment_id, 0);
    assert_eq!(got[0].as_ref().unwrap().content, "hello");
}

#[test]
fn id_range_is_finite_and_ordered() {
    let mut db = empty_store();
    db.new_issue();
    db.new_comment(0).unwrap();
    db.new_comment(0).unwrap();
    let mut range = db.get_issue_comments(0).unwrap();
    assert_eq!(range.next_id(), Some(0));
    assert_eq!(range.next_id(), Some(1));
    assert_eq!(range.next_id(), Some(2));
    assert_eq!(range.next_id(), None);
    assert_eq!(range.next_id(), None);
    let mut none = empty_store().get_issues();
    assert_eq!(none.next_id(), None);
}

#[test]
fn open_from_scan_takes_the_largest_names() {
    let entries = vec![
        ScanEntry { name: b"2".to_vec(), comments: vec![b"0".to_vec(), b"5".to_vec(), b"1".to_vec()] },
        ScanEntry { name: b"index.txt".to_vec(), comments: Vec::new() },
        ScanEntry { name: b"0".to_vec(), comments: vec![b"0".to_vec()] },
    ];
    let db = FsDb::new(IndexSource::Scan(entries)).unwrap();
    assert_eq!(db.next_issue_id(), 3);
    assert_eq!(db.next_comment_id(2).unwrap(), 6);
    assert_eq!(db.next_comment_id(0).unwrap(), 1);
    assert!(matches!(db.next_comment_id(1), Err(FsError::NoIssue(1))));
    assert_eq!(lines_of(&db.save_index()), saved("3", &["2 6", "0 1"]));
}

#[test]
fn open_from_scan_refuses_other_names() {
    let bad_root = vec![ScanEntry { name: b"notes".to_vec(), comments: Vec::new() }];
    assert!(matches!(FsDb::new(IndexSource::Scan(bad_root)), Err(FsError::BadDb)));
    let bad_comment = vec![ScanEntry { name: b"0".to_vec(), comments: vec![b"0".to_vec(), b"x".to_vec()] }];
    assert!(matches!(FsDb::new(IndexSource::Scan(bad_comment)), Err(FsError::BadDb)));
    let nested_index = vec![ScanEntry { name: b"0".to_vec(), comments: vec![b"index.txt".to_vec()] }];
    assert!(matches!(FsDb::new(IndexSource::Scan(nested_index)), Err(FsError::BadDb)));
    let too_large = vec![ScanEntry { name: b"4294967295".to_vec(), comments: Vec::new() }];
    assert!(matches!(FsDb::new(IndexSource::Scan(too_large)), Err(FsError::BadDb)));
    let largest = vec![ScanEntry { name: b"4294967294".to_vec(), comments: Vec::new() }];
    let db = FsDb::new(IndexSource::Scan(largest)).unwrap();
    assert_eq!(db.next_issue_id(), 4294967295);
    assert_eq!(db.next_comment_id(4294967294).unwrap(), 0);
}

#[test]
fn open_from_file_refuses_malformed_text() {
    let bad: Vec<&[u8]> = vec![
        b"",
        b"\n",
        b"x\n",
        b"-1\n",
        b"4294967296\n",
        b"1\n0\n",
        b"1\n0 1 2\n",
        b"1\n0 1 \n",
        b"1\n 0 1\n",
        b"1\n0  1\n",
        b"1\n\n",
        b"1\n0 x\n",
        b"1\n0 1\n\n",
        b"1 2\n",
    ];
    for text in bad {
        let r = FsDb::new(IndexSource::File(text.to_vec()));
        assert!(matches!(r, Err(FsError::BadIndex)), "{:?}", text);
    }
}

#[test]
fn open_from_file_accepts_what_the_number_parser_accepts() {
    let db = FsDb::new(IndexSource::File(b"+7 \t\r\n003 +4\r\n5 6".to_vec())).unwrap();
    assert_eq!(db.next_issue_id(), 7);
    assert_eq!(db.next_comment_id(3).unwrap(), 4);
    assert_eq!(db.next_comment_id(5).unwrap(), 6);
    let wide = "2\u{3000}\u{a0}\n1 9\u{2003}\u{1680}\n";
    let db = FsDb::new(IndexSource::File(wide.as_bytes().to_vec())).unwrap();
    assert_eq!(db.next_issue_id(), 2);
    assert_eq!(db.next_comment_id(1).unwrap(), 9);
    let db = FsDb::new(IndexSource::File(b"4294967295".to_vec())).unwrap();
    assert_eq!(db.next_issue_id(), 4294967295);
}

#[test]
fn later_line_of_an_issue_wins() {
    let db = FsDb::new(IndexSource::File(b"2\n1 3\n0 1\n1 8\n".to_vec())).unwrap();
    assert_eq!(db.next_comment_id(1).unwrap(), 8);
    assert_eq!(lines_of(&db.save_index()), saved("2", &["1 8", "0 1"]));
}

#[test]
fn errors_say_what_failed() {
    assert_eq!(FsError::BadIndex.message(), "index corrupted");
    assert_eq!(FsError::BadDb.message(), "db corrupted");
    assert_eq!(FsError::NoIssue(0).message(), "issue 0 not found");
    assert_eq!(FsError::NoIssue(4294967295).message(), "issue 4294967295 not found");
    assert_eq!(FsError::NoIssue(1207).message(), "issue 1207 not found");
    let err = Error::new(ErrorKind::Other, "disk on fire");
    assert_eq!(FsError::Io(err).message(), "disk on fire");
}

#[test]
fn a_directory_that_cannot_be_made_uses_no_identifier() {
    let mut db = empty_store();
    let r = db.finish_issue(IssueWork::NoDirectory(Error::from(ErrorKind::AlreadyExists)));
    match r {
        Err(FsError::Io(err)) => assert_eq!(err.kind(), ErrorKind::AlreadyExists),
        _ => panic!("expected an i/o error"),
    }
    assert_eq!(db.next_issue_id(), 0);
    assert!(matches!(db.next_comment_id(0), Err(FsError::NoIssue(0))));
    assert_eq!(db.save_index(), b"0\n".to_vec());
    assert_eq!(db.finish_issue(IssueWork::Done).unwrap(), 0);
    assert_eq!(db.finish_issue(IssueWork::Done).unwrap(), 1);
    assert_eq!(lines_of(&db.save_index()), saved("2", &["0 1", "1 1"]));
}

#[test]
fn a_first_comment_that_cannot_be_written_uses_the_identifier() {
    let mut db = empty_store();
    let r = db.finish_issue(IssueWork::NoContent(Error::from(ErrorKind::PermissionDenied)));
    match r {
        Err(FsError::Io(err)) => assert_eq!(err.kind(), ErrorKind::PermissionDenied),
        _ => panic!("expected an i/o error"),
    }
    assert_eq!(db.next_issue_id(), 1);
    assert_eq!(db.next_comment_id(0).unwrap(), 1);
    assert_eq!(db.finish_issue(IssueWork::Done).unwrap(), 1);
}

#[test]
fn a_comment_is_recorded_only_once_written() {
    let mut db = empty_store();
    db.finish_issue(IssueWork::Done).unwrap();
    let r = db.finish_comment(0, Err(Error::from(ErrorKind::AlreadyExists)));
    match r {
        Err(FsError::Io(err)) => assert_eq!(err.kind(), ErrorKind::AlreadyExists),
        _ => panic!("expected an i/o error"),
    }
    assert_eq!(db.next_comment_id(0).unwrap(), 1);
    assert_eq!(db.finish_comment(0, Ok(())).unwrap(), 1);
    assert_eq!(db.finish_comment(0, Ok(())).unwrap(), 2);
    assert_eq!(db.next_comment_id(0).unwrap(), 3);
    assert!(matches!(db.finish_comment(4, Ok(())), Err(FsError::NoIssue(4))));
    assert!(matches!(
        db.finish_comment(4, Err(Error::from(ErrorKind::NotFound))),
        Err(FsError::NoIssue(4))
    ));
    assert_eq!(db.next_issue_id(), 1);
    assert_eq!(db.save_index(), b"1\n0 3\n".to_vec());
}

#[test]
fn only_a_missing_file_is_passed_over() {
    let kinds = [
        ErrorKind::PermissionDenied,
        ErrorKind::AlreadyExists,
        ErrorKind::InvalidData,
        ErrorKind::Interrupted,
        ErrorKind::Other,
    ];
    for kind in kinds {
        match probe_of_open_error(Error::from(kind)) {
            Probe::Failed(err) => assert_eq!(err.kind(), kind),
            _ => panic!("expected a failure"),
        }
    }
    assert!(matches!(
        probe_of_open_error(Error::new(ErrorKind::NotFound, "gone")),
        Probe::Missing
    ));
}
