//! The storage engine's state and decisions. The caller touches the file
//! system; the engine says which identifier comes next, keeps the counters,
//! and turns what was read into issues and comments.

use vstd::prelude::*;
use crate::error::FsError;
use crate::format::{index_to_text, is_index_text, lemma_index_text_reads_back, parse_index, parse_index_text};
use crate::index::{pairs_map, Index};
use crate::record::{comment_of, issue_of, Comment, FileRead, Issue};
use crate::scan::{rebuild_index, scan, ScanEntry};

verus! {

/// What the store is opened from.
#[derive(Debug, Clone)]
pub enum IndexSource {
    /// The text of the index file, where there is one.
    File(Vec<u8>),
    /// The entries of the root directory, where there is no index file.
    Scan(Vec<ScanEntry>),
}

/// The identifiers `from..to`, in rising order.
pub open spec fn ids(from: u32, to: u32) -> Seq<u32> {
    Seq::new(
        if to >= from {
            (to - from) as nat
        } else {
            0
        },
        |i: int| (from + i) as u32,
    )
}

/// The identifiers that an enumeration has still to visit.
#[derive(Debug, Clone, Copy)]
pub struct IdRange {
    next: u32,
    end: u32,
}

impl View for IdRange {
    type V = Seq<u32>;

    closed spec fn view(&self) -> Seq<u32> {
        ids(self.next, self.end)
    }
}

impl IdRange {
    /// Takes the next identifier to visit, if one is left.
    pub fn next_id(&mut self) -> (id: Option<u32>)
        ensures
            old(self)@.len() == 0 ==> id is None && final(self)@ == old(self)@,
            old(self)@.len() > 0 ==> id == Some(old(self)@[0]) && final(self)@ == old(
                self,
            )@.drop_first(),
    {
        if self.next < self.end {
            let id = self.next;
            self.next = id + 1;
            assert(ids(self.next, self.end) =~= ids(id, self.end).drop_first());
            Some(id)
        } else {
            None
        }
    }
}

/// The counters of a store, as numbers.
pub struct Counters {
    pub issue_count: u32,
    pub comment_count: Map<u32, u32>,
}

/// A call that allots an identifier.
pub enum Call {
    /// A new issue.
    NewIssue,
    /// A new comment of the given issue.
    NewComment(u32),
}

/// Whether the counter that `call` raises has room to be raised.
pub open spec fn permitted(s: Counters, call: Call) -> bool {
    match call {
        Call::NewIssue => s.issue_count < u32::MAX,
        Call::NewComment(issue_id) => s.comment_count.contains_key(issue_id)
            ==> s.comment_count[issue_id] < u32::MAX,
    }
}

/// The identifier that `call` allots; none for a comment of an issue that
/// the store does not know.
pub open spec fn answer(s: Counters, call: Call) -> Option<u32> {
    match call {
        Call::NewIssue => Some(s.issue_count),
        Call::NewComment(issue_id) => if s.comment_count.contains_key(issue_id) {
            Some(s.comment_count[issue_id])
        } else {
            None
        },
    }
}

/// The counters after `call`.
pub open spec fn after(s: Counters, call: Call) -> Counters {
    match call {
        Call::NewIssue => Counters {
            issue_count: (s.issue_count + 1) as u32,
            comment_count: s.comment_count.insert(s.issue_count, 1),
        },
        Call::NewComment(issue_id) => if s.comment_count.contains_key(issue_id) {
            Counters {
                issue_count: s.issue_count,
                comment_count: s.comment_count.insert(
                    issue_id,
                    (s.comment_count[issue_id] + 1) as u32,
                ),
            }
        } else {
            s
        },
    }
}

/// How the work on disk for a new issue ended.
#[derive(Debug)]
pub enum IssueWork {
    /// The issue's directory could not be made.
    NoDirectory(std::io::Error),
    /// The directory was made, but the first comment could not be written.
    NoContent(std::io::Error),
    /// The directory was made and the first comment written.
    Done,
}

/// The store's cached counters.
#[derive(Debug)]
pub struct FsDb {
    index: Index,
}

impl FsDb {
    /// The next unused issue identifier.
    pub closed spec fn issue_count(&self) -> u32 {
        self.index.issue_count()
    }

    /// For each issue that the store knows, the next unused identifier of a
    /// comment.
    pub closed spec fn comment_count(&self) -> Map<u32, u32> {
        self.index.comment_count()
    }

    /// The store's counters.
    pub open spec fn counters(&self) -> Counters {
        Counters { issue_count: self.issue_count(), comment_count: self.comment_count() }
    }

    /// Saving the index and opening the store from what was saved gives the
    /// same issue count and the same comment counters: every text of the
    /// store's index is read back as the store's counters.
    pub proof fn lemma_save_load(&self, text: Seq<u8>)
        requires
            is_index_text(text, self.issue_count(), self.comment_count()),
        ensures
            parse_index(text) is Some,
            parse_index(text).unwrap().0 == self.issue_count(),
            pairs_map(parse_index(text).unwrap().1) == self.comment_count(),
    {
        lemma_index_text_reads_back(text, self.issue_count(), self.comment_count());
    }

    /// Opens the store: from the text of its index file, or, where it has
    /// none, from a scan of its directory tree.
    pub fn new(source: IndexSource) -> (r: Result<FsDb, FsError>)
        ensures
            match source {
                IndexSource::File(text) => match parse_index(text@) {
                    Some((count, pairs)) => r matches Ok(db) && db.issue_count() == count
                        && db.comment_count() == pairs_map(pairs),
                    None => r matches Err(FsError::BadIndex),
                },
                IndexSource::Scan(entries) => match scan(entries@) {
                    Some((count, pairs)) => r matches Ok(db) && db.issue_count() == count
                        && db.comment_count() == pairs_map(pairs),
                    None => r matches Err(FsError::BadDb),
                },
            },
    {
        let loaded = match source {
            IndexSource::File(text) => parse_index_text(text.as_slice()),
            IndexSource::Scan(entries) => rebuild_index(&entries),
        };
        match loaded {
            Ok(index) => Ok(FsDb { index }),
            Err(err) => Err(err),
        }
    }

    /// The text to write to the index file: the issue count, then the line
    /// of each issue once, in the order in which the map hands them out.
    /// Read back, it gives the store's issue count and comment counters.
    pub fn save_index(&self) -> (text: Vec<u8>)
        ensures
            is_index_text(text@, self.issue_count(), self.comment_count()),
            parse_index(text@) is Some,
            parse_index(text@).unwrap().0 == self.issue_count(),
            pairs_map(parse_index(text@).unwrap().1) == self.comment_count(),
    {
        let text = index_to_text(&self.index);
        proof {
            lemma_index_text_reads_back(text@, self.issue_count(), self.comment_count());
        }
        text
    }

    /// The identifier that the next new issue gets.
    pub fn next_issue_id(&self) -> (id: u32)
        ensures
            id == self.issue_count(),
    {
        self.index.next_issue_id()
    }

    /// Records a new issue, whose directory the caller has made: it gets the
    /// next unused identifier, and its comment counter starts at 1, past
    /// the comment that is its content.
    pub fn new_issue(&mut self) -> (id: u32)
        requires
            old(self).issue_count() < u32::MAX,
        ensures
            id == old(self).issue_count(),
            final(self).issue_count() == id + 1,
            final(self).comment_count() == old(self).comment_count().insert(id, 1),
            Some(id) == answer(old(self).counters(), Call::NewIssue),
            final(self).counters() == after(old(self).counters(), Call::NewIssue),
    {
        let id = self.index.next_issue_id();
        self.index.set_comment_count(id, 1);
        self.index.set_issue_count(id + 1);
        id
    }

    /// Ends the making of a new issue, whose directory and first comment
    /// the caller has tried to write under the next unused identifier.
    /// Where the directory could not be made, the failure is reported and
    /// nothing changes. Once the directory is there the issue is recorded,
    /// as `new_issue` does, whether or not its first comment could be
    /// written: the identifier is used up, and the failure to write is
    /// reported in place of the identifier.
    pub fn finish_issue(&mut self, work: IssueWork) -> (r: Result<u32, FsError>)
        requires
            !(work is NoDirectory) ==> old(self).issue_count() < u32::MAX,
        ensures
            match work {
                IssueWork::NoDirectory(err) => {
                    &&& r == Err::<u32, FsError>(FsError::Io(err))
                    &&& final(self).counters() == old(self).counters()
                },
                IssueWork::NoContent(err) => {
                    &&& r == Err::<u32, FsError>(FsError::Io(err))
                    &&& final(self).counters() == after(old(self).counters(), Call::NewIssue)
                },
                IssueWork::Done => {
                    &&& r == Ok::<u32, FsError>(old(self).issue_count())
                    &&& final(self).counters() == after(old(self).counters(), Call::NewIssue)
                },
            },
    {
        match work {
            IssueWork::NoDirectory(err) => Err(FsError::Io(err)),
            IssueWork::NoContent(err) => {
                self.new_issue();
                Err(FsError::Io(err))
            },
            IssueWork::Done => Ok(self.new_issue()),
        }
    }

    /// Ends the making of a new comment of `issue_id`, whose file the
    /// caller has tried to write under the issue's next unused comment
    /// identifier. An issue that the store does not know gets no comment.
    /// Where the file could not be written, the failure is reported and
    /// nothing changes. Where it was written, the comment is recorded, as
    /// `new_comment` does.
    pub fn finish_comment(&mut self, issue_id: u32, written: Result<(), std::io::Error>) -> (r:
        Result<u32, FsError>)
        requires
            old(self).comment_count().contains_key(issue_id) && written is Ok ==> old(
                self,
            ).comment_count()[issue_id] < u32::MAX,
        ensures
            final(self).issue_count() == old(self).issue_count(),
            !old(self).comment_count().contains_key(issue_id) ==> {
                &&& r == Err::<u32, FsError>(FsError::NoIssue(issue_id))
                &&& final(self).comment_count() == old(self).comment_count()
            },
            old(self).comment_count().contains_key(issue_id) ==> (match written {
                Err(err) => {
                    &&& r == Err::<u32, FsError>(FsError::Io(err))
                    &&& final(self).comment_count() == old(self).comment_count()
                },
                Ok(_) => {
                    &&& r == Ok::<u32, FsError>(old(self).comment_count()[issue_id])
                    &&& final(self).counters() == after(
                        old(self).counters(),
                        Call::NewComment(issue_id),
                    )
                },
            }),
    {
        match self.next_comment_id(issue_id) {
            Err(unknown) => Err(unknown),
            Ok(_) => match written {
                Err(err) => Err(FsError::Io(err)),
                Ok(_) => self.new_comment(issue_id),
            },
        }
    }

    /// The identifier that the next comment of `issue_id` gets.
    pub fn next_comment_id(&self, issue_id: u32) -> (r: Result<u32, FsError>)
        ensures
            self.comment_count().contains_key(issue_id) ==> r == Ok::<u32, FsError>(
                self.comment_count()[issue_id],
            ),
            !self.comment_count().contains_key(issue_id) ==> r == Err::<u32, FsError>(
                FsError::NoIssue(issue_id),
            ),
    {
        match self.index.comment_count_of(issue_id) {
            Some(n) => Ok(n),
            None => Err(FsError::NoIssue(issue_id)),
        }
    }

    /// Records a new comment of `issue_id`, whose file the caller has
    /// written: it gets the issue's next unused comment identifier. An
    /// issue that the store does not know gets none, and nothing changes.
    pub fn new_comment(&mut self, issue_id: u32) -> (r: Result<u32, FsError>)
        requires
            old(self).comment_count().contains_key(issue_id) ==> old(self).comment_count()[issue_id]
                < u32::MAX,
        ensures
            final(self).issue_count() == old(self).issue_count(),
            old(self).comment_count().contains_key(issue_id) ==> r == Ok::<u32, FsError>(
                old(self).comment_count()[issue_id],
            ) && final(self).comment_count() == old(self).comment_count().insert(
                issue_id,
                (old(self).comment_count()[issue_id] + 1) as u32,
            ),
            !old(self).comment_count().contains_key(issue_id) ==> r == Err::<u32, FsError>(
                FsError::NoIssue(issue_id),
            ) && final(self).comment_count() == old(self).comment_count(),
            r is Ok <==> answer(old(self).counters(), Call::NewComment(issue_id)) is Some,
            r matches Ok(id) ==> Some(id) == answer(
                old(self).counters(),
                Call::NewComment(issue_id),
            ),
            final(self).counters() == after(old(self).counters(), Call::NewComment(issue_id)),
    {
        match self.index.comment_count_of(issue_id) {
            Some(n) => {
                self.index.set_comment_count(issue_id, n + 1);
                Ok(n)
            },
            None => Err(FsError::NoIssue(issue_id)),
        }
    }

    /// The identifiers to visit for the issues: all below the issue count,
    /// as it is now.
    pub fn get_issues(&self) -> (range: IdRange)
        ensures
            range@ == ids(0, self.issue_count()),
    {
        IdRange { next: 0, end: self.index.next_issue_id() }
    }

    /// The identifiers to visit for the comments of `issue_id`: all below
    /// its comment counter, as it is now.
    pub fn get_issue_comments(&self, issue_id: u32) -> (r: Result<IdRange, FsError>)
        ensures
            self.comment_count().contains_key(issue_id) ==> (r matches Ok(range) && range@ == ids(
                0,
                self.comment_count()[issue_id],
            )),
            !self.comment_count().contains_key(issue_id) ==> r == Err::<IdRange, FsError>(
                FsError::NoIssue(issue_id),
            ),
    {
        match self.index.comment_count_of(issue_id) {
            Some(n) => Ok(IdRange { next: 0, end: n }),
            None => Err(FsError::NoIssue(issue_id)),
        }
    }

    /// The issue `issue_id`, from the attempt to read its first comment.
    pub fn get_issue(issue_id: u32, read: Result<FileRead, std::io::Error>) -> (r: Result<
        Issue,
        FsError,
    >)
        ensures
            r == (match read {
                Ok(file) => Ok::<Issue, FsError>(issue_of(issue_id, file)),
                Err(err) => Err::<Issue, FsError>(FsError::Io(err)),
            }),
    {
        match read {
            Ok(file) => Ok(
                Issue {
                    issue_id,
                    created: file.created,
                    modified: file.modified,
                    content: file.content,
                },
            ),
            Err(err) => Err(FsError::Io(err)),
        }
    }

    /// The comment `comment_id` of `issue_id`, from the attempt to read its
    /// file.
    pub fn get_issue_comment(
        issue_id: u32,
        comment_id: u32,
        read: Result<FileRead, std::io::Error>,
    ) -> (r: Result<Comment, FsError>)
        ensures
            r == (match read {
                Ok(file) => Ok::<Comment, FsError>(comment_of(issue_id, comment_id, file)),
                Err(err) => Err::<Comment, FsError>(FsError::Io(err)),
            }),
    {
        match read {
            Ok(file) => Ok(
                Comment {
                    issue_id,
                    comment_id,
                    created: file.created,
                    modified: file.modified,
                    content: file.content,
                },
            ),
            Err(err) => Err(FsError::Io(err)),
        }
    }
}

} // verus!
