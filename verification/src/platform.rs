//! What the shell asks of the platform while it works on a command, and what comes back.
//!
//! The shell never touches the file server, the clock or the system's settings itself. It hands
//! out a [`Query`], and the answer is handed back to it.

use vstd::prelude::*;

verus! {

/// One thing the platform is asked for. The parameters are the types of text and of raw bytes:
/// `String` and `Vec<u8>` in a query that is handed out, sequences in its model.
pub enum Query<S, B> {
    /// Whether the platform can take this path at all. Answered by [`Answer::Path`].
    CheckPath(S),
    /// The entries of a directory. Answered by [`Answer::Listing`].
    List(S),
    /// The whole of a file. Answered by [`Answer::Contents`].
    Read(S),
    /// A range of a file. Answered by [`Answer::Range`].
    ReadRange { path: S, off: u64, len: usize },
    /// Replace a file's contents, all or nothing. Answered by [`Answer::Done`].
    Write { path: S, data: B },
    /// What is known of an entry. Answered by [`Answer::Facts`].
    Stat(S),
    /// Start an executable, without waiting for it. Answered by [`Answer::Done`].
    Spawn(S),
    /// Delete a file. Answered by [`Answer::Done`].
    Delete(S),
    /// Create a directory. Answered by [`Answer::Done`].
    MakeDir(S),
    /// A Publish & Subscribe integer. Answered by [`Answer::Int`].
    Property { category: u32, key: u32 },
    /// A Central Repository value, as an integer. Answered by [`Answer::Int`].
    RepositoryInt { repo: u32, key: u32 },
    /// A Central Repository value, as a string. Answered by [`Answer::Text`].
    RepositoryText { repo: u32, key: u32 },
    /// A HAL attribute. Answered by [`Answer::Int`].
    Hal(i32),
    /// The monotonic clock, in microseconds. Answered by [`Answer::Time`].
    Clock,
}

/// A query as it is handed out.
pub type PlatformQuery = Query<String, Vec<u8>>;

/// The model of a query.
pub type QueryModel = Query<Seq<char>, Seq<u8>>;

impl View for Query<String, Vec<u8>> {
    type V = QueryModel;

    open spec fn view(&self) -> QueryModel {
        match *self {
            Query::CheckPath(path) => Query::CheckPath(path@),
            Query::List(dir) => Query::List(dir@),
            Query::Read(path) => Query::Read(path@),
            Query::ReadRange { path, off, len } => Query::ReadRange { path: path@, off, len },
            Query::Write { path, data } => Query::Write { path: path@, data: data@ },
            Query::Stat(path) => Query::Stat(path@),
            Query::Spawn(path) => Query::Spawn(path@),
            Query::Delete(path) => Query::Delete(path@),
            Query::MakeDir(dir) => Query::MakeDir(dir@),
            Query::Property { category, key } => Query::Property { category, key },
            Query::RepositoryInt { repo, key } => Query::RepositoryInt { repo, key },
            Query::RepositoryText { repo, key } => Query::RepositoryText { repo, key },
            Query::Hal(attribute) => Query::Hal(attribute),
            Query::Clock => Query::Clock,
        }
    }
}

/// A directory's entries as the file server hands them over: names in UTF-16, each ended by a
/// NUL, and how many there are.
pub struct Listing {
    pub units: Vec<u16>,
    pub count: usize,
}

/// What is known of a directory entry.
pub struct FileStat {
    pub size: u64,
    pub year: u32,
    pub month: u32,
    pub day: u32,
    pub hour: u32,
    pub minute: u32,
    pub second: u32,
    pub attributes: u32,
    pub is_dir: bool,
}

/// How reading a range of a file went. An error is given as the text that describes it.
pub enum RangeRead {
    /// The file could not be opened.
    OpenFailed(String),
    /// The offset could not be reached.
    SeekFailed(String),
    /// The bytes could not be read.
    ReadFailed(String),
    /// The bytes that were there, and the size of the file if it is known.
    Bytes { bytes: Vec<u8>, total: Option<u64> },
}

/// What the platform answers. An error is given as the text that describes it.
pub enum Answer {
    Path(bool),
    Listing(Result<Listing, String>),
    /// The bytes of a file, or nothing where there is no such file.
    Contents(Result<Option<Vec<u8>>, String>),
    Range(RangeRead),
    Done(Result<(), String>),
    Facts(Result<FileStat, String>),
    Int(Result<i32, String>),
    Text(Result<String, String>),
    Time(u64),
}

} // verus!
