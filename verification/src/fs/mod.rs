//! Agent file system: a procfs-like tree of agent knowledge.
//!
//! - `/proc/<id>/*`: read-only text generated from the agent's record
//! - `/home/<id>/*`: the agent's private files
//! - `/shared/*`: files shared between agents
//!
//! Opening a stored file takes a lock on it (readers are counted, a writer
//! is exclusive); closing the handle releases it.

pub mod path;

pub use path::{FsPath, FsRoot};

use vstd::prelude::*;
use crate::{AgentId, AgentRecord};
use crate::sovereignty::{level_number, SovereigntyLevel};
use crate::table::{keyed_map, lemma_keyed_push, lemma_keyed_set, lemma_slot, lemma_slot_of_present};
use crate::text::{i64_text, int_text};
use path::{join_slashes, join_with_slashes, parse_path, texts};

verus! {

/// Errors of file-system operations.
#[derive(Debug, Clone, PartialEq, Eq)]
pub enum FsError {
    NotFound,
    PermissionDenied { required: u8, current: u8 },
    NotAFile,
    NotADirectory,
    AlreadyExists,
    InvalidPath,
    FileLocked,
    TransactionAborted,
    SensitiveOpDenied { operation: String },
}

/// The generator of a `/proc` file's text.
#[derive(Debug, Clone, Copy, PartialEq, Eq, Structural)]
pub enum ProcReader {
    /// `trust_score`: the agent's scheduling priority, in decimal.
    TrustScore,
    /// `state`: the name of the agent's scheduling state.
    State,
}

/// The reader a `/proc` file name selects.
pub open spec fn reader_named(name: Seq<char>) -> Option<ProcReader> {
    if name == "trust_score"@ {
        Some(ProcReader::TrustScore)
    } else if name == "state"@ {
        Some(ProcReader::State)
    } else {
        None
    }
}

/// The text a reader generates from a record.
pub open spec fn proc_text(r: ProcReader, rec: AgentRecord) -> Seq<char> {
    match r {
        ProcReader::TrustScore => int_text(rec.scheduling_context.priority as int),
        ProcReader::State => rec.state.current@,
    }
}

impl ProcReader {
    /// The reader for a `/proc` file name.
    pub fn named(name: &String) -> (r: Option<ProcReader>)
        ensures
            r == reader_named(name@),
    {
        let trust = String::from_str("trust_score");
        let state = String::from_str("state");
        if *name == trust {
            Some(ProcReader::TrustScore)
        } else if *name == state {
            Some(ProcReader::State)
        } else {
            None
        }
    }

    /// The text of the agent's file.
    pub fn render(&self, record: &AgentRecord) -> (s: String)
        ensures
            s@ == proc_text(*self, *record),
    {
        match self {
            ProcReader::TrustScore => i64_text(record.scheduling_context.priority as i64),
            ProcReader::State => record.state.current.clone(),
        }
    }
}

/// What a file holds.
#[derive(Debug)]
pub enum FileContent {
    /// Generated from the agent's record when read.
    Virtual(ProcReader),
    /// Bytes written to the file.
    Stored(Vec<u8>),
}

/// Bookkeeping of a stored file.
#[derive(Debug, Clone, Copy)]
pub struct FileMetadata {
    pub owner: AgentId,
    /// Creation time, in milliseconds since the Unix epoch.
    pub created_at: i64,
    /// Time of the last write, in milliseconds since the Unix epoch.
    pub modified_at: i64,
    pub size: usize,
    pub version: u64,
}

/// The lock of a file: open readers are counted, a writer is exclusive.
#[derive(Debug, Clone, Copy, PartialEq, Eq, Structural)]
pub struct FileLockState {
    pub readers: u32,
    pub writer: Option<AgentId>,
}

impl Default for FileLockState {
    fn default() -> (l: Self)
        ensures
            l.readers == 0,
            l.writer is None,
    {
        FileLockState { readers: 0, writer: None }
    }
}

/// A stored file.
#[derive(Debug)]
pub struct FileEntry {
    pub content: FileContent,
    pub metadata: FileMetadata,
    pub lock: FileLockState,
}

/// How a file is opened.
#[derive(Debug, Clone, Copy, PartialEq, Eq, Structural)]
pub enum OpenMode {
    Read,
    Write,
    ReadWrite,
    Append,
}

/// Where a seek offset counts from.
#[derive(Debug, Clone, Copy, PartialEq, Eq, Structural)]
pub enum Whence {
    /// From the start of the file.
    Start,
    /// From the current position.
    Current,
    /// From the end of the file.
    End,
}

/// An open file.
#[derive(Debug)]
pub struct FileHandle {
    pub id: u64,
    pub path: FsPath,
    pub mode: OpenMode,
    pub position: usize,
    pub owner: AgentId,
}

/// A group of operations meant to be applied together.
#[derive(Debug)]
pub struct Transaction {
    pub id: u64,
    pub caller: AgentId,
    pub operations: Vec<PendingOperation>,
}

/// An operation waiting in a transaction.
#[derive(Debug)]
pub enum PendingOperation {
    Write { path: String, content: Vec<u8> },
    Delete { path: String },
    Export { from: String, to: String },
}

/// Where a stored file lives: its agent's home (`Some`) or the shared
/// tree (`None`), and its name (the segments joined by `/`).
pub type FileKey = (Option<AgentId>, Seq<char>);

/// The key of the file a path names (under `/home` or `/shared`).
pub open spec fn file_key(root: FsRoot, agent: Option<AgentId>, segs: Seq<Seq<char>>) -> FileKey {
    (if root == FsRoot::Home {
        agent
    } else {
        None
    }, join_slashes(segs))
}

/// Whether a caller at `level` may open a path in `mode`.
pub open spec fn open_permission(root: FsRoot, agent: Option<AgentId>, mode: OpenMode, caller: AgentId, level: u8) -> Result<
    (),
    FsError,
> {
    let is_owner = agent == Some(caller);
    match root {
        FsRoot::Proc => if mode != OpenMode::Read {
            Err(FsError::PermissionDenied { required: 0, current: level })
        } else if !is_owner && level < 1 {
            Err(FsError::PermissionDenied { required: 1, current: level })
        } else {
            Ok(())
        },
        FsRoot::Home => if !is_owner {
            Err(FsError::PermissionDenied { required: 0, current: level })
        } else {
            Ok(())
        },
        FsRoot::Shared => if level < 2 {
            Err(FsError::PermissionDenied { required: 2, current: level })
        } else {
            Ok(())
        },
    }
}

/// Whether a caller at `level` may list a path.
pub open spec fn list_permission(root: FsRoot, agent: Option<AgentId>, caller: AgentId, level: u8) -> Result<
    (),
    FsError,
> {
    let is_owner = agent == Some(caller);
    match root {
        FsRoot::Proc => if !is_owner && level < 1 {
            Err(FsError::PermissionDenied { required: 1, current: level })
        } else {
            Ok(())
        },
        FsRoot::Home => if !is_owner {
            Err(FsError::PermissionDenied { required: 0, current: level })
        } else {
            Ok(())
        },
        FsRoot::Shared => if level < 2 {
            Err(FsError::PermissionDenied { required: 2, current: level })
        } else {
            Ok(())
        },
    }
}

/// The lock after opening in `mode`: a reader more, or the writer taken
/// (`FileLocked` when another writer holds it).
pub open spec fn lock_after_open(l: FileLockState, mode: OpenMode, caller: AgentId) -> Result<FileLockState, FsError> {
    match mode {
        OpenMode::Read => Ok(FileLockState { readers: (l.readers + 1) as u32, ..l }),
        OpenMode::Write | OpenMode::Append => if l.writer is Some {
            Err(FsError::FileLocked)
        } else {
            Ok(FileLockState { writer: Some(caller), ..l })
        },
        OpenMode::ReadWrite => if l.writer is Some {
            Err(FsError::FileLocked)
        } else {
            Ok(FileLockState { readers: (l.readers + 1) as u32, writer: Some(caller) })
        },
    }
}

/// Whether opening in `mode` adds a reader.
pub open spec fn adds_reader(l: FileLockState, mode: OpenMode) -> bool {
    mode == OpenMode::Read || (mode == OpenMode::ReadWrite && l.writer is None)
}

/// The lock after closing a handle opened in `mode`.
pub open spec fn lock_after_close(l: FileLockState, mode: OpenMode) -> FileLockState {
    let fewer = if l.readers > 0 {
        (l.readers - 1) as u32
    } else {
        0u32
    };
    match mode {
        OpenMode::Read => FileLockState { readers: fewer, ..l },
        OpenMode::Write | OpenMode::Append => FileLockState { writer: None, ..l },
        OpenMode::ReadWrite => FileLockState { readers: fewer, writer: None },
    }
}

/// `data` cut or padded with zeros to `len` bytes.
pub open spec fn resized(data: Seq<u8>, len: int) -> Seq<u8> {
    if len <= data.len() {
        data.take(len)
    } else {
        data + Seq::new((len - data.len()) as nat, |i: int| 0u8)
    }
}

/// A file's bytes after a write of `buf` at `pos`: appended in `Append`
/// mode; otherwise replacing everything at position 0, or replacing what
/// follows `pos` (zero-padded up to it).
pub open spec fn written_data(data: Seq<u8>, mode: OpenMode, pos: int, buf: Seq<u8>) -> Seq<u8> {
    if mode == OpenMode::Append {
        data + buf
    } else if pos == 0 {
        buf
    } else {
        resized(data, pos) + buf
    }
}

/// The bytes of a stored file, `NotAFile` for a generated one.
pub open spec fn stored_bytes(e: FileEntry) -> Result<Seq<u8>, FsError> {
    match e.content {
        FileContent::Stored(d) => Ok(d@),
        FileContent::Virtual(_) => Err(FsError::NotAFile),
    }
}

/// Position of the first record of agent `id` (or the length).
pub open spec fn record_index(recs: Seq<AgentRecord>, id: AgentId) -> int
    decreases recs.len(),
{
    if recs.len() == 0 {
        0
    } else if recs[0].id == id {
        0
    } else {
        1 + record_index(recs.drop_first(), id)
    }
}

/// `record_index` is the one slot that holds `id` with none before it (or
/// the length, when no slot holds it).
proof fn lemma_record_index_unique(recs: Seq<AgentRecord>, id: AgentId, i: int)
    requires
        0 <= i <= recs.len(),
        i < recs.len() ==> recs[i].id == id,
        forall|j: int| 0 <= j < i ==> (#[trigger] recs[j]).id != id,
    ensures
        record_index(recs, id) == i,
{
    lemma_record_index(recs, id);
    let k = record_index(recs, id);
    if k < i {
        assert(recs[k].id != id);
    } else if i < k {
        assert(recs[i].id != id);
    }
}

proof fn lemma_record_index(recs: Seq<AgentRecord>, id: AgentId)
    ensures
        0 <= record_index(recs, id) <= recs.len(),
        record_index(recs, id) < recs.len() ==> recs[record_index(recs, id)].id == id,
        forall|j: int| 0 <= j < record_index(recs, id) ==> (#[trigger] recs[j]).id != id,
    decreases recs.len(),
{
    if recs.len() > 0 && recs[0].id != id {
        lemma_record_index(recs.drop_first(), id);
        assert forall|j: int| 0 <= j < record_index(recs, id) implies (#[trigger] recs[j]).id != id by {
            if j > 0 {
                assert(recs[j] == recs.drop_first()[j - 1]);
            }
        }
        if record_index(recs, id) < recs.len() {
            assert(recs[record_index(recs, id)] == recs.drop_first()[record_index(recs, id) - 1]);
        }
    }
}

/// The names stored under `space`, in storage order.
pub open spec fn names_in(keys: Seq<FileKey>, space: Option<AgentId>) -> Seq<Seq<char>>
    decreases keys.len(),
{
    if keys.len() == 0 {
        Seq::empty()
    } else {
        let rest = names_in(keys.drop_last(), space);
        if keys.last().0 == space {
            rest.push(keys.last().1)
        } else {
            rest
        }
    }
}

} // verus!

verus! {

/// A file entry's content after a write, and the new length when it is stored.
impl FileEntry {
    /// A fresh empty stored file of `owner`, created now.
    fn empty(owner: AgentId) -> (e: Self)
        ensures
            stored_bytes(e) == Ok::<Seq<u8>, FsError>(Seq::empty()),
            e.metadata.owner == owner,
            e.metadata.size == 0,
            e.metadata.version == 0,
            e.lock == (FileLockState { readers: 0, writer: None }),
    {
        let now = crate::clock::now_millis();
        let v: Vec<u8> = Vec::new();
        assert(v@ =~= Seq::<u8>::empty());
        FileEntry {
            content: FileContent::Stored(v),
            metadata: FileMetadata { owner, created_at: now, modified_at: now, size: 0, version: 0 },
            lock: FileLockState::default(),
        }
    }

    /// Write `buf` at `pos` in `mode`; the stored file's new length.
    fn record_write(&mut self, mode: OpenMode, pos: usize, buf: &[u8]) -> (r: Option<usize>)
        requires
            old(self).content is Stored ==> old(self).metadata.version < u64::MAX,
        ensures
            match stored_bytes(*old(self)) {
                Ok(d) => {
                    let nd = written_data(d, mode, pos as int, buf@);
                    &&& r == Some(nd.len() as usize)
                    &&& stored_bytes(*final(self)) == Ok::<Seq<u8>, FsError>(nd)
                    &&& final(self).metadata.size == nd.len()
                    &&& final(self).metadata.version == old(self).metadata.version + 1
                    &&& final(self).metadata.owner == old(self).metadata.owner
                    &&& final(self).metadata.created_at == old(self).metadata.created_at
                    &&& final(self).lock == old(self).lock
                },
                Err(_) => r is None && *final(self) == *old(self),
            },
    {
        match &mut self.content {
            FileContent::Stored(data) => {
                let ghost d0 = data@;
                if mode == OpenMode::Append {
                    data.extend_from_slice(buf);
                    assert(data@ =~= d0 + buf@);
                } else if pos == 0 {
                    *data = vstd::slice::slice_to_vec(buf);
                } else {
                    data.resize(pos, 0u8);
                    let ghost mid = data@;
                    assert(mid =~= resized(d0, pos as int));
                    data.extend_from_slice(buf);
                    assert(data@ =~= mid + buf@);
                }
                let len = data.len();
                self.metadata.size = len;
                self.metadata.modified_at = crate::clock::now_millis();
                self.metadata.version = self.metadata.version + 1;
                Some(len)
            },
            FileContent::Virtual(_) => None,
        }
    }

    /// Whether opening in `mode` conflicts with the writer holding the lock.
    fn open_conflict(&self, mode: OpenMode, caller: AgentId) -> (r: bool)
        ensures
            r == lock_after_open(self.lock, mode, caller) is Err,
    {
        match mode {
            OpenMode::Read => false,
            _ => self.lock.writer.is_some(),
        }
    }

    /// Take the lock as opening in `mode` does, when that does not conflict.
    fn lock_for_open(&mut self, mode: OpenMode, caller: AgentId)
        requires
            lock_after_open(old(self).lock, mode, caller) is Ok,
            adds_reader(old(self).lock, mode) ==> old(self).lock.readers < u32::MAX,
        ensures
            lock_after_open(old(self).lock, mode, caller) == Ok::<FileLockState, FsError>(final(self).lock),
            *final(self) == (FileEntry { lock: final(self).lock, ..*old(self) }),
    {
        match mode {
            OpenMode::Read => {
                self.lock.readers = self.lock.readers + 1;
            },
            OpenMode::Write | OpenMode::Append => {
                self.lock.writer = Some(caller);
            },
            OpenMode::ReadWrite => {
                self.lock.readers = self.lock.readers + 1;
                self.lock.writer = Some(caller);
            },
        }
    }

    /// Release the lock as closing a handle opened in `mode` does.
    fn unlock_for_close(&mut self, mode: OpenMode)
        ensures
            *final(self) == (FileEntry { lock: lock_after_close(old(self).lock, mode), ..*old(self) }),
    {
        match mode {
            OpenMode::Read => {
                self.lock.readers = self.lock.readers.saturating_sub(1);
            },
            OpenMode::Write | OpenMode::Append => {
                self.lock.writer = None;
            },
            OpenMode::ReadWrite => {
                self.lock.readers = self.lock.readers.saturating_sub(1);
                self.lock.writer = None;
            },
        }
    }
}

fn same_space(a: Option<AgentId>, b: Option<AgentId>) -> (r: bool)
    ensures
        r == (a == b),
{
    match (a, b) {
        (Some(x), Some(y)) => x == y,
        (None, None) => true,
        _ => false,
    }
}

/// The agent file system.
#[derive(Debug)]
pub struct AgentFileSystem {
    /// Agents that have a home tree, all distinct.
    homes: Vec<AgentId>,
    /// Stored files: the tree of each (home or shared), its name and the
    /// entry, at the same places; no (tree, name) pair occurs twice.
    spaces: Vec<Option<AgentId>>,
    names: Vec<String>,
    entries: Vec<FileEntry>,
    /// The records `/proc` files are generated from.
    records: Vec<AgentRecord>,
    /// The identifier of the next handle.
    next_handle_id: u64,
}

impl AgentFileSystem {
    /// The keys of the stored files, in storage order.
    pub closed spec fn file_keys(&self) -> Seq<FileKey> {
        Seq::new(self.names@.len(), |i: int| (self.spaces@[i], self.names@[i]@))
    }

    /// The stored files.
    pub closed spec fn files(&self) -> Map<FileKey, FileEntry> {
        keyed_map(self.file_keys(), self.entries@)
    }

    /// The agents that have a home tree.
    pub closed spec fn home_set(&self) -> Set<AgentId> {
        self.homes@.to_set()
    }

    /// The records `/proc` files are generated from.
    pub closed spec fn proc_records(&self) -> Seq<AgentRecord> {
        self.records@
    }

    /// The identifier the next handle gets.
    pub closed spec fn next_handle(&self) -> u64 {
        self.next_handle_id
    }

    /// The record `/proc/<id>` shows: the first one of that agent.
    pub open spec fn proc_record(&self, id: AgentId) -> Option<AgentRecord> {
        let i = record_index(self.proc_records(), id);
        if i < self.proc_records().len() {
            Some(self.proc_records()[i])
        } else {
            None
        }
    }

    /// The file system's consistency.
    pub closed spec fn wf(&self) -> bool {
        &&& self.spaces@.len() == self.names@.len()
        &&& self.entries@.len() == self.names@.len()
        &&& self.file_keys().no_duplicates()
        &&& self.homes@.no_duplicates()
        &&& forall|i: int|
            0 <= i < self.spaces@.len() && (#[trigger] self.spaces@[i]) is Some ==> self.homes@.contains(
                self.spaces@[i]->Some_0,
            )
    }

    /// What reading the file a path names yields, before the position is
    /// applied.
    pub open spec fn content_at(&self, root: FsRoot, agent: Option<AgentId>, segs: Seq<Seq<char>>) -> Result<
        Seq<u8>,
        FsError,
    > {
        match root {
            FsRoot::Proc => if segs.len() == 0 {
                Err(FsError::NotFound)
            } else {
                match reader_named(segs[0]) {
                    None => Err(FsError::NotFound),
                    Some(r) => match self.proc_record(agent->Some_0) {
                        None => Err(FsError::NotFound),
                        Some(rec) => Ok(vstd::utf8::encode_utf8(proc_text(r, rec))),
                    },
                }
            },
            _ => {
                let key = file_key(root, agent, segs);
                if self.files().contains_key(key) {
                    stored_bytes(self.files()[key])
                } else {
                    Err(FsError::NotFound)
                }
            },
        }
    }

    /// A file system with no stored files, generating `/proc` from
    /// `records`.
    pub fn new(records: Vec<AgentRecord>) -> (fs: Self)
        ensures
            fs.wf(),
            fs.files() == Map::<FileKey, FileEntry>::empty(),
            fs.home_set() == Set::<AgentId>::empty(),
            fs.proc_records() == records@,
            fs.next_handle() == 1,
    {
        let fs = AgentFileSystem {
            homes: Vec::new(),
            spaces: Vec::new(),
            names: Vec::new(),
            entries: Vec::new(),
            records,
            next_handle_id: 1,
        };
        assert(fs.files() =~= Map::<FileKey, FileEntry>::empty());
        assert(fs.home_set() =~= Set::<AgentId>::empty());
        fs
    }

    fn find_file(&self, space: Option<AgentId>, name: &String) -> (r: Option<usize>)
        requires
            self.wf(),
        ensures
            r matches Some(i) ==> i < self.names@.len() && self.file_keys()[i as int] == (space, name@)
                && self.file_keys().index_of((space, name@)) == i,
            r is None ==> !self.file_keys().contains((space, name@)),
    {
        let mut i: usize = 0;
        while i < self.names.len()
            invariant
                self.wf(),
                i <= self.names@.len(),
                forall|j: int| 0 <= j < i ==> self.file_keys()[j] != (space, name@),
            decreases self.names@.len() - i,
        {
            if same_space(self.spaces[i], space) && self.names[i] == *name {
                proof {
                    lemma_slot(self.file_keys(), i as int);
                }
                return Some(i);
            }
            i = i + 1;
        }
        proof {
            if self.file_keys().contains((space, name@)) {
                let j = choose|j: int| 0 <= j < self.file_keys().len() && self.file_keys()[j] == (space, name@);
                assert(self.file_keys()[j] != (space, name@));
            }
        }
        None
    }

    fn has_home(&self, id: AgentId) -> (r: bool)
        ensures
            r == self.home_set().contains(id),
    {
        let mut i: usize = 0;
        while i < self.homes.len()
            invariant
                i <= self.homes@.len(),
                forall|j: int| 0 <= j < i ==> self.homes@[j] != id,
            decreases self.homes@.len() - i,
        {
            if self.homes[i] == id {
                assert(self.homes@.contains(id));
                return true;
            }
            i = i + 1;
        }
        false
    }

    /// Show `record` under `/proc/<its id>` from now on, in place of the
    /// agent's earlier record, so the files follow the agent's current
    /// state; an agent without a record gets one. Nothing else changes.
    pub fn update_record(&mut self, record: AgentRecord)
        requires
            old(self).wf(),
        ensures
            final(self).wf(),
            final(self).files() == old(self).files(),
            final(self).home_set() == old(self).home_set(),
            final(self).next_handle() == old(self).next_handle(),
            final(self).proc_record(record.id) == Some(record),
            forall|id: AgentId| id != record.id ==> #[trigger] final(self).proc_record(id) == old(self).proc_record(id),
    {
        let ghost r = record;
        let ghost recs0 = self.records@;
        proof {
            lemma_record_index(recs0, r.id);
        }
        match self.find_record(record.id) {
            Some(i) => {
                self.records.set(i, record);
                proof {
                    let recs1 = self.records@;
                    lemma_record_index_unique(recs1, r.id, i as int);
                    assert forall|id: AgentId| id != r.id implies #[trigger] self.proc_record(id) == old(self).proc_record(id) by {
                        lemma_record_index(recs0, id);
                        let k = record_index(recs0, id);
                        assert forall|j: int| 0 <= j < k implies (#[trigger] recs1[j]).id != id by {
                            if j != i {
                                assert(recs1[j] == recs0[j]);
                            }
                        }
                        if k < recs0.len() {
                            assert(k != i);
                            assert(recs1[k] == recs0[k]);
                        }
                        lemma_record_index_unique(recs1, id, k);
                    }
                }
            },
            None => {
                self.records.push(record);
                proof {
                    let recs1 = self.records@;
                    assert forall|j: int| 0 <= j < recs0.len() implies (#[trigger] recs1[j]).id != r.id by {
                        assert(recs1[j] == recs0[j]);
                    }
                    lemma_record_index_unique(recs1, r.id, recs0.len() as int);
                    assert forall|id: AgentId| id != r.id implies #[trigger] self.proc_record(id) == old(self).proc_record(id) by {
                        lemma_record_index(recs0, id);
                        let k = record_index(recs0, id);
                        assert forall|j: int| 0 <= j < k implies (#[trigger] recs1[j]).id != id by {
                            assert(recs1[j] == recs0[j]);
                        }
                        if k < recs0.len() {
                            assert(recs1[k] == recs0[k]);
                            lemma_record_index_unique(recs1, id, k);
                        } else {
                            assert(recs1[k] == r);
                            lemma_record_index_unique(recs1, id, k + 1);
                        }
                    }
                }
            },
        }
    }

    fn find_record(&self, id: AgentId) -> (r: Option<usize>)
        ensures
            r matches Some(i) ==> i == record_index(self.proc_records(), id) && i < self.records@.len(),
            r is None ==> record_index(self.proc_records(), id) == self.records@.len(),
    {
        proof {
            lemma_record_index(self.records@, id);
        }
        let mut i: usize = 0;
        while i < self.records.len()
            invariant
                i <= self.records@.len(),
                forall|j: int| 0 <= j < i ==> (#[trigger] self.records@[j]).id != id,
                0 <= record_index(self.records@, id) <= self.records@.len(),
                record_index(self.records@, id) < self.records@.len() ==> self.records@[record_index(
                    self.records@,
                    id,
                )].id == id,
                forall|j: int| 0 <= j < record_index(self.records@, id) ==> (#[trigger] self.records@[j]).id != id,
            decreases self.records@.len() - i,
        {
            if self.records[i].id == id {
                return Some(i);
            }
            i = i + 1;
        }
        None
    }
}

} // verus!

verus! {

impl AgentFileSystem {
    /// Opening `p` in `mode` does not overflow the reader count of the
    /// file it names.
    pub open spec fn reader_room(&self, p: Seq<char>, mode: OpenMode) -> bool {
        match parse_path(p) {
            Some(q) => {
                let key = file_key(q.0, q.1, q.2);
                q.0 != FsRoot::Proc && self.files().contains_key(key) && adds_reader(self.files()[key].lock, mode)
                    ==> self.files()[key].lock.readers < u32::MAX
            },
            None => true,
        }
    }

    /// Whether `open` may be asked to open `path` in `mode`: a handle
    /// identifier is left, and a stored file that would gain a reader has
    /// room for one.
    pub fn can_open(&self, path: &str, mode: OpenMode) -> (r: bool)
        requires
            self.wf(),
        ensures
            r == (self.next_handle() < u64::MAX && self.reader_room(path@, mode)),
    {
        if self.next_handle_id == u64::MAX {
            return false;
        }
        let p = match FsPath::parse(path) {
            Ok(p) => p,
            Err(_) => return true,
        };
        match p.root {
            FsRoot::Proc => true,
            _ => {
                let space = match p.root {
                    FsRoot::Home => p.agent_id,
                    _ => None,
                };
                let name = join_with_slashes(&p.segments);
                match self.find_file(space, &name) {
                    None => true,
                    Some(i) => {
                        proof {
                            lemma_slot(self.file_keys(), i as int);
                        }
                        let l = self.entries[i].lock;
                        let adds = match mode {
                            OpenMode::Read => true,
                            OpenMode::ReadWrite => l.writer.is_none(),
                            _ => false,
                        };
                        !adds || l.readers < u32::MAX
                    },
                }
            },
        }
    }

    /// Whether `write` may be asked to write through `handle`: a stored
    /// file it names can still take a new version.
    pub fn can_write(&self, handle: &FileHandle) -> (r: bool)
        requires
            self.wf(),
        ensures
            r == self.version_room(handle.path.root, handle.path.agent_id, handle.path.segs()),
    {
        match handle.path.root {
            FsRoot::Proc => true,
            _ => {
                let space = match handle.path.root {
                    FsRoot::Home => handle.path.agent_id,
                    _ => None,
                };
                let name = join_with_slashes(&handle.path.segments);
                match self.find_file(space, &name) {
                    None => true,
                    Some(i) => {
                        proof {
                            lemma_slot(self.file_keys(), i as int);
                        }
                        match &self.entries[i].content {
                            FileContent::Stored(_) => self.entries[i].metadata.version < u64::MAX,
                            FileContent::Virtual(_) => true,
                        }
                    },
                }
            },
        }
    }

    fn next_id(&mut self) -> (r: u64)
        requires
            old(self).next_handle() < u64::MAX,
        ensures
            r == old(self).next_handle(),
            final(self).next_handle() == old(self).next_handle() + 1,
            final(self).files() == old(self).files(),
            final(self).home_set() == old(self).home_set(),
            final(self).proc_records() == old(self).proc_records(),
            final(self).file_keys() == old(self).file_keys(),
            final(self).wf() == old(self).wf(),
    {
        let current = self.next_handle_id;
        self.next_handle_id = current + 1;
        current
    }

    /// Whether a caller at `trust_level` may open `path` in `mode`.
    fn check_permission(&self, path: &FsPath, mode: OpenMode, caller: AgentId, trust_level: SovereigntyLevel) -> (r:
        Result<(), FsError>)
        ensures
            r == open_permission(path.root, path.agent_id, mode, caller, level_number(trust_level)),
    {
        let level = trust_level.as_u8();
        let is_owner = match path.agent_id {
            Some(a) => a == caller,
            None => false,
        };
        match path.root {
            FsRoot::Proc => {
                if mode != OpenMode::Read {
                    return Err(FsError::PermissionDenied { required: 0, current: level });
                }
                if !is_owner && level < 1 {
                    return Err(FsError::PermissionDenied { required: 1, current: level });
                }
            },
            FsRoot::Home => {
                if !is_owner {
                    return Err(FsError::PermissionDenied { required: 0, current: level });
                }
            },
            FsRoot::Shared => {
                if level < 2 {
                    return Err(FsError::PermissionDenied { required: 2, current: level });
                }
            },
        }
        Ok(())
    }

    /// Whether a caller at `trust_level` may list `path`.
    fn check_list_permission(&self, path: &FsPath, caller: AgentId, trust_level: SovereigntyLevel) -> (r: Result<
        (),
        FsError,
    >)
        ensures
            r == list_permission(path.root, path.agent_id, caller, level_number(trust_level)),
    {
        let level = trust_level.as_u8();
        let is_owner = match path.agent_id {
            Some(a) => a == caller,
            None => false,
        };
        match path.root {
            FsRoot::Proc => {
                if !is_owner && level < 1 {
                    return Err(FsError::PermissionDenied { required: 1, current: level });
                }
            },
            FsRoot::Home => {
                if !is_owner {
                    return Err(FsError::PermissionDenied { required: 0, current: level });
                }
            },
            FsRoot::Shared => {
                if level < 2 {
                    return Err(FsError::PermissionDenied { required: 2, current: level });
                }
            },
        }
        Ok(())
    }

    /// Open a file: parse the path, check the caller's permission, take the
    /// lock of a stored file that exists, and hand out a handle at position
    /// 0 with the next identifier.
    pub fn open(&mut self, path: &str, mode: OpenMode, caller: AgentId, trust_level: SovereigntyLevel) -> (r:
        Result<FileHandle, FsError>)
        requires
            old(self).wf(),
            old(self).next_handle() < u64::MAX,
            old(self).reader_room(path@, mode),
        ensures
            final(self).wf(),
            final(self).home_set() == old(self).home_set(),
            final(self).proc_records() == old(self).proc_records(),
            match parse_path(path@) {
                None => r == Err::<FileHandle, FsError>(FsError::InvalidPath) && *final(self) == *old(self),
                Some(p) => match open_permission(p.0, p.1, mode, caller, level_number(trust_level)) {
                    Err(e) => r == Err::<FileHandle, FsError>(e) && *final(self) == *old(self),
                    Ok(_) => {
                        let key = file_key(p.0, p.1, p.2);
                        let locks = p.0 != FsRoot::Proc && old(self).files().contains_key(key);
                        let outcome = if locks {
                            lock_after_open(old(self).files()[key].lock, mode, caller)
                        } else {
                            Ok(FileLockState { readers: 0, writer: None })
                        };
                        match outcome {
                            Err(e) => r == Err::<FileHandle, FsError>(e) && *final(self) == *old(self),
                            Ok(l) => {
                                &&& r matches Ok(h) && h.id == old(self).next_handle() && h.path.parts() == p
                                    && h.mode == mode && h.position == 0 && h.owner == caller
                                &&& final(self).next_handle() == old(self).next_handle() + 1
                                &&& locks ==> final(self).files() == old(self).files().insert(
                                    key,
                                    FileEntry { lock: l, ..old(self).files()[key] },
                                )
                                &&& !locks ==> final(self).files() == old(self).files()
                            },
                        }
                    },
                },
            },
    {
        let fs_path = match FsPath::parse(path) {
            Ok(p) => p,
            Err(e) => return Err(e),
        };
        match self.check_permission(&fs_path, mode, caller, trust_level) {
            Ok(()) => {},
            Err(e) => return Err(e),
        }
        let ghost key = file_key(fs_path.root, fs_path.agent_id, fs_path.segs());
        match fs_path.root {
            FsRoot::Proc => {},
            _ => {
                let space = match fs_path.root {
                    FsRoot::Home => fs_path.agent_id,
                    _ => None,
                };
                let name = join_with_slashes(&fs_path.segments);
                match self.find_file(space, &name) {
                    Some(i) => {
                        let ghost e0 = self.entries@[i as int];
                        proof {
                            lemma_slot(self.file_keys(), i as int);
                            assert(self.files()[key] == e0);
                        }
                        if self.entries[i].open_conflict(mode, caller) {
                            return Err(FsError::FileLocked);
                        }
                        self.entries[i].lock_for_open(mode, caller);
                        proof {
                            lemma_keyed_set(self.file_keys(), old(self).entries@, i as int, self.entries@[i as int]);
                            assert(self.entries@ =~= old(self).entries@.update(i as int, self.entries@[i as int]));
                        }
                    },
                    None => {},
                }
            },
        }
        let id = self.next_id();
        Ok(FileHandle { id, path: fs_path, mode, position: 0, owner: caller })
    }
}

} // verus!

verus! {

/// Whether reading the path uses its agent (which must then be present).
pub open spec fn read_uses_agent(root: FsRoot, segs: Seq<Seq<char>>) -> bool {
    match root {
        FsRoot::Proc => segs.len() > 0 && reader_named(segs[0]) is Some,
        FsRoot::Home => true,
        FsRoot::Shared => false,
    }
}

/// Copy the bytes of `content` from `pos` into the front of `buf`, as many
/// as fit; the number copied.
fn copy_out(content: &Vec<u8>, pos: usize, buf: &mut [u8]) -> (n: usize)
    ensures
        pos >= content@.len() ==> n == 0 && final(buf)@ == old(buf)@,
        pos < content@.len() ==> n == (if old(buf)@.len() < content@.len() - pos {
            old(buf)@.len() as int
        } else {
            content@.len() - pos
        }) && final(buf)@ == content@.subrange(pos as int, pos + n) + old(buf)@.skip(n as int),
        pos + n <= usize::MAX,
{
    if pos >= content.len() {
        return 0;
    }
    let available = content.len() - pos;
    let to_read = if buf.len() < available {
        buf.len()
    } else {
        available
    };
    let mut j: usize = 0;
    while j < to_read
        invariant
            j <= to_read,
            to_read <= buf@.len(),
            pos + to_read <= content@.len(),
            content@.len() <= usize::MAX,
            buf@.len() == old(buf)@.len(),
            forall|k: int| 0 <= k < j ==> buf@[k] == content@[pos + k],
            forall|k: int| j <= k < buf@.len() ==> buf@[k] == old(buf)@[k],
        decreases to_read - j,
    {
        buf[j] = content[pos + j];
        j = j + 1;
    }
    assert(buf@ =~= content@.subrange(pos as int, pos + to_read) + old(buf)@.skip(to_read as int));
    to_read
}

impl AgentFileSystem {
    /// Read from the handle's position into `buf`: as many bytes as fit
    /// and remain (none at or past the end); the position moves past them. A `/proc` file's text is
    /// generated from the agent's record; a stored file's bytes are read.
    pub fn read(&self, handle: &mut FileHandle, buf: &mut [u8]) -> (r: Result<usize, FsError>)
        requires
            self.wf(),
            read_uses_agent(old(handle).path.root, old(handle).path.segs()) ==> old(handle).path.agent_id is Some,
        ensures
            read_into(*self, *old(handle), *final(handle), old(buf)@, final(buf)@, r),
    {
        let pos = handle.position;
        let n = match handle.path.root {
            FsRoot::Proc => {
                if handle.path.segments.len() == 0 {
                    return Err(FsError::NotFound);
                }
                let reader = match ProcReader::named(&handle.path.segments[0]) {
                    Some(r) => r,
                    None => return Err(FsError::NotFound),
                };
                let agent = handle.path.agent_id.unwrap();
                let i = match self.find_record(agent) {
                    Some(i) => i,
                    None => return Err(FsError::NotFound),
                };
                let text = reader.render(&self.records[i]);
                let bytes = vstd::slice::slice_to_vec(text.as_str().as_bytes());
                copy_out(&bytes, pos, buf)
            },
            _ => {
                let space = match handle.path.root {
                    FsRoot::Home => handle.path.agent_id,
                    _ => None,
                };
                let name = join_with_slashes(&handle.path.segments);
                let i = match self.find_file(space, &name) {
                    Some(i) => i,
                    None => return Err(FsError::NotFound),
                };
                proof {
                    lemma_slot(self.file_keys(), i as int);
                }
                match &self.entries[i].content {
                    FileContent::Stored(data) => copy_out(data, pos, buf),
                    FileContent::Virtual(_) => return Err(FsError::NotAFile),
                }
            },
        };
        handle.position = pos + n;
        Ok(n)
    }
}

} // verus!

verus! {

/// `names_in` lists exactly the names stored under `space`, each once.
proof fn lemma_names_in(keys: Seq<FileKey>, space: Option<AgentId>)
    ensures
        forall|n: Seq<char>| #[trigger] names_in(keys, space).contains(n) <==> keys.contains((space, n)),
        keys.no_duplicates() ==> names_in(keys, space).no_duplicates(),
    decreases keys.len(),
{
    if keys.len() > 0 {
        let init = keys.drop_last();
        lemma_names_in(init, space);
        let rest = names_in(init, space);
        assert forall|n: Seq<char>| #[trigger] names_in(keys, space).contains(n) <==> keys.contains((space, n)) by {
            if keys.contains((space, n)) {
                let j = choose|j: int| 0 <= j < keys.len() && keys[j] == (space, n);
                if j < keys.len() - 1 {
                    assert(init[j] == keys[j]);
                    assert(init.contains((space, n)));
                    assert(rest.contains(n));
                    if keys.last().0 == space {
                        let k = choose|k: int| 0 <= k < rest.len() && rest[k] == n;
                        assert(rest.push(keys.last().1)[k] == n);
                    }
                } else {
                    assert(names_in(keys, space) == rest.push(n));
                    assert(rest.push(n)[rest.len() as int] == n);
                }
            }
            if names_in(keys, space).contains(n) {
                let k = choose|k: int| 0 <= k < names_in(keys, space).len() && names_in(keys, space)[k] == n;
                if keys.last().0 == space && k == rest.len() {
                    assert(keys[keys.len() - 1] == (space, n));
                } else {
                    assert(rest[k] == n);
                    assert(rest.contains(n));
                    let j = choose|j: int| 0 <= j < init.len() && init[j] == (space, n);
                    assert(keys[j] == (space, n));
                }
            }
        }
        if keys.no_duplicates() {
            assert(init.no_duplicates()) by {
                assert forall|a: int, b: int| 0 <= a < b < init.len() implies init[a] != init[b] by {
                    assert(init[a] == keys[a] && init[b] == keys[b]);
                }
            }
            if keys.last().0 == space {
                assert(!rest.contains(keys.last().1)) by {
                    if rest.contains(keys.last().1) {
                        let j = choose|j: int| 0 <= j < init.len() && init[j] == (space, keys.last().1);
                        assert(keys[j] == keys[keys.len() - 1]);
                    }
                }
                let all = rest.push(keys.last().1);
                assert forall|a: int, b: int| 0 <= a < b < all.len() implies all[a] != all[b] by {
                    if b == rest.len() {
                        assert(rest.contains(rest[a]));
                    } else {
                        assert(all[a] == rest[a] && all[b] == rest[b]);
                    }
                }
            }
        }
    }
}

impl AgentFileSystem {
    /// A write through a handle on the path does not overflow the version
    /// of the stored file it names.
    pub open spec fn version_room(&self, root: FsRoot, agent: Option<AgentId>, segs: Seq<Seq<char>>) -> bool {
        let key = file_key(root, agent, segs);
        root != FsRoot::Proc && self.files().contains_key(key) && self.files()[key].content is Stored
            ==> self.files()[key].metadata.version < u64::MAX
    }

    /// `names` are the names stored under `space`, each once.
    pub open spec fn lists(&self, names: Seq<Seq<char>>, space: Option<AgentId>) -> bool {
        &&& names.no_duplicates()
        &&& forall|n: Seq<char>| #[trigger] names.contains(n) <==> self.files().contains_key((space, n))
    }

    fn ensure_home(&mut self, agent: AgentId)
        requires
            old(self).wf(),
        ensures
            final(self).wf(),
            final(self).home_set() == old(self).home_set().insert(agent),
            final(self).files() == old(self).files(),
            final(self).file_keys() == old(self).file_keys(),
            final(self).proc_records() == old(self).proc_records(),
            final(self).next_handle() == old(self).next_handle(),
    {
        if !self.has_home(agent) {
            let ghost h0 = self.homes@;
            self.homes.push(agent);
            proof {
                assert forall|a: int, b: int| 0 <= a < b < self.homes@.len() implies self.homes@[a]
                    != self.homes@[b] by {
                    if b == h0.len() {
                        assert(h0.contains(h0[a]));
                    }
                }
                assert forall|i: int|
                    0 <= i < self.spaces@.len() && (#[trigger] self.spaces@[i]) is Some implies self.homes@.contains(
                    self.spaces@[i]->Some_0,
                ) by {
                    let j = choose|j: int| 0 <= j < h0.len() && h0[j] == self.spaces@[i]->Some_0;
                    assert(self.homes@[j] == h0[j]);
                }
                h0.lemma_push_to_set_commute(agent);
                assert(self.homes@ == h0.push(agent));
                assert(self.home_set() =~= old(self).home_set().insert(agent));
            }
        } else {
            assert(self.home_set() =~= old(self).home_set().insert(agent));
        }
    }

    /// Write `buf` through the handle and return its length. A `/proc`
    /// file, or a handle opened only for reading, is denied. Under `/home` the agent's tree is created if needed;
    /// the file is created empty (owned by the handle's owner) if needed;
    /// then its bytes become `written_data(..)`, its size their length and
    /// its version one more, and the handle's position moves to the end.
    pub fn write(&mut self, handle: &mut FileHandle, buf: &[u8]) -> (r: Result<usize, FsError>)
        requires
            old(self).wf(),
            old(handle).path.root == FsRoot::Home ==> old(handle).path.agent_id is Some,
            old(self).version_room(old(handle).path.root, old(handle).path.agent_id, old(handle).path.segs()),
        ensures
            final(self).wf(),
            wrote(*old(self), *final(self), *old(handle), *final(handle), buf@, r),
    {
        match handle.mode {
            OpenMode::Read => return Err(FsError::PermissionDenied { required: 0, current: 0 }),
            _ => {},
        }
        let space = match handle.path.root {
            FsRoot::Proc => return Err(FsError::PermissionDenied { required: 0, current: 0 }),
            FsRoot::Home => {
                let agent = handle.path.agent_id.unwrap();
                self.ensure_home(agent);
                Some(agent)
            },
            FsRoot::Shared => None,
        };
        let ghost mid = *self;
        let name = join_with_slashes(&handle.path.segments);
        let ghost key = (space, name@);
        let i = match self.find_file(space, &name) {
            Some(i) => {
                proof {
                    lemma_slot(self.file_keys(), i as int);
                }
                i
            },
            None => {
                let ghost k0 = self.file_keys();
                let fresh = FileEntry::empty(handle.owner);
                let ghost fe = fresh;
                proof {
                    lemma_keyed_push(k0, self.entries@, key, fresh);
                }
                self.spaces.push(space);
                self.names.push(name.clone());
                self.entries.push(fresh);
                proof {
                    assert(self.file_keys() =~= k0.push(key));
                    assert forall|j: int|
                        0 <= j < self.spaces@.len() && (#[trigger] self.spaces@[j]) is Some implies self.homes@.contains(
                        self.spaces@[j]->Some_0,
                    ) by {
                        if j < k0.len() {
                            assert(self.spaces@[j] == mid.spaces@[j]);
                        } else {
                            assert(self.homes@.to_set().contains(space->Some_0));
                        }
                    }
                    lemma_slot(self.file_keys(), k0.len() as int);
                }
                self.names.len() - 1
            },
        };
        let ghost before = *self;
        let ghost e0 = self.entries@[i as int];
        let res = self.entries[i].record_write(handle.mode, handle.position, buf);
        proof {
            lemma_keyed_set(before.file_keys(), before.entries@, i as int, self.entries@[i as int]);
            assert(self.entries@ =~= before.entries@.update(i as int, self.entries@[i as int]));
            assert(self.file_keys() == before.file_keys());
        }
        match res {
            Some(len) => {
                handle.position = len;
            },
            None => {},
        }
        Ok(buf.len())
    }

    /// Move the handle's position to `offset` from the start, from the
    /// current position, or from the end of what the path holds, and
    /// return it. A target before the start of the file (or past what a
    /// position can hold) is refused with `InvalidPath`, as is an error of
    /// the path for a seek from the end; either way the position is kept.
    pub fn lseek(&self, handle: &mut FileHandle, offset: isize, whence: Whence) -> (r: Result<usize, FsError>)
        requires
            self.wf(),
            whence == Whence::End && read_uses_agent(old(handle).path.root, old(handle).path.segs())
                ==> old(handle).path.agent_id is Some,
        ensures
            final(handle).id == old(handle).id,
            final(handle).path == old(handle).path,
            final(handle).mode == old(handle).mode,
            final(handle).owner == old(handle).owner,
            ({
                let content = self.content_at(old(handle).path.root, old(handle).path.agent_id, old(handle).path.segs());
                let base: int = match whence {
                    Whence::Start => 0,
                    Whence::Current => old(handle).position as int,
                    Whence::End => match content {
                        Ok(c) => c.len() as int,
                        Err(_) => 0,
                    },
                };
                let target = base + offset;
                if whence == Whence::End && content is Err {
                    r == Err::<usize, FsError>(content->Err_0) && final(handle).position == old(handle).position
                } else if 0 <= target <= usize::MAX {
                    r == Ok::<usize, FsError>(target as usize) && final(handle).position == target
                } else {
                    r == Err::<usize, FsError>(FsError::InvalidPath) && final(handle).position == old(handle).position
                }
            }),
    {
        let base: i128 = match whence {
            Whence::Start => 0,
            Whence::Current => handle.position as i128,
            Whence::End => match self.content_len(&handle.path) {
                Ok(len) => len as i128,
                Err(e) => return Err(e),
            },
        };
        let target: i128 = base + offset as i128;
        if target < 0 || target > usize::MAX as i128 {
            return Err(FsError::InvalidPath);
        }
        handle.position = target as usize;
        Ok(target as usize)
    }

    /// The length of what reading `path` yields.
    fn content_len(&self, path: &FsPath) -> (r: Result<usize, FsError>)
        requires
            self.wf(),
            read_uses_agent(path.root, path.segs()) ==> path.agent_id is Some,
        ensures
            match self.content_at(path.root, path.agent_id, path.segs()) {
                Ok(c) => r == Ok::<usize, FsError>(c.len() as usize) && c.len() <= usize::MAX,
                Err(e) => r == Err::<usize, FsError>(e),
            },
    {
        match path.root {
            FsRoot::Proc => {
                if path.segments.len() == 0 {
                    return Err(FsError::NotFound);
                }
                let reader = match ProcReader::named(&path.segments[0]) {
                    Some(r) => r,
                    None => return Err(FsError::NotFound),
                };
                let agent = path.agent_id.unwrap();
                let i = match self.find_record(agent) {
                    Some(i) => i,
                    None => return Err(FsError::NotFound),
                };
                let text = reader.render(&self.records[i]);
                let bytes = vstd::slice::slice_to_vec(text.as_str().as_bytes());
                Ok(bytes.len())
            },
            _ => {
                let space = match path.root {
                    FsRoot::Home => path.agent_id,
                    _ => None,
                };
                let name = join_with_slashes(&path.segments);
                let i = match self.find_file(space, &name) {
                    Some(i) => i,
                    None => return Err(FsError::NotFound),
                };
                proof {
                    lemma_slot(self.file_keys(), i as int);
                }
                match &self.entries[i].content {
                    FileContent::Stored(data) => Ok(data.len()),
                    FileContent::Virtual(_) => Err(FsError::NotAFile),
                }
            },
        }
    }

    /// Close a handle, releasing the lock it holds on a stored file.
    pub fn close(&mut self, handle: FileHandle) -> (r: Result<(), FsError>)
        requires
            old(self).wf(),
            handle.path.root == FsRoot::Home ==> handle.path.agent_id is Some,
        ensures
            final(self).wf(),
            r is Ok,
            final(self).home_set() == old(self).home_set(),
            final(self).proc_records() == old(self).proc_records(),
            final(self).next_handle() == old(self).next_handle(),
            ({
                let key = file_key(handle.path.root, handle.path.agent_id, handle.path.segs());
                let locked = handle.path.root != FsRoot::Proc && old(self).files().contains_key(key);
                &&& locked ==> final(self).files() == old(self).files().insert(
                    key,
                    FileEntry { lock: lock_after_close(old(self).files()[key].lock, handle.mode), ..old(self).files()[key] },
                )
                &&& !locked ==> final(self).files() == old(self).files()
            }),
    {
        match handle.path.root {
            FsRoot::Proc => {},
            _ => {
                let space = match handle.path.root {
                    FsRoot::Home => Some(handle.path.agent_id.unwrap()),
                    _ => None,
                };
                let name = join_with_slashes(&handle.path.segments);
                match self.find_file(space, &name) {
                    Some(i) => {
                        let ghost before = *self;
                        proof {
                            lemma_slot(self.file_keys(), i as int);
                        }
                        self.entries[i].unlock_for_close(handle.mode);
                        proof {
                            lemma_keyed_set(before.file_keys(), before.entries@, i as int, self.entries@[i as int]);
                            assert(self.entries@ =~= before.entries@.update(i as int, self.entries@[i as int]));
                        }
                    },
                    None => {},
                }
            },
        }
        Ok(())
    }

    /// The names stored under `space`, in storage order.
    fn names_under(&self, space: Option<AgentId>) -> (v: Vec<String>)
        requires
            self.wf(),
        ensures
            self.lists(texts(v@), space),
    {
        let mut v: Vec<String> = Vec::new();
        let mut i: usize = 0;
        assert(texts(v@) =~= Seq::<Seq<char>>::empty());
        assert(self.file_keys().take(0) =~= Seq::<FileKey>::empty());
        while i < self.names.len()
            invariant
                self.wf(),
                i <= self.names@.len(),
                texts(v@) == names_in(self.file_keys().take(i as int), space),
            decreases self.names@.len() - i,
        {
            let ghost prev = texts(v@);
            proof {
                let t = self.file_keys().take(i + 1);
                assert(t.drop_last() =~= self.file_keys().take(i as int));
                assert(t.last() == self.file_keys()[i as int]);
            }
            if same_space(self.spaces[i], space) {
                v.push(self.names[i].clone());
                assert(texts(v@) =~= prev.push(self.names@[i as int]@));
            }
            i = i + 1;
        }
        proof {
            assert(self.file_keys().take(self.names@.len() as int) =~= self.file_keys());
            lemma_names_in(self.file_keys(), space);
            assert forall|n: Seq<char>| #[trigger] texts(v@).contains(n) <==> self.files().contains_key((space, n)) by {
            }
        }
        v
    }

    /// List a directory: the generated files of an agent under `/proc`,
    /// the files of an agent's home, or all shared files.
    pub fn list(&self, path: &str, caller: AgentId, trust_level: SovereigntyLevel) -> (r: Result<Vec<String>, FsError>)
        requires
            self.wf(),
        ensures
            match parse_path(path@) {
                None => r == Err::<Vec<String>, FsError>(FsError::InvalidPath),
                Some(p) => match list_permission(p.0, p.1, caller, level_number(trust_level)) {
                    Err(e) => r == Err::<Vec<String>, FsError>(e),
                    Ok(_) => match p.0 {
                        FsRoot::Proc => if self.proc_record(p.1->Some_0) is Some {
                            r matches Ok(v) && texts(v@) == seq!["trust_score"@, "state"@]
                        } else {
                            r == Err::<Vec<String>, FsError>(FsError::NotFound)
                        },
                        FsRoot::Home => if self.home_set().contains(p.1->Some_0) {
                            r matches Ok(v) && self.lists(texts(v@), p.1)
                        } else {
                            r == Err::<Vec<String>, FsError>(FsError::NotFound)
                        },
                        FsRoot::Shared => r matches Ok(v) && self.lists(texts(v@), None),
                    },
                },
            },
    {
        let fs_path = match FsPath::parse(path) {
            Ok(p) => p,
            Err(e) => return Err(e),
        };
        match self.check_list_permission(&fs_path, caller, trust_level) {
            Ok(()) => {},
            Err(e) => return Err(e),
        }
        match fs_path.root {
            FsRoot::Proc => {
                match fs_path.agent_id {
                    Some(agent) => {
                        if self.find_record(agent).is_some() {
                            let mut v: Vec<String> = Vec::new();
                            v.push(String::from_str("trust_score"));
                            v.push(String::from_str("state"));
                            assert(texts(v@) =~= seq!["trust_score"@, "state"@]);
                            return Ok(v);
                        }
                    },
                    None => {},
                }
                Err(FsError::NotFound)
            },
            FsRoot::Home => {
                let agent = fs_path.agent_id.unwrap();
                if self.has_home(agent) {
                    Ok(self.names_under(Some(agent)))
                } else {
                    Err(FsError::NotFound)
                }
            },
            FsRoot::Shared => Ok(self.names_under(None)),
        }
    }
}

/// What a read through `h0` into a buffer holding `b0` answered (`r`) and
/// did (`h1`, `b1`) on file system `fs`: the content the handle's path
/// shows is copied from the position, as much as fits and remains, and
/// the position moves past it; an error of the content is answered with
/// nothing changed.
pub open spec fn read_into(
    fs: AgentFileSystem,
    h0: FileHandle,
    h1: FileHandle,
    b0: Seq<u8>,
    b1: Seq<u8>,
    r: Result<usize, FsError>,
) -> bool {
    &&& h1.id == h0.id
    &&& h1.path == h0.path
    &&& h1.mode == h0.mode
    &&& h1.owner == h0.owner
    &&& match fs.content_at(h0.path.root, h0.path.agent_id, h0.path.segs()) {
        Err(e) => r == Err::<usize, FsError>(e) && h1.position == h0.position && b1 == b0,
        Ok(c) => {
            let pos = h0.position as int;
            let n = if b0.len() < c.len() - pos {
                b0.len() as int
            } else {
                c.len() - pos
            };
            if pos >= c.len() {
                &&& r == Ok::<usize, FsError>(0)
                &&& b1 == b0
                &&& h1.position == h0.position
            } else {
                &&& r == Ok::<usize, FsError>(n as usize)
                &&& b1 == c.subrange(pos, pos + n) + b0.skip(n)
                &&& h1.position == pos + n
            }
        },
    }
}

/// What a write of `buf` through `h0` answered (`r`) and did (`fs0` to
/// `fs1`, `h0` to `h1`). A `/proc` file, and any file through a handle
/// opened only for reading, is denied with nothing changed. Otherwise the file
/// is there afterwards, created if needed (under `/home`, with the
/// agent's tree); when it holds bytes (or was just created), they become
/// `written_data(..)`, its size their length and its version one more,
/// and the position moves to the end. Nothing else changes.
pub open spec fn wrote(
    fs0: AgentFileSystem,
    fs1: AgentFileSystem,
    h0: FileHandle,
    h1: FileHandle,
    buf: Seq<u8>,
    r: Result<usize, FsError>,
) -> bool {
    &&& fs1.proc_records() == fs0.proc_records()
    &&& fs1.next_handle() == fs0.next_handle()
    &&& h1.id == h0.id
    &&& h1.path == h0.path
    &&& h1.mode == h0.mode
    &&& h1.owner == h0.owner
    &&& (h0.path.root == FsRoot::Proc || h0.mode == OpenMode::Read) ==> {
        &&& r == Err::<usize, FsError>(FsError::PermissionDenied { required: 0, current: 0 })
        &&& fs1.files() == fs0.files()
        &&& fs1.home_set() == fs0.home_set()
        &&& h1.position == h0.position
    }
    &&& h0.path.root != FsRoot::Proc && h0.mode != OpenMode::Read ==> {
        let key = file_key(h0.path.root, h0.path.agent_id, h0.path.segs());
        let existed = fs0.files().contains_key(key);
        let e = fs1.files()[key];
        &&& r == Ok::<usize, FsError>(buf.len() as usize)
        &&& fs1.home_set() == (if h0.path.root == FsRoot::Home {
            fs0.home_set().insert(h0.path.agent_id->Some_0)
        } else {
            fs0.home_set()
        })
        &&& fs1.files().contains_key(key)
        &&& fs1.files().remove(key) =~= fs0.files().remove(key)
        &&& match (if existed {
            stored_bytes(fs0.files()[key])
        } else {
            Ok(Seq::empty())
        }) {
            Ok(d) => {
                let nd = written_data(d, h0.mode, h0.position as int, buf);
                &&& stored_bytes(e) == Ok::<Seq<u8>, FsError>(nd)
                &&& e.metadata.size == nd.len()
                &&& e.metadata.version == (if existed {
                    fs0.files()[key].metadata.version + 1
                } else {
                    1
                })
                &&& e.metadata.owner == (if existed {
                    fs0.files()[key].metadata.owner
                } else {
                    h0.owner
                })
                &&& e.lock == (if existed {
                    fs0.files()[key].lock
                } else {
                    FileLockState { readers: 0, writer: None }
                })
                &&& h1.position == nd.len()
            },
            Err(_) => e == fs0.files()[key] && h1.position == h0.position,
        }
    }
}

/// A read gives back what a write wrote: after a write of `buf` through a
/// handle open for writing, a read of the same path from where the bytes went (the old end
/// in `Append` mode, else the write's position), into a buffer with room
/// for them, answers their number and fills the buffer's front with them.
pub proof fn lemma_read_after_write(
    fs0: AgentFileSystem,
    fs1: AgentFileSystem,
    h0: FileHandle,
    h1: FileHandle,
    buf: Seq<u8>,
    r: Result<usize, FsError>,
    old_bytes: Seq<u8>,
    g0: FileHandle,
    g1: FileHandle,
    b0: Seq<u8>,
    b1: Seq<u8>,
    r2: Result<usize, FsError>,
)
    requires
        wrote(fs0, fs1, h0, h1, buf, r),
        h0.path.root != FsRoot::Proc,
        h0.mode != OpenMode::Read,
        fs0.content_at(h0.path.root, h0.path.agent_id, h0.path.segs()) == Ok::<Seq<u8>, FsError>(old_bytes)
            || (!fs0.files().contains_key(file_key(h0.path.root, h0.path.agent_id, h0.path.segs()))
            && old_bytes.len() == 0),
        g0.path == h0.path,
        g0.position == (if h0.mode == OpenMode::Append { old_bytes.len() as int } else { h0.position as int }),
        b0.len() >= buf.len(),
        read_into(fs1, g0, g1, b0, b1, r2),
    ensures
        r == Ok::<usize, FsError>(buf.len() as usize),
        r2 == Ok::<usize, FsError>(buf.len() as usize),
        b1.take(buf.len() as int) == buf,
{
    let key = file_key(h0.path.root, h0.path.agent_id, h0.path.segs());
    let d = if fs0.files().contains_key(key) {
        stored_bytes(fs0.files()[key])->Ok_0
    } else {
        Seq::<u8>::empty()
    };
    assert(d =~= old_bytes);
    lemma_read_back_write(d, h0.mode, h0.position as int, buf);
    let nd = written_data(d, h0.mode, h0.position as int, buf);
    assert(fs1.content_at(h0.path.root, h0.path.agent_id, h0.path.segs()) == Ok::<Seq<u8>, FsError>(nd));
    let start = g0.position as int;
    assert((nd.subrange(start, start + buf.len()) + b0.skip(buf.len() as int)).take(buf.len() as int) =~= buf);
}

/// Closing a handle undoes its opening: the lock is as it was before the
/// open (while the reader count has room for one more).
pub proof fn lemma_close_undoes_open(l: FileLockState, mode: OpenMode, caller: AgentId)
    requires
        l.readers < u32::MAX,
        lock_after_open(l, mode, caller) is Ok,
    ensures
        lock_after_close(lock_after_open(l, mode, caller)->Ok_0, mode) == l,
{
}

/// A file has one writer at a time: once a handle that writes is open, a
/// second one is refused with `FileLocked`, whoever asks.
pub proof fn lemma_single_writer(l: FileLockState, first: OpenMode, second: OpenMode, a: AgentId, b: AgentId)
    requires
        first != OpenMode::Read,
        second != OpenMode::Read,
        lock_after_open(l, first, a) is Ok,
    ensures
        lock_after_open(lock_after_open(l, first, a)->Ok_0, second, b) == Err::<FileLockState, FsError>(
            FsError::FileLocked,
        ),
{
}

/// A read gives back what a write wrote: after writing `buf` at `pos` (at
/// the end in `Append` mode) the file holds `buf` from there on, and ends
/// with it.
pub proof fn lemma_read_back_write(data: Seq<u8>, mode: OpenMode, pos: int, buf: Seq<u8>)
    requires
        0 <= pos,
    ensures
        ({
            let w = written_data(data, mode, pos, buf);
            let start = if mode == OpenMode::Append { data.len() as int } else { pos };
            &&& w.len() == start + buf.len()
            &&& w.subrange(start, start + buf.len()) == buf
        }),
{
    let w = written_data(data, mode, pos, buf);
    if mode == OpenMode::Append {
        assert(w.subrange(data.len() as int, (data.len() + buf.len()) as int) =~= buf);
    } else if pos == 0 {
        assert(w.subrange(0, buf.len() as int) =~= buf);
    } else {
        assert(resized(data, pos).len() == pos);
        assert(w.subrange(pos, pos + buf.len()) =~= buf);
    }
}

/// Where a write puts its bytes: through a handle open for writing, the
/// file afterwards holds, before the place the bytes went (the old end in
/// `Append` mode, else the handle's position), exactly the old bytes,
/// zeros where the position lay past the old end, then the written bytes,
/// and nothing after them; the handle ends just past them.
pub proof fn lemma_write_layout(
    fs0: AgentFileSystem,
    fs1: AgentFileSystem,
    h0: FileHandle,
    h1: FileHandle,
    buf: Seq<u8>,
    r: Result<usize, FsError>,
    old_bytes: Seq<u8>,
)
    requires
        wrote(fs0, fs1, h0, h1, buf, r),
        h0.path.root != FsRoot::Proc,
        h0.mode != OpenMode::Read,
        fs0.content_at(h0.path.root, h0.path.agent_id, h0.path.segs()) == Ok::<Seq<u8>, FsError>(old_bytes)
            || (!fs0.files().contains_key(file_key(h0.path.root, h0.path.agent_id, h0.path.segs()))
            && old_bytes.len() == 0),
    ensures
        ({
            let start = if h0.mode == OpenMode::Append { old_bytes.len() as int } else { h0.position as int };
            &&& r == Ok::<usize, FsError>(buf.len() as usize)
            &&& fs1.content_at(h0.path.root, h0.path.agent_id, h0.path.segs()) matches Ok(nd) && {
                &&& nd.len() == start + buf.len()
                &&& forall|i: int| 0 <= i < start ==> #[trigger] nd[i] == (if i < old_bytes.len() {
                    old_bytes[i]
                } else {
                    0u8
                })
                &&& nd.subrange(start, start + buf.len()) == buf
                &&& h1.position == nd.len()
            }
        }),
{
    let key = file_key(h0.path.root, h0.path.agent_id, h0.path.segs());
    let d = if fs0.files().contains_key(key) {
        stored_bytes(fs0.files()[key])->Ok_0
    } else {
        Seq::<u8>::empty()
    };
    assert(d =~= old_bytes);
    lemma_read_back_write(d, h0.mode, h0.position as int, buf);
    let nd = written_data(d, h0.mode, h0.position as int, buf);
    assert(fs1.content_at(h0.path.root, h0.path.agent_id, h0.path.segs()) == Ok::<Seq<u8>, FsError>(nd));
    let start = if h0.mode == OpenMode::Append { d.len() as int } else { h0.position as int };
    assert forall|i: int| 0 <= i < start implies #[trigger] nd[i] == (if i < d.len() { d[i] } else { 0u8 }) by {
        if h0.mode != OpenMode::Append && h0.position != 0 {
            let rz = resized(d, h0.position as int);
            assert(nd[i] == rz[i]);
        }
    }
}

} // verus!
