//! File-store channel: the host half of the `HYPERCALL_FILE_STORE` hypercall.
//!
//! The guest sends a file to the host chunk by chunk through a shared buffer
//! that it registered under [`FILE_STORE_BUFFER_ID`]. A request header of
//! [`FILE_STORE_HEADER_LEN`] bytes is followed by the file's name and by one
//! chunk of its contents; the host answers in the same header.
//!
//! | range     | request         | response                                          |
//! |-----------|-----------------|---------------------------------------------------|
//! | `[0..4)`  | `u32` name_len  | `i64` result: chunk_len or [`FILE_STORE_IO_ERROR`] |
//! | `[4..8)`  | `u32` chunk_len | (result, continued)                               |
//! | `[8..16)` | reserved        | reserved (zero)                                   |
//!
//! The first chunk of a file opens and truncates it on the host; later chunks
//! under the same name are appended to the open file. A chunk under a name that
//! the host does not allow is not stored: none of its bytes are accepted, and
//! the guest is answered so.
//!
//! [`FileWriter`] reads the request, asks for one step of the file system after
//! the other, and frames the response; creating directories, opening files and
//! writing to them is left to its caller, who hands the outcomes back.

use vstd::prelude::*;
#[allow(unused_imports)]
use vstd::utf8::{encode_utf8, valid_utf8};

use crate::error::ErrorKind;
use crate::feedback::{Channel, Failure, SlotCache, VmReply, VmRequest};
#[allow(unused_imports)]
use crate::feedback::{cache_after, first_request, next_cache, next_request, resolved_slot};
use crate::frame::write_header;
#[allow(unused_imports)]
use crate::frame::{law_response_read_back, with_response};
use crate::text::{push_decimal, read_text};
#[allow(unused_imports)]
use crate::text::{decimal, law_utf8_survives, text_of};
use crate::word::read_word;
#[allow(unused_imports)]
use crate::word::{
    i64_value, law_word_round_trip, le_bytes, le_value, lemma_le_bytes_len, lemma_le_value_bound,
    word_values,
};

verus! {

/// Identifier the guest registers its file-store buffer under; the host finds
/// the buffer by the bytes of this id.
pub const FILE_STORE_BUFFER_ID: &'static str = "bedrock-file-store";

/// Bytes reserved at the start of the shared buffer for the request and
/// response header. Data begins at this offset.
pub const FILE_STORE_HEADER_LEN: usize = 16;

/// Response result: an error occurred while writing a chunk.
pub const FILE_STORE_IO_ERROR: i64 = -1;

/// The byte that separates the components of a path.
pub const PATH_SEPARATOR: u8 = 0x2f;

/// Why a file-store operation failed.
#[derive(Debug, Clone, Copy, PartialEq, Eq, Structural)]
pub enum FileStoreError {
    /// The guest sent a chunk without having registered a buffer.
    NotRegistered,
    /// The buffer is not there, although it was mapped.
    Disappeared,
    /// The buffer cannot hold a header.
    BufferTooSmall,
    /// The request's lengths reach past the end of the buffer.
    Overflow { name_len: u32, chunk_len: u32 },
}

impl FileStoreError {
    /// The kind of this failure.
    pub open spec fn spec_kind(self) -> ErrorKind {
        match self {
            FileStoreError::NotRegistered => ErrorKind::NotFound,
            FileStoreError::Disappeared => ErrorKind::Other,
            FileStoreError::BufferTooSmall => ErrorKind::InvalidData,
            FileStoreError::Overflow { .. } => ErrorKind::InvalidData,
        }
    }

    /// The text of this failure.
    pub open spec fn spec_message(self) -> Seq<char> {
        match self {
            FileStoreError::NotRegistered =>
                "guest issued HYPERCALL_FILE_STORE but registered no bedrock-file-store buffer"@,
            FileStoreError::Disappeared => "file-store buffer disappeared after mapping"@,
            FileStoreError::BufferTooSmall => "file-store buffer smaller than header"@,
            FileStoreError::Overflow { name_len, chunk_len } =>
                "file-store overflows buffer, name_len "@ + decimal(name_len as nat)
                    + ", chunk_len "@ + decimal(chunk_len as nat),
        }
    }

    /// The kind of this failure, for callers that sort I/O errors.
    pub fn kind(&self) -> (kind: ErrorKind)
        ensures
            kind == self.spec_kind(),
    {
        match self {
            FileStoreError::NotRegistered => ErrorKind::NotFound,
            FileStoreError::Disappeared => ErrorKind::Other,
            FileStoreError::BufferTooSmall => ErrorKind::InvalidData,
            FileStoreError::Overflow { .. } => ErrorKind::InvalidData,
        }
    }

    /// The text of this failure.
    pub fn message(&self) -> (text: String)
        ensures
            text@ == self.spec_message(),
    {
        match self {
            FileStoreError::NotRegistered =>
                "guest issued HYPERCALL_FILE_STORE but registered no bedrock-file-store buffer".to_owned(),
            FileStoreError::Disappeared => "file-store buffer disappeared after mapping".to_owned(),
            FileStoreError::BufferTooSmall => "file-store buffer smaller than header".to_owned(),
            FileStoreError::Overflow { name_len, chunk_len } => {
                let mut text: String = "file-store overflows buffer, name_len ".to_owned();
                push_decimal(&mut text, *name_len as u64);
                text.append(", chunk_len ");
                push_decimal(&mut text, *chunk_len as u64);
                text
            },
        }
    }
}

/// Length of the name in a request.
pub open spec fn name_len(buf: Seq<u8>) -> nat {
    le_value(buf.subrange(0, 4))
}

/// Length of the chunk in a request.
pub open spec fn chunk_len(buf: Seq<u8>) -> nat {
    le_value(buf.subrange(4, 8))
}

/// Offset of the chunk in a request.
pub open spec fn chunk_start(buf: Seq<u8>) -> nat {
    FILE_STORE_HEADER_LEN as nat + name_len(buf)
}

/// Offset behind the chunk in a request.
pub open spec fn chunk_end(buf: Seq<u8>) -> nat {
    chunk_start(buf) + chunk_len(buf)
}

/// The name in a request, as the guest wrote it.
pub open spec fn name_bytes(buf: Seq<u8>) -> Seq<u8> {
    buf.subrange(FILE_STORE_HEADER_LEN as int, chunk_start(buf) as int)
}

/// The chunk in a request.
pub open spec fn chunk_bytes(buf: Seq<u8>) -> Seq<u8> {
    buf.subrange(chunk_start(buf) as int, chunk_end(buf) as int)
}

/// Whether a path starts at the root.
pub open spec fn is_absolute(path: Seq<u8>) -> bool {
    path.len() > 0 && path[0] == PATH_SEPARATOR
}

/// `name` as seen from the directory `dir`: an absolute name stands for itself,
/// any other is put behind the directory, one separator apart.
pub open spec fn joined(dir: Seq<u8>, name: Seq<u8>) -> Seq<u8> {
    if is_absolute(name) {
        name
    } else if dir.len() == 0 || dir.last() == PATH_SEPARATOR {
        dir + name
    } else {
        dir.push(PATH_SEPARATOR) + name
    }
}

/// The host path of a guest's file.
pub open spec fn host_path(base_dir: Option<Seq<u8>>, name: Seq<char>) -> Seq<u8> {
    match base_dir {
        None => encode_utf8(name),
        Some(dir) => joined(dir, encode_utf8(name)),
    }
}

/// Where a chunk goes.
#[derive(Debug, PartialEq, Eq)]
pub enum StoreTarget {
    /// To the end of the file that is open under this handle.
    Opened { handle: usize },
    /// Into a new file: create the base directory with its parents, if there
    /// is one, then create (or truncate) the file at the path.
    Create { base_dir: Option<Vec<u8>>, path: Vec<u8> },
}

/// A [`StoreTarget`] with its paths as byte sequences.
pub enum StoreTargetView {
    Opened { handle: int },
    Create { base_dir: Option<Seq<u8>>, path: Seq<u8> },
}

/// An optional vector as an optional sequence.
pub open spec fn option_view(bytes: Option<Vec<u8>>) -> Option<Seq<u8>> {
    match bytes {
        None => None,
        Some(bytes) => Some(bytes@),
    }
}

impl View for StoreTarget {
    type V = StoreTargetView;

    open spec fn view(&self) -> StoreTargetView {
        match self {
            StoreTarget::Opened { handle } => StoreTargetView::Opened { handle: *handle as int },
            StoreTarget::Create { base_dir, path } => StoreTargetView::Create {
                base_dir: option_view(*base_dir),
                path: path@,
            },
        }
    }
}

/// What is to be done next for a chunk.
#[derive(Debug)]
pub enum StoreStep<E> {
    /// Create the directory with its parents, unless it is there.
    CreateDir { dir: Vec<u8> },
    /// Create the file at the path, or truncate it, and open it for writing.
    OpenFile { path: Vec<u8> },
    /// Write the chunk to the end of the file that is open under the handle,
    /// and respond.
    Append { handle: usize },
    /// No file is asked for anything more. [`finish`](FileWriter::finish) the
    /// operation with this many accepted bytes, or this error.
    Done(Result<u32, E>),
}

/// A [`StoreStep`] with its paths as byte sequences.
pub enum StoreStepView<E> {
    CreateDir { dir: Seq<u8> },
    OpenFile { path: Seq<u8> },
    Append { handle: int },
    Done(Result<u32, E>),
}

impl<E> View for StoreStep<E> {
    type V = StoreStepView<E>;

    open spec fn view(&self) -> StoreStepView<E> {
        match self {
            StoreStep::CreateDir { dir } => StoreStepView::CreateDir { dir: dir@ },
            StoreStep::OpenFile { path } => StoreStepView::OpenFile { path: path@ },
            StoreStep::Append { handle } => StoreStepView::Append { handle: *handle as int },
            StoreStep::Done(result) => StoreStepView::Done(*result),
        }
    }
}

/// How a step of the file system went.
#[derive(Debug)]
pub enum StoreReply<E> {
    /// Creating the directory.
    DirCreated(Result<(), E>),
    /// Opening the file; a failure comes with its kind.
    FileOpened(Result<(), (ErrorKind, E)>),
}

/// The first step towards a target.
pub open spec fn first_step<E>(target: StoreTargetView) -> StoreStepView<E> {
    match target {
        StoreTargetView::Opened { handle } => StoreStepView::Append { handle },
        StoreTargetView::Create { base_dir: Some(dir), .. } => StoreStepView::CreateDir { dir },
        StoreTargetView::Create { base_dir: None, path } => StoreStepView::OpenFile { path },
    }
}

/// The step that follows a reply. A file that the host does not permit to open
/// is one whose name it disallows: the operation ends without an error, and no
/// byte is accepted. Any other failure ends the operation with its error.
pub open spec fn next_step<E>(
    names: Seq<Seq<char>>,
    name: Seq<char>,
    target: StoreTargetView,
    reply: StoreReply<E>,
) -> StoreStepView<E> {
    match reply {
        StoreReply::DirCreated(Ok(_)) => match target {
            StoreTargetView::Opened { handle } => StoreStepView::Append { handle },
            StoreTargetView::Create { path, .. } => StoreStepView::OpenFile { path },
        },
        StoreReply::DirCreated(Err(e)) => StoreStepView::Done(Err(e)),
        StoreReply::FileOpened(Ok(_)) => StoreStepView::Append {
            handle: names_with(names, name).index_of(name),
        },
        StoreReply::FileOpened(Err((kind, e))) => if kind == ErrorKind::PermissionDenied {
            StoreStepView::Done(Ok(0))
        } else {
            StoreStepView::Done(Err(e))
        },
    }
}

/// The open names after a reply: only a file that was opened is remembered.
pub open spec fn next_names<E>(
    names: Seq<Seq<char>>,
    name: Seq<char>,
    reply: StoreReply<E>,
) -> Seq<Seq<char>> {
    match reply {
        StoreReply::FileOpened(Ok(_)) => names_with(names, name),
        _ => names,
    }
}

/// One chunk that the guest wants stored.
#[derive(Debug, PartialEq, Eq)]
pub struct StoreRequest {
    /// The file's name, with anything that is not UTF-8 replaced.
    pub name: String,
    /// Where the chunk goes.
    pub target: StoreTarget,
    /// Offset of the chunk in the buffer.
    pub chunk_start: usize,
    /// Offset behind the chunk in the buffer.
    pub chunk_end: usize,
    /// Length of the chunk.
    pub chunk_len: u32,
}

impl StoreRequest {
    /// The first step towards storing the chunk.
    pub fn first_step<E>(&self) -> (step: StoreStep<E>)
        ensures
            step@ == first_step::<E>(self.target@),
    {
        match &self.target {
            StoreTarget::Opened { handle } => StoreStep::Append { handle: *handle },
            StoreTarget::Create { base_dir: Some(dir), .. } => StoreStep::CreateDir {
                dir: copy_path(dir.as_slice()),
            },
            StoreTarget::Create { base_dir: None, path } => StoreStep::OpenFile {
                path: copy_path(path.as_slice()),
            },
        }
    }
}

/// What a [`FileWriter`] remembers.
pub struct FileWriterView {
    /// The cached slot.
    pub slot: Option<usize>,
    /// The directory that relative names are redirected into.
    pub base_dir: Option<Seq<u8>>,
    /// The names of the open files; a name's place is its handle.
    pub names: Seq<Seq<char>>,
}

/// Where a chunk under `name` goes: to the open file of that name, else into a
/// new one.
pub open spec fn target_of(writer: FileWriterView, name: Seq<char>) -> StoreTargetView {
    if writer.names.contains(name) {
        StoreTargetView::Opened { handle: writer.names.index_of(name) }
    } else {
        StoreTargetView::Create {
            base_dir: writer.base_dir,
            path: host_path(writer.base_dir, name),
        }
    }
}

/// The open names once `name` is among them.
pub open spec fn names_with(names: Seq<Seq<char>>, name: Seq<char>) -> Seq<Seq<char>> {
    if names.contains(name) {
        names
    } else {
        names.push(name)
    }
}

/// Reads chunks of guest files and says which host file each is appended to.
///
/// The guest chooses the file name. By default it is used as given, relative to
/// the process's current directory, so a guest may name an absolute host path.
/// [`with_base_dir`](FileWriter::with_base_dir) redirects relative names into a
/// chosen directory; an absolute name still wins.
#[derive(Debug)]
pub struct FileWriter {
    names: Vec<String>,
    slot: SlotCache,
    base_dir: Option<Vec<u8>>,
}

impl View for FileWriter {
    type V = FileWriterView;

    closed spec fn view(&self) -> FileWriterView {
        FileWriterView {
            slot: self.slot@,
            base_dir: option_view(self.base_dir),
            names: Seq::new(self.names@.len(), |i: int| self.names@[i]@),
        }
    }
}

impl Default for FileWriter {
    fn default() -> (writer: Self)
        ensures
            writer@ == (FileWriterView {
                slot: None,
                base_dir: None,
                names: Seq::<Seq<char>>::empty(),
            }),
    {
        Self::new()
    }
}

fn copy_path(path: &[u8]) -> (copy: Vec<u8>)
    ensures
        copy@ == path@,
{
    let mut copy: Vec<u8> = Vec::new();
    copy.extend_from_slice(path);
    assert(copy@ =~= path@);
    copy
}

/// Puts `name` behind the directory `dir`, unless the name is absolute.
pub fn join_path(dir: &[u8], name: &[u8]) -> (path: Vec<u8>)
    ensures
        path@ == joined(dir@, name@),
        name@.len() > 0 && name@[0] == PATH_SEPARATOR ==> path@ == name@,
{
    let mut path: Vec<u8> = Vec::new();
    if name.len() == 0 || name[0] != PATH_SEPARATOR {
        path.extend_from_slice(dir);
        if dir.len() > 0 && dir[dir.len() - 1] != PATH_SEPARATOR {
            path.push(PATH_SEPARATOR);
        }
    }
    path.extend_from_slice(name);
    assert(path@ =~= joined(dir@, name@));
    path
}

impl FileWriter {
    /// No file is open twice.
    #[verifier::type_invariant]
    closed spec fn names_differ(self) -> bool {
        self@.names.no_duplicates()
    }

    /// A writer with no open file, no base directory and no resolved slot.
    pub fn new() -> (writer: Self)
        ensures
            writer@ == (FileWriterView {
                slot: None,
                base_dir: None,
                names: Seq::<Seq<char>>::empty(),
            }),
    {
        let writer: FileWriter = FileWriter {
            names: Vec::new(),
            slot: SlotCache::new(),
            base_dir: None,
        };
        assert(writer@.names =~= Seq::<Seq<char>>::empty());
        writer
    }

    /// Writes guest files into `dir` instead of the process's current
    /// directory. The path is given by its bytes; the directory is created if
    /// missing when a file is first opened.
    #[must_use]
    pub fn with_base_dir(self, dir: Vec<u8>) -> (writer: Self)
        ensures
            writer@ == (FileWriterView { base_dir: Some(dir@), ..self@ }),
    {
        proof {
            use_type_invariant(&self);
        }
        let writer: FileWriter = FileWriter {
            names: self.names,
            slot: self.slot,
            base_dir: Some(dir),
        };
        assert(writer@.names =~= self@.names);
        writer
    }

    /// The first request to the VM in an operation.
    pub fn begin(&self) -> (request: VmRequest)
        ensures
            request == first_request(Channel::FileStore, self@.slot),
    {
        self.slot.begin(Channel::FileStore)
    }

    /// Resolves (and caches) the slot that the guest registered the file-store
    /// buffer under, from what the lookup by [`FILE_STORE_BUFFER_ID`] found.
    pub fn resolve_slot<E>(&mut self, found: Result<Vec<usize>, E>) -> (slot: Result<
        usize,
        Failure<E, FileStoreError>,
    >)
        ensures
            slot == resolved_slot(old(self)@.slot, found, FileStoreError::NotRegistered),
            final(self)@ == (FileWriterView {
                slot: cache_after(old(self)@.slot, found),
                ..old(self)@
            }),
    {
        proof {
            use_type_invariant(&*self);
        }
        let mut slot: SlotCache = self.slot;
        let resolved: Result<usize, Failure<E, FileStoreError>> = slot.resolve(
            found,
            FileStoreError::NotRegistered,
        );
        self.slot = slot;
        resolved
    }

    /// The handle of the open file under `name`.
    fn handle_of(&self, name: &String) -> (handle: Option<usize>)
        ensures
            match handle {
                Some(handle) => self@.names.contains(name@) && handle == self@.names.index_of(
                    name@,
                ),
                None => !self@.names.contains(name@),
            },
    {
        proof {
            use_type_invariant(self);
        }
        let mut i: usize = 0;
        while i < self.names.len()
            invariant
                i <= self.names@.len(),
                self@.names.len() == self.names@.len(),
                self@.names.no_duplicates(),
                forall|j: int| 0 <= j < self.names@.len() ==> self@.names[j] == self.names@[j]@,
                forall|j: int| 0 <= j < i ==> self@.names[j] != name@,
            decreases self.names@.len() - i,
        {
            if self.names[i] == *name {
                assert(self@.names[i as int] == name@);
                return Some(i);
            }
            i = i + 1;
        }
        None
    }

    /// Remembers that the file under `name` is open now, and gives its handle.
    /// A file that was open already keeps its handle.
    pub fn opened(&mut self, name: String) -> (handle: usize)
        ensures
            final(self)@ == (FileWriterView {
                names: names_with(old(self)@.names, name@),
                ..old(self)@
            }),
            handle == names_with(old(self)@.names, name@).index_of(name@),
            final(self)@.names.no_duplicates(),
    {
        proof {
            use_type_invariant(&*self);
        }
        match self.handle_of(&name) {
            Some(handle) => handle,
            None => {
                let ghost before = self@.names;
                let mut names: Vec<String> = Vec::new();
                std::mem::swap(&mut names, &mut self.names);
                let handle: usize = names.len();
                names.push(name);
                assert(Seq::new(names@.len(), |i: int| names@[i]@) =~= before.push(name@));
                assert(before.push(name@)[handle as int] == name@);
                self.names = names;
                handle
            },
        }
    }

    /// Takes the VM's reply to the last request and gives the next request,
    /// until it is the one to fetch the mapped buffer.
    pub fn advance<E>(&mut self, reply: VmReply<E>) -> (request: Result<
        VmRequest,
        Failure<E, FileStoreError>,
    >)
        ensures
            request == next_request(old(self)@.slot, reply, FileStoreError::NotRegistered),
            final(self)@ == (FileWriterView {
                slot: next_cache(old(self)@.slot, reply),
                ..old(self)@
            }),
    {
        match reply {
            VmReply::Slots(found) => match self.resolve_slot(found) {
                Ok(slot) => Ok(VmRequest::CheckMapped { slot }),
                Err(e) => Err(e),
            },
            other => {
                let mut slot: SlotCache = self.slot;
                let request: Result<VmRequest, Failure<E, FileStoreError>> = slot.advance(
                    other,
                    FileStoreError::NotRegistered,
                );
                proof {
                    use_type_invariant(&*self);
                }
                self.slot = slot;
                request
            },
        }
    }

    /// Where a chunk under `name` goes.
    pub fn target(&self, name: &String) -> (target: StoreTarget)
        ensures
            target@ == target_of(self@, name@),
    {
        match self.handle_of(name) {
            Some(handle) => StoreTarget::Opened { handle },
            None => {
                let name_bytes: &[u8] = name.as_str().as_bytes();
                match &self.base_dir {
                    Some(dir) => StoreTarget::Create {
                        base_dir: Some(copy_path(dir.as_slice())),
                        path: join_path(dir.as_slice(), name_bytes),
                    },
                    None => StoreTarget::Create { base_dir: None, path: copy_path(name_bytes) },
                }
            },
        }
    }

    /// Reads the request in the fetched buffer and says what to do with the
    /// chunk that the guest sent. Carry out its
    /// [`first_step`](StoreRequest::first_step) and those that
    /// [`settle`](Self::settle) gives, and frame the response to a chunk that
    /// was written with [`respond`](Self::respond).
    pub fn write(&self, fetched: Option<&[u8]>) -> (request: Result<StoreRequest, FileStoreError>)
        ensures
            match fetched {
                None => request == Err::<StoreRequest, _>(FileStoreError::Disappeared),
                Some(bytes) => if bytes@.len() < FILE_STORE_HEADER_LEN {
                    request == Err::<StoreRequest, _>(FileStoreError::BufferTooSmall)
                } else if chunk_end(bytes@) > bytes@.len() {
                    request == Err::<StoreRequest, _>(
                        FileStoreError::Overflow {
                            name_len: name_len(bytes@) as u32,
                            chunk_len: chunk_len(bytes@) as u32,
                        },
                    )
                } else {
                    &&& request matches Ok(store)
                    &&& store.name@ == text_of(name_bytes(bytes@))
                    &&& store.target@ == target_of(self@, text_of(name_bytes(bytes@)))
                    &&& store.chunk_start == chunk_start(bytes@)
                    &&& store.chunk_end == chunk_end(bytes@)
                    &&& store.chunk_len == chunk_len(bytes@)
                },
            },
    {
        let buf: &[u8] = match fetched {
            None => {
                return Err(FileStoreError::Disappeared);
            },
            Some(bytes) => bytes,
        };
        if buf.len() < FILE_STORE_HEADER_LEN {
            return Err(FileStoreError::BufferTooSmall);
        }
        proof {
            lemma_le_value_bound(buf@.subrange(0, 4));
            lemma_le_value_bound(buf@.subrange(4, 8));
            reveal_with_fuel(word_values, 5);
        }
        let name_len: u64 = read_word(buf, 0, 4);
        let chunk_len: u64 = read_word(buf, 4, 4);
        let name_end: u64 = FILE_STORE_HEADER_LEN as u64 + name_len;
        let chunk_end: u64 = name_end + chunk_len;
        if chunk_end > buf.len() as u64 {
            return Err(
                FileStoreError::Overflow { name_len: name_len as u32, chunk_len: chunk_len as u32 },
            );
        }
        let name: String = read_text(&buf[FILE_STORE_HEADER_LEN..name_end as usize]);
        let target: StoreTarget = self.target(&name);
        Ok(
            StoreRequest {
                name,
                target,
                chunk_start: name_end as usize,
                chunk_end: chunk_end as usize,
                chunk_len: chunk_len as u32,
            },
        )
    }

    /// Takes the outcome of the last step and gives the next one.
    ///
    /// A file that was opened is remembered. Nothing is remembered of one that
    /// was not, so the next chunk under its name tries again.
    pub fn settle<E>(&mut self, request: &StoreRequest, reply: StoreReply<E>) -> (step: StoreStep<
        E,
    >)
        ensures
            step@ == next_step(old(self)@.names, request.name@, request.target@, reply),
            final(self)@ == (FileWriterView {
                names: next_names(old(self)@.names, request.name@, reply),
                ..old(self)@
            }),
    {
        match reply {
            StoreReply::DirCreated(Ok(_)) => match &request.target {
                StoreTarget::Opened { handle } => StoreStep::Append { handle: *handle },
                StoreTarget::Create { path, .. } => StoreStep::OpenFile {
                    path: copy_path(path.as_slice()),
                },
            },
            StoreReply::DirCreated(Err(e)) => StoreStep::Done(Err(e)),
            StoreReply::FileOpened(Ok(_)) => {
                let handle: usize = self.opened(request.name.clone());
                StoreStep::Append { handle }
            },
            StoreReply::FileOpened(Err((kind, e))) => {
                if kind == ErrorKind::PermissionDenied {
                    StoreStep::Done(Ok(0))
                } else {
                    StoreStep::Done(Err(e))
                }
            },
        }
    }

    /// Ends an operation that came to no writing. Accepted bytes are what the
    /// guest is answered; an error leaves the buffer as it is.
    pub fn finish<E>(&self, buf: &mut [u8], accepted: Result<u32, E>) -> (result: Result<usize, E>)
        requires
            old(buf)@.len() >= FILE_STORE_HEADER_LEN,
        ensures
            result == counted(accepted),
            final(buf)@ == finished(old(buf)@, accepted),
            match accepted {
                Ok(count) => {
                    &&& result == Ok::<usize, E>(count as usize)
                    &&& i64_value(final(buf)@.subrange(0, 8)) == count
                },
                Err(e) => {
                    &&& result == Err::<usize, E>(e)
                    &&& final(buf)@ == old(buf)@
                },
            },
    {
        match accepted {
            Ok(count) => {
                proof {
                    law_response_read_back(buf@, count as i64, FILE_STORE_HEADER_LEN as nat);
                }
                write_result(buf, count as i64);
                Ok(count as usize)
            },
            Err(e) => Err(e),
        }
    }

    /// Answers a request in its buffer, once its chunk was written or writing
    /// it failed: the number of bytes accepted, or the error mark.
    pub fn respond<E>(&self, buf: &mut [u8], chunk_len: u32, written: Result<(), E>) -> (accepted:
        Result<usize, E>)
        requires
            old(buf)@.len() >= FILE_STORE_HEADER_LEN,
        ensures
            accepted == accepted_bytes(chunk_len, written),
            final(buf)@ == answered(old(buf)@, chunk_len, written),
            final(buf)@.len() == old(buf)@.len(),
            match written {
                Ok(_) => {
                    &&& accepted == Ok::<usize, E>(chunk_len as usize)
                    &&& i64_value(final(buf)@.subrange(0, 8)) == chunk_len
                },
                Err(e) => {
                    &&& accepted == Err::<usize, E>(e)
                    &&& i64_value(final(buf)@.subrange(0, 8)) == FILE_STORE_IO_ERROR
                },
            },
    {
        proof {
            law_response_read_back(buf@, chunk_len as i64, FILE_STORE_HEADER_LEN as nat);
            law_response_read_back(buf@, FILE_STORE_IO_ERROR, FILE_STORE_HEADER_LEN as nat);
        }
        match written {
            Ok(_) => {
                write_result(buf, chunk_len as i64);
                Ok(chunk_len as usize)
            },
            Err(e) => {
                write_result(buf, FILE_STORE_IO_ERROR);
                Err(e)
            },
        }
    }
}

/// A buffer after a response was written into it.
pub open spec fn responded(buf: Seq<u8>, result: i64) -> Seq<u8> {
    with_response(buf, result, FILE_STORE_HEADER_LEN as nat)
}

/// What an operation returns that came to no writing.
pub open spec fn counted<E>(accepted: Result<u32, E>) -> Result<usize, E> {
    match accepted {
        Ok(count) => Ok(count as usize),
        Err(e) => Err(e),
    }
}

/// A buffer after an operation that came to no writing.
pub open spec fn finished<E>(buf: Seq<u8>, accepted: Result<u32, E>) -> Seq<u8> {
    match accepted {
        Ok(count) => responded(buf, count as i64),
        Err(_) => buf,
    }
}

/// How many bytes of a chunk count as accepted once it was written: all of
/// them, or none with the error.
pub open spec fn accepted_bytes<E>(chunk_len: u32, written: Result<(), E>) -> Result<usize, E> {
    match written {
        Ok(_) => Ok(chunk_len as usize),
        Err(e) => Err(e),
    }
}

/// A buffer after the answer to a chunk that was written, or whose writing
/// failed.
pub open spec fn answered<E>(buf: Seq<u8>, chunk_len: u32, written: Result<(), E>) -> Seq<u8> {
    responded(
        buf,
        match written {
            Ok(_) => chunk_len as i64,
            Err(_) => FILE_STORE_IO_ERROR,
        },
    )
}

/// Writes the result word into the buffer header and zeroes the reserved part
/// of the header.
fn write_result(buf: &mut [u8], result: i64)
    requires
        old(buf)@.len() >= FILE_STORE_HEADER_LEN,
    ensures
        final(buf)@ == responded(old(buf)@, result),
{
    write_header(buf, FILE_STORE_HEADER_LEN, result);
}

/// A request as the guest lays it out: the header, the name, the chunk, and
/// whatever is behind them in the buffer.
pub open spec fn guest_request(
    name: Seq<u8>,
    chunk: Seq<u8>,
    reserved: Seq<u8>,
    rest: Seq<u8>,
) -> Seq<u8> {
    le_bytes(name.len(), 4) + le_bytes(chunk.len(), 4) + reserved + name + chunk + rest
}

/// The host reads the name and the chunk that the guest laid out, whatever is
/// in the reserved bytes and behind the chunk.
pub proof fn law_request_read_back(
    name: Seq<u8>,
    chunk: Seq<u8>,
    reserved: Seq<u8>,
    rest: Seq<u8>,
)
    requires
        name.len() <= u32::MAX,
        chunk.len() <= u32::MAX,
        reserved.len() == 8,
    ensures
        chunk_end(guest_request(name, chunk, reserved, rest)) <= guest_request(
            name,
            chunk,
            reserved,
            rest,
        ).len(),
        name_bytes(guest_request(name, chunk, reserved, rest)) == name,
        chunk_bytes(guest_request(name, chunk, reserved, rest)) == chunk,
{
    let buf = guest_request(name, chunk, reserved, rest);
    reveal_with_fuel(word_values, 5);
    lemma_le_bytes_len(name.len(), 4);
    lemma_le_bytes_len(chunk.len(), 4);
    law_word_round_trip(name.len(), 4);
    law_word_round_trip(chunk.len(), 4);
    assert(buf.subrange(0, 4) =~= le_bytes(name.len(), 4));
    assert(buf.subrange(4, 8) =~= le_bytes(chunk.len(), 4));
    assert(name_bytes(buf) =~= name);
    assert(chunk_bytes(buf) =~= chunk);
}

/// The guest finds the result in its buffer, zeros in the reserved bytes, and
/// its name and chunk as it left them; and no accepted length is mistaken for
/// the error mark.
pub proof fn law_response_read_back_by_guest(buf: Seq<u8>, chunk_len: u32)
    requires
        FILE_STORE_HEADER_LEN <= buf.len(),
    ensures
        i64_value(responded(buf, chunk_len as i64).subrange(0, 8)) == chunk_len,
        i64_value(responded(buf, FILE_STORE_IO_ERROR).subrange(0, 8)) == FILE_STORE_IO_ERROR,
        chunk_len as i64 != FILE_STORE_IO_ERROR,
        forall|result: i64, i: int|
            8 <= i < FILE_STORE_HEADER_LEN ==> #[trigger] responded(buf, result)[i] == 0,
        forall|result: i64| #[trigger]
            responded(buf, result).skip(FILE_STORE_HEADER_LEN as int) == buf.skip(
                FILE_STORE_HEADER_LEN as int,
            ),
{
    law_response_read_back(buf, chunk_len as i64, FILE_STORE_HEADER_LEN as nat);
    law_response_read_back(buf, FILE_STORE_IO_ERROR, FILE_STORE_HEADER_LEN as nat);
    assert forall|result: i64, i: int| 8 <= i < FILE_STORE_HEADER_LEN implies #[trigger] responded(
        buf,
        result,
    )[i] == 0 by {
        law_response_read_back(buf, result, FILE_STORE_HEADER_LEN as nat);
    }
    assert forall|result: i64| #[trigger]
        responded(buf, result).skip(FILE_STORE_HEADER_LEN as int) == buf.skip(
            FILE_STORE_HEADER_LEN as int,
        ) by {
        law_response_read_back(buf, result, FILE_STORE_HEADER_LEN as nat);
        assert(responded(buf, result).skip(FILE_STORE_HEADER_LEN as int) =~= buf.skip(
            FILE_STORE_HEADER_LEN as int,
        ));
    }
}

/// A base directory redirects relative names into itself, and an absolute name
/// still wins; without one, every name is used as given.
pub proof fn law_base_dir_redirects_relative_names(dir: Seq<u8>, name: Seq<char>)
    ensures
        host_path(None, name) == encode_utf8(name),
        is_absolute(encode_utf8(name)) ==> host_path(Some(dir), name) == encode_utf8(name),
        !is_absolute(encode_utf8(name)) ==> {
            let path = host_path(Some(dir), name);
            &&& path.take(dir.len() as int) == dir
            &&& path.skip(path.len() - encode_utf8(name).len()) == encode_utf8(name)
            &&& dir.len() > 0 ==> path[path.len() - encode_utf8(name).len() - 1] == PATH_SEPARATOR
        },
{
    let bytes = encode_utf8(name);
    let path = host_path(Some(dir), name);
    if !is_absolute(bytes) {
        assert(path.take(dir.len() as int) =~= dir);
        assert(path.skip(path.len() - bytes.len()) =~= bytes);
    }
}

/// Without a base directory the path is the name as the guest wrote it, byte
/// for byte, when that is UTF-8.
pub proof fn law_name_is_used_as_given(name: Seq<u8>)
    requires
        valid_utf8(name),
    ensures
        host_path(None, text_of(name)) == name,
{
    law_utf8_survives(name);
}

/// A file that was opened is not opened, and so not truncated, again: later
/// chunks under its name go to its handle. Every other file stays where it is.
pub proof fn law_opened_file_stays_open(writer: FileWriterView, name: Seq<char>, other: Seq<char>)
    requires
        writer.names.no_duplicates(),
    ensures
        ({
            let after = FileWriterView { names: names_with(writer.names, name), ..writer };
            &&& after.names.no_duplicates()
            &&& target_of(after, name) == (StoreTargetView::Opened {
                handle: after.names.index_of(name),
            })
            &&& other != name ==> target_of(after, other) == target_of(writer, other)
        }),
{
    let after = FileWriterView { names: names_with(writer.names, name), ..writer };
    if !writer.names.contains(name) {
        assert(after.names[writer.names.len() as int] == name);
        if writer.names.contains(other) {
            let place = writer.names.index_of(other);
            assert(writer.names[place] == other);
            assert(after.names[place] == other);
            assert(after.names[after.names.index_of(other)] == other);
        } else if other != name && after.names.contains(other) {
            let place = after.names.index_of(other);
            assert(writer.names[place] == other);
        }
    }
}

/// Every answer that the host's file system can give while a chunk is stored.
pub struct HostAnswers<E> {
    /// How creating the base directory goes.
    pub dir: Result<(), E>,
    /// How opening the file goes.
    pub open: Result<(), (ErrorKind, E)>,
    /// How writing the chunk goes.
    pub append: Result<(), E>,
    /// How many bytes of the chunk reach the file when writing it fails.
    pub partial: nat,
}

/// How storing a chunk ends.
pub struct StoreEnd<E> {
    /// The open names.
    pub names: Seq<Seq<char>>,
    /// The guest's buffer.
    pub buf: Seq<u8>,
    /// Every step that the file system was asked for, in order.
    pub asked: Seq<StoreStepView<E>>,
    /// What the operation returns.
    pub result: Result<usize, E>,
}

/// How storing a chunk ends that stands at a step, with `left` replies to come
/// at most.
pub open spec fn store_from<E>(
    names: Seq<Seq<char>>,
    buf: Seq<u8>,
    name: Seq<char>,
    target: StoreTargetView,
    step: StoreStepView<E>,
    host: HostAnswers<E>,
    left: nat,
) -> StoreEnd<E>
    decreases left,
{
    match step {
        StoreStepView::Done(accepted) => StoreEnd {
            names,
            buf: finished(buf, accepted),
            asked: Seq::empty(),
            result: counted(accepted),
        },
        StoreStepView::Append { .. } => StoreEnd {
            names,
            buf: answered(buf, chunk_len(buf) as u32, host.append),
            asked: seq![step],
            result: accepted_bytes(chunk_len(buf) as u32, host.append),
        },
        _ => if left == 0 {
            arbitrary()
        } else {
            let reply = match step {
                StoreStepView::CreateDir { .. } => StoreReply::DirCreated(host.dir),
                _ => StoreReply::FileOpened(host.open),
            };
            let rest = store_from(
                next_names(names, name, reply),
                buf,
                name,
                target,
                next_step(names, name, target, reply),
                host,
                (left - 1) as nat,
            );
            StoreEnd { asked: seq![step] + rest.asked, ..rest }
        },
    }
}

/// How storing the chunk in a guest's buffer ends.
pub open spec fn store_end<E>(
    writer: FileWriterView,
    buf: Seq<u8>,
    host: HostAnswers<E>,
) -> StoreEnd<E> {
    let name = text_of(name_bytes(buf));
    let target = target_of(writer, name);
    store_from(writer.names, buf, name, target, first_step(target), host, 2)
}

/// When the base directory cannot be created, that error is returned: no file
/// is opened or written, the buffer is left alone, and the name is not
/// remembered, so the next chunk under it tries all of it again.
pub proof fn law_failed_directory_changes_nothing<E>(
    writer: FileWriterView,
    buf: Seq<u8>,
    host: HostAnswers<E>,
)
    requires
        writer.base_dir is Some,
        !writer.names.contains(text_of(name_bytes(buf))),
        host.dir is Err,
    ensures
        store_end(writer, buf, host) == (StoreEnd {
            names: writer.names,
            buf,
            asked: seq![StoreStepView::<E>::CreateDir { dir: writer.base_dir->0 }],
            result: Err(host.dir->Err_0),
        }),
{
    reveal_with_fuel(store_from, 3);
    assert(store_end(writer, buf, host).asked =~= seq![
        StoreStepView::<E>::CreateDir { dir: writer.base_dir->0 },
    ]);
}

/// The steps up to opening the file of a name that is not open yet.
pub open spec fn opening_steps<E>(writer: FileWriterView, name: Seq<char>) -> Seq<
    StoreStepView<E>,
> {
    let open = StoreStepView::OpenFile { path: host_path(writer.base_dir, name) };
    match writer.base_dir {
        None => seq![open],
        Some(dir) => seq![StoreStepView::CreateDir { dir }, open],
    }
}

/// When the host disallows the file name, none of the chunk is accepted, that
/// is no error, and the guest is answered zero; when opening the file fails
/// otherwise, that error is returned and the buffer is left alone. Either way
/// no file is written, and the name is not remembered.
pub proof fn law_unopened_file_is_not_written<E>(
    writer: FileWriterView,
    buf: Seq<u8>,
    host: HostAnswers<E>,
)
    requires
        !writer.names.contains(text_of(name_bytes(buf))),
        writer.base_dir is Some ==> host.dir is Ok,
        host.open is Err,
    ensures
        ({
            let disallowed = host.open->Err_0.0 == ErrorKind::PermissionDenied;
            store_end(writer, buf, host) == (StoreEnd {
                names: writer.names,
                buf: if disallowed {
                    responded(buf, 0)
                } else {
                    buf
                },
                asked: opening_steps::<E>(writer, text_of(name_bytes(buf))),
                result: if disallowed {
                    Ok(0usize)
                } else {
                    Err(host.open->Err_0.1)
                },
            })
        }),
{
    reveal_with_fuel(store_from, 3);
    assert(store_end(writer, buf, host).asked =~= opening_steps::<E>(
        writer,
        text_of(name_bytes(buf)),
    ));
}

/// Whether a chunk under `name` comes to be written: its file is open, or can be
/// opened.
pub open spec fn reaches_file<E>(
    writer: FileWriterView,
    name: Seq<char>,
    host: HostAnswers<E>,
) -> bool {
    writer.names.contains(name) || {
        &&& writer.base_dir is Some ==> host.dir is Ok
        &&& host.open is Ok
    }
}

/// A chunk whose file is open, or could be opened, is offered to that file
/// once, and the answer in the buffer is the one that is returned: the chunk's
/// length, or the error mark. The file stays open, even when writing failed.
pub proof fn law_open_file_gets_the_chunk<E>(
    writer: FileWriterView,
    buf: Seq<u8>,
    host: HostAnswers<E>,
)
    requires
        reaches_file(writer, text_of(name_bytes(buf)), host),
    ensures
        ({
            let name = text_of(name_bytes(buf));
            let names = names_with(writer.names, name);
            let append = seq![StoreStepView::<E>::Append { handle: names.index_of(name) }];
            store_end(writer, buf, host) == (StoreEnd {
                names,
                buf: answered(buf, chunk_len(buf) as u32, host.append),
                asked: if writer.names.contains(name) {
                    append
                } else {
                    opening_steps::<E>(writer, name) + append
                },
                result: accepted_bytes(chunk_len(buf) as u32, host.append),
            })
        }),
{
    reveal_with_fuel(store_from, 3);
    let name = text_of(name_bytes(buf));
    let names = names_with(writer.names, name);
    let append = seq![StoreStepView::<E>::Append { handle: names.index_of(name) }];
    if writer.names.contains(name) {
        assert(store_end(writer, buf, host).asked =~= append);
    } else {
        assert(store_end(writer, buf, host).asked =~= opening_steps::<E>(writer, name) + append);
    }
}

/// The open files: their names by handle, and what was put into each. Files are
/// told apart by their names; two names that lead to one file on the host, such
/// as `a` and `./a`, are two entries here.
pub struct StoredFiles {
    pub names: Seq<Seq<char>>,
    pub contents: Seq<Seq<u8>>,
}

/// The files after one more chunk was carried to its target without failure.
pub open spec fn stored(files: StoredFiles, name: Seq<char>, chunk: Seq<u8>) -> StoredFiles {
    let writer = FileWriterView { slot: None, base_dir: None, names: files.names };
    StoredFiles {
        names: names_with(files.names, name),
        contents: match target_of(writer, name) {
            StoreTargetView::Opened { handle } => files.contents.update(
                handle,
                files.contents[handle] + chunk,
            ),
            StoreTargetView::Create { .. } => files.contents.push(chunk),
        },
    }
}

/// The files after a sequence of chunks, each with its file's name.
pub open spec fn stored_all(chunks: Seq<(Seq<char>, Seq<u8>)>) -> StoredFiles
    decreases chunks.len(),
{
    if chunks.len() == 0 {
        StoredFiles { names: Seq::empty(), contents: Seq::empty() }
    } else {
        stored(stored_all(chunks.drop_last()), chunks.last().0, chunks.last().1)
    }
}

/// The chunks under one name, one behind the other.
pub open spec fn sent_under(chunks: Seq<(Seq<char>, Seq<u8>)>, name: Seq<char>) -> Seq<u8>
    decreases chunks.len(),
{
    if chunks.len() == 0 {
        Seq::empty()
    } else if chunks.last().0 == name {
        sent_under(chunks.drop_last(), name) + chunks.last().1
    } else {
        sent_under(chunks.drop_last(), name)
    }
}

/// However the chunks of several names are interleaved, the file opened under a
/// name is given exactly the chunks that were sent under it, in the order they
/// were sent; and there is one for every name that was sent, and only for those.
pub proof fn law_files_hold_what_was_sent(chunks: Seq<(Seq<char>, Seq<u8>)>)
    ensures
        stored_all(chunks).names.no_duplicates(),
        stored_all(chunks).names.len() == stored_all(chunks).contents.len(),
        forall|handle: int|
            0 <= handle < stored_all(chunks).names.len() ==> #[trigger] stored_all(
                chunks,
            ).contents[handle] == sent_under(chunks, stored_all(chunks).names[handle]),
        forall|name: Seq<char>|
            #![trigger stored_all(chunks).names.contains(name)]
            stored_all(chunks).names.contains(name) <==> exists|i: int|
                0 <= i < chunks.len() && (#[trigger] chunks[i]).0 == name,
    decreases chunks.len(),
{
    if chunks.len() > 0 {
        let earlier = chunks.drop_last();
        let (name, chunk) = chunks.last();
        law_files_hold_what_was_sent(earlier);
        let before = stored_all(earlier);
        let after = stored_all(chunks);
        assert(after == stored(before, name, chunk));
        if before.names.contains(name) {
            let handle = before.names.index_of(name);
            assert(before.names[handle] == name);
        } else {
            assert(after.names[before.names.len() as int] == name);
            assert(sent_under(earlier, name) =~= Seq::empty()) by {
                lemma_nothing_sent(earlier, name);
            }
        }
        assert forall|handle: int| 0 <= handle < after.names.len() implies #[trigger] after.contents[handle]
            == sent_under(chunks, after.names[handle]) by {
            if handle < before.names.len() {
                assert(after.names[handle] == before.names[handle]);
                assert(before.contents[handle] == sent_under(earlier, before.names[handle]));
            } else {
                assert(after.contents[handle] =~= sent_under(chunks, name));
            }
        }
        assert forall|other: Seq<char>| #[trigger] after.names.contains(other) <==> exists|i: int|
            0 <= i < chunks.len() && (#[trigger] chunks[i]).0 == other by {
            if after.names.contains(other) {
                if other == name {
                    assert(chunks[chunks.len() - 1].0 == other);
                } else {
                    let place = after.names.index_of(other);
                    assert(after.names[place] == other);
                    assert(before.names[place] == other);
                    assert(before.names.contains(other));
                    let i = choose|i: int| 0 <= i < earlier.len() && (#[trigger] earlier[i]).0 == other;
                    assert(chunks[i].0 == other);
                }
            }
            if exists|i: int| 0 <= i < chunks.len() && (#[trigger] chunks[i]).0 == other {
                let i = choose|i: int| 0 <= i < chunks.len() && (#[trigger] chunks[i]).0 == other;
                if i < earlier.len() {
                    assert(earlier[i].0 == other);
                    assert(before.names.contains(other));
                    let place = before.names.index_of(other);
                    assert(before.names[place] == other);
                    assert(after.names[place] == other);
                } else {
                    assert(other == name);
                    if before.names.contains(name) {
                        assert(after.names.contains(name));
                    }
                }
            }
        }
    }
}

proof fn lemma_nothing_sent(chunks: Seq<(Seq<char>, Seq<u8>)>, name: Seq<char>)
    requires
        forall|i: int| 0 <= i < chunks.len() ==> (#[trigger] chunks[i]).0 != name,
    ensures
        sent_under(chunks, name) == Seq::<u8>::empty(),
    decreases chunks.len(),
{
    if chunks.len() > 0 {
        assert(chunks.last().0 != name);
        assert forall|i: int| 0 <= i < chunks.drop_last().len() implies (#[trigger] chunks.drop_last()[i]).0
            != name by {
            assert(chunks[i].0 != name);
        }
        lemma_nothing_sent(chunks.drop_last(), name);
    }
}

/// What of a chunk reaches the file that it is offered to.
pub open spec fn written_bytes<E>(chunk: Seq<u8>, host: HostAnswers<E>) -> Seq<u8> {
    if host.append is Ok || host.partial >= chunk.len() {
        chunk
    } else {
        chunk.take(host.partial as int)
    }
}

/// What the open files hold after one step of the file system: a file that is
/// opened is empty, and what is written to one goes to its end.
pub open spec fn step_effect<E>(
    contents: Seq<Seq<u8>>,
    step: StoreStepView<E>,
    chunk: Seq<u8>,
    host: HostAnswers<E>,
) -> Seq<Seq<u8>> {
    match step {
        StoreStepView::OpenFile { .. } => if host.open is Ok {
            contents.push(Seq::empty())
        } else {
            contents
        },
        StoreStepView::Append { handle } => contents.update(
            handle,
            contents[handle] + written_bytes(chunk, host),
        ),
        _ => contents,
    }
}

/// What the open files hold after some steps.
pub open spec fn carried_out<E>(
    contents: Seq<Seq<u8>>,
    asked: Seq<StoreStepView<E>>,
    chunk: Seq<u8>,
    host: HostAnswers<E>,
) -> Seq<Seq<u8>>
    decreases asked.len(),
{
    if asked.len() == 0 {
        contents
    } else {
        step_effect(
            carried_out(contents, asked.drop_last(), chunk, host),
            asked.last(),
            chunk,
            host,
        )
    }
}

/// The files after the steps that one request of the guest led to.
pub open spec fn after_request<E>(
    files: StoredFiles,
    base_dir: Option<Seq<u8>>,
    buf: Seq<u8>,
    host: HostAnswers<E>,
) -> StoredFiles {
    let end = store_end(FileWriterView { slot: None, base_dir, names: files.names }, buf, host);
    StoredFiles {
        names: end.names,
        contents: carried_out(files.contents, end.asked, chunk_bytes(buf), host),
    }
}

proof fn lemma_opening_effect<E>(
    writer: FileWriterView,
    name: Seq<char>,
    contents: Seq<Seq<u8>>,
    chunk: Seq<u8>,
    host: HostAnswers<E>,
)
    ensures
        carried_out(contents, opening_steps::<E>(writer, name), chunk, host) == if host.open is Ok {
            contents.push(Seq::empty())
        } else {
            contents
        },
{
    reveal_with_fuel(carried_out, 3);
    let steps = opening_steps::<E>(writer, name);
    if writer.base_dir is Some {
        assert(steps.drop_last().drop_last() =~= Seq::empty());
    } else {
        assert(steps.drop_last() =~= Seq::empty());
    }
}

/// The steps of one request put its chunk, or what of it could be written, at
/// the end of the file of its name and nowhere else, where that file is open or
/// can be opened; and otherwise they change no file.
pub proof fn law_steps_store_the_chunk<E>(
    files: StoredFiles,
    base_dir: Option<Seq<u8>>,
    buf: Seq<u8>,
    host: HostAnswers<E>,
)
    requires
        files.names.no_duplicates(),
        files.names.len() == files.contents.len(),
    ensures
        ({
            let writer = FileWriterView { slot: None, base_dir, names: files.names };
            let name = text_of(name_bytes(buf));
            after_request(files, base_dir, buf, host) == if reaches_file(writer, name, host) {
                stored(files, name, written_bytes(chunk_bytes(buf), host))
            } else {
                files
            }
        }),
{
    let writer = FileWriterView { slot: None, base_dir, names: files.names };
    let name = text_of(name_bytes(buf));
    let chunk = chunk_bytes(buf);
    let opening = opening_steps::<E>(writer, name);
    let asked = store_end(writer, buf, host).asked;
    lemma_opening_effect(writer, name, files.contents, chunk, host);
    if reaches_file(writer, name, host) {
        law_open_file_gets_the_chunk(writer, buf, host);
        let names = names_with(files.names, name);
        let handle = names.index_of(name);
        if files.names.contains(name) {
            assert(files.names[handle] == name);
            assert(asked.drop_last() =~= Seq::empty());
        } else {
            assert(names[files.names.len() as int] == name);
            assert(names[handle] == name);
            assert(handle == files.names.len());
            assert(asked.drop_last() =~= opening);
            let piece = written_bytes(chunk, host);
            assert(Seq::<u8>::empty() + piece =~= piece);
        }
        let append = StoreStepView::<E>::Append { handle };
        assert(asked.last() == append);
        let before = carried_out(files.contents, asked.drop_last(), chunk, host);
        assert(before == if files.names.contains(name) {
            files.contents
        } else {
            files.contents.push(Seq::empty())
        });
        assert(carried_out(files.contents, asked, chunk, host) == step_effect(
            before,
            append,
            chunk,
            host,
        ));
        assert(after_request(files, base_dir, buf, host).contents =~= stored(
            files,
            name,
            written_bytes(chunk, host),
        ).contents);
    } else if base_dir is Some && host.dir is Err {
        law_failed_directory_changes_nothing(writer, buf, host);
        assert(asked.drop_last() =~= Seq::empty());
        assert(carried_out(files.contents, asked.drop_last(), chunk, host) == files.contents);
    } else {
        law_unopened_file_is_not_written(writer, buf, host);
    }
}

/// The files after a run of requests, each with what the host answered to it.
pub open spec fn after_requests<E>(
    base_dir: Option<Seq<u8>>,
    requests: Seq<(Seq<u8>, HostAnswers<E>)>,
) -> StoredFiles
    decreases requests.len(),
{
    if requests.len() == 0 {
        StoredFiles { names: Seq::empty(), contents: Seq::empty() }
    } else {
        after_request(
            after_requests(base_dir, requests.drop_last()),
            base_dir,
            requests.last().0,
            requests.last().1,
        )
    }
}

/// What of a run of requests came to be written, each piece with its name.
pub open spec fn delivered<E>(
    base_dir: Option<Seq<u8>>,
    requests: Seq<(Seq<u8>, HostAnswers<E>)>,
) -> Seq<(Seq<char>, Seq<u8>)>
    decreases requests.len(),
{
    if requests.len() == 0 {
        Seq::empty()
    } else {
        let earlier = delivered(base_dir, requests.drop_last());
        let (buf, host) = requests.last();
        let names = after_requests(base_dir, requests.drop_last()).names;
        let name = text_of(name_bytes(buf));
        if reaches_file(FileWriterView { slot: None, base_dir, names }, name, host) {
            earlier.push((name, written_bytes(chunk_bytes(buf), host)))
        } else {
            earlier
        }
    }
}

/// After any run of requests, whatever the host answered, every open file holds
/// exactly what could be written under its name, in the order it was sent, and
/// there is one for every name that something could be written under.
pub proof fn law_run_stores_what_was_delivered<E>(
    base_dir: Option<Seq<u8>>,
    requests: Seq<(Seq<u8>, HostAnswers<E>)>,
)
    ensures
        ({
            let files = after_requests(base_dir, requests);
            let pieces = delivered(base_dir, requests);
            &&& files == stored_all(pieces)
            &&& files.names.no_duplicates()
            &&& files.names.len() == files.contents.len()
            &&& forall|handle: int|
                0 <= handle < files.names.len() ==> #[trigger] files.contents[handle]
                    == sent_under(pieces, files.names[handle])
        }),
    decreases requests.len(),
{
    let pieces = delivered(base_dir, requests);
    if requests.len() > 0 {
        law_run_stores_what_was_delivered(base_dir, requests.drop_last());
        let files = after_requests(base_dir, requests.drop_last());
        let (buf, host) = requests.last();
        law_steps_store_the_chunk(files, base_dir, buf, host);
        let writer = FileWriterView { slot: None, base_dir, names: files.names };
        if reaches_file(writer, text_of(name_bytes(buf)), host) {
            assert(pieces.drop_last() =~= delivered(base_dir, requests.drop_last()));
        }
    }
    law_files_hold_what_was_sent(pieces);
}

/// The names and chunks that some requests hold.
pub open spec fn requested<E>(requests: Seq<(Seq<u8>, HostAnswers<E>)>) -> Seq<
    (Seq<char>, Seq<u8>),
> {
    Seq::new(
        requests.len(),
        |i: int| (text_of(name_bytes(requests[i].0)), chunk_bytes(requests[i].0)),
    )
}

/// When the host never fails, all that the guest sent is stored: every file is
/// its chunks, one behind the other.
pub proof fn law_all_chunks_are_stored<E>(
    base_dir: Option<Seq<u8>>,
    requests: Seq<(Seq<u8>, HostAnswers<E>)>,
)
    requires
        forall|i: int|
            0 <= i < requests.len() ==> {
                &&& (#[trigger] requests[i]).1.dir is Ok
                &&& requests[i].1.open is Ok
                &&& requests[i].1.append is Ok
            },
    ensures
        delivered(base_dir, requests) == requested(requests),
        after_requests(base_dir, requests) == stored_all(requested(requests)),
    decreases requests.len(),
{
    law_run_stores_what_was_delivered(base_dir, requests);
    if requests.len() > 0 {
        let earlier = requests.drop_last();
        assert forall|i: int| 0 <= i < earlier.len() implies {
            &&& (#[trigger] earlier[i]).1.dir is Ok
            &&& earlier[i].1.open is Ok
            &&& earlier[i].1.append is Ok
        } by {
            assert(earlier[i] == requests[i]);
        }
        law_all_chunks_are_stored(base_dir, earlier);
        let last = requests[requests.len() - 1];
        assert(last.1.open is Ok);
        assert(requested(requests) =~= requested(earlier).push(
            (text_of(name_bytes(last.0)), chunk_bytes(last.0)),
        ));
    } else {
        assert(requested(requests) =~= Seq::empty());
    }
}

/// A chunk that was written is answered with its whole length, whatever that
/// is, and one that was not with the error mark; that is what the caller gets
/// to know, too. Behind the result the header is zero, and the rest of the
/// buffer is as it was.
pub proof fn law_answer_is_the_length_of_the_chunk<E>(
    buf: Seq<u8>,
    chunk_len: u32,
    written: Result<(), E>,
)
    requires
        FILE_STORE_HEADER_LEN <= buf.len(),
    ensures
        answered(buf, chunk_len, written).len() == buf.len(),
        written is Ok ==> {
            &&& accepted_bytes(chunk_len, written) is Ok
            &&& accepted_bytes(chunk_len, written)->Ok_0 == chunk_len
            &&& i64_value(answered(buf, chunk_len, written).subrange(0, 8)) == chunk_len
        },
        written is Err ==> {
            &&& accepted_bytes(chunk_len, written) == Err::<usize, E>(written->Err_0)
            &&& i64_value(answered(buf, chunk_len, written).subrange(0, 8)) == -1
        },
        forall|i: int|
            8 <= i < buf.len() ==> #[trigger] answered(buf, chunk_len, written)[i] == if i < 16 {
                0
            } else {
                buf[i]
            },
{
    law_response_read_back(buf, chunk_len as i64, FILE_STORE_HEADER_LEN as nat);
    law_response_read_back(buf, FILE_STORE_IO_ERROR, FILE_STORE_HEADER_LEN as nat);
}

/// The same for an operation that came to no writing: accepted bytes are
/// returned and answered as they are, and an error is returned and the buffer
/// left alone.
pub proof fn law_answer_is_what_was_accepted<E>(buf: Seq<u8>, count: u32, error: E)
    requires
        FILE_STORE_HEADER_LEN <= buf.len(),
    ensures
        counted(Ok::<u32, E>(count)) is Ok,
        counted(Ok::<u32, E>(count))->Ok_0 == count,
        counted(Err(error)) == Err::<usize, E>(error),
        finished(buf, Ok::<u32, E>(count)).len() == buf.len(),
        i64_value(finished(buf, Ok::<u32, E>(count)).subrange(0, 8)) == count,
        forall|i: int|
            8 <= i < buf.len() ==> #[trigger] finished(buf, Ok::<u32, E>(count))[i] == if i < 16 {
                0
            } else {
                buf[i]
            },
        finished(buf, Err(error)) == buf,
{
    law_response_read_back(buf, count as i64, FILE_STORE_HEADER_LEN as nat);
}

/// Storing a chunk that the guest laid out: where its file is open or can be
/// opened and the chunk can be written, the host accepts as many bytes as the
/// chunk has, and the guest reads that number back.
pub proof fn law_guest_is_told_the_length_of_its_chunk<E>(
    writer: FileWriterView,
    name: Seq<u8>,
    chunk: Seq<u8>,
    reserved: Seq<u8>,
    rest: Seq<u8>,
    host: HostAnswers<E>,
)
    requires
        name.len() <= u32::MAX,
        chunk.len() <= u32::MAX,
        reserved.len() == 8,
        reaches_file(writer, text_of(name), host),
    ensures
        ({
            let end = store_end(writer, guest_request(name, chunk, reserved, rest), host);
            &&& host.append is Ok ==> {
                &&& end.result is Ok
                &&& end.result->Ok_0 == chunk.len()
                &&& i64_value(end.buf.subrange(0, 8)) == chunk.len()
            }
            &&& host.append is Err ==> {
                &&& end.result == Err::<usize, E>(host.append->Err_0)
                &&& i64_value(end.buf.subrange(0, 8)) == -1
            }
        }),
{
    let buf = guest_request(name, chunk, reserved, rest);
    law_request_read_back(name, chunk, reserved, rest);
    law_lengths_are_read_back(
        name.len() as u32,
        chunk.len() as u32,
        reserved + name + chunk + rest,
    );
    assert(buf =~= le_bytes(name.len(), 4) + le_bytes(chunk.len(), 4) + (reserved + name + chunk
        + rest));
    lemma_le_bytes_len(name.len(), 4);
    lemma_le_bytes_len(chunk.len(), 4);
    law_open_file_gets_the_chunk(writer, buf, host);
    law_answer_is_the_length_of_the_chunk(buf, chunk.len() as u32, host.append);
}

/// The two lengths at the start of a request are read as the guest wrote them,
/// all 32 bits of each, and say where the name and the chunk are: the name right
/// behind the header, and the chunk right behind the name.
pub proof fn law_lengths_are_read_back(name_bytes: u32, chunk_bytes: u32, rest: Seq<u8>)
    requires
        rest.len() >= 8,
    ensures
        ({
            let buf = le_bytes(name_bytes as nat, 4) + le_bytes(chunk_bytes as nat, 4) + rest;
            &&& name_len(buf) == name_bytes
            &&& chunk_len(buf) == chunk_bytes
            &&& chunk_start(buf) == 16 + name_bytes
            &&& chunk_end(buf) == 16 + name_bytes + chunk_bytes
        }),
{
    let buf = le_bytes(name_bytes as nat, 4) + le_bytes(chunk_bytes as nat, 4) + rest;
    reveal_with_fuel(word_values, 5);
    lemma_le_bytes_len(name_bytes as nat, 4);
    lemma_le_bytes_len(chunk_bytes as nat, 4);
    law_word_round_trip(name_bytes as nat, 4);
    law_word_round_trip(chunk_bytes as nat, 4);
    assert(buf.subrange(0, 4) =~= le_bytes(name_bytes as nat, 4));
    assert(buf.subrange(4, 8) =~= le_bytes(chunk_bytes as nat, 4));
}

/// The name and the chunk of a request are the bytes in their places.
pub proof fn law_request_is_in_its_places(buf: Seq<u8>)
    requires
        FILE_STORE_HEADER_LEN <= buf.len(),
        chunk_end(buf) <= buf.len(),
    ensures
        name_bytes(buf).len() == le_value(buf.subrange(0, 4)),
        chunk_bytes(buf).len() == le_value(buf.subrange(4, 8)),
        forall|i: int|
            0 <= i < name_bytes(buf).len() ==> #[trigger] name_bytes(buf)[i] == buf[16 + i],
        forall|i: int|
            0 <= i < chunk_bytes(buf).len() ==> #[trigger] chunk_bytes(buf)[i] == buf[16
                + name_bytes(buf).len() + i],
{
}

/// A name that starts with a slash is the path. Any other is put behind the
/// directory, whole behind whole, with one slash between them that is added only
/// where the directory is not empty and does not end in one.
pub proof fn law_path_is_directory_and_name(dir: Seq<u8>, name: Seq<u8>)
    ensures
        is_absolute(name) <==> name.len() > 0 && name[0] == 0x2f,
        name.len() > 0 && name[0] == 0x2f ==> joined(dir, name) == name,
        name.len() == 0 || name[0] != 0x2f ==> {
            let added: int = if dir.len() > 0 && dir.last() != 0x2f {
                1
            } else {
                0
            };
            let path = joined(dir, name);
            &&& path.len() == dir.len() + added + name.len()
            &&& forall|i: int| 0 <= i < dir.len() ==> #[trigger] path[i] == dir[i]
            &&& added == 1 ==> path[dir.len() as int] == 0x2f
            &&& forall|i: int|
                dir.len() + added <= i < path.len() ==> #[trigger] path[i] == name[i - dir.len()
                    - added]
        },
{
}

/// A chunk goes to the handle under which its name is open, and to a new file
/// only if there is none; a new file's path is its name, seen from the base
/// directory if there is one.
pub proof fn law_chunk_goes_to_its_file(writer: FileWriterView, name: Seq<char>)
    ensures
        match target_of(writer, name) {
            StoreTargetView::Opened { handle } => {
                &&& 0 <= handle < writer.names.len()
                &&& writer.names[handle] == name
            },
            StoreTargetView::Create { base_dir, path } => {
                &&& forall|i: int| 0 <= i < writer.names.len() ==> writer.names[i] != name
                &&& base_dir == writer.base_dir
                &&& match writer.base_dir {
                    None => path == encode_utf8(name),
                    Some(dir) => path == joined(dir, encode_utf8(name)),
                }
            },
        },
{
    if writer.names.contains(name) {
        assert(writer.names[writer.names.index_of(name)] == name);
    } else {
        assert forall|i: int| 0 <= i < writer.names.len() implies writer.names[i] != name by {
            if writer.names[i] == name {
                assert(writer.names.contains(name));
            }
        }
    }
}

/// Opening a file under a name makes the name known, once, at the end where it
/// is new, and disturbs no other.
pub proof fn law_opened_name_is_known_once(names: Seq<Seq<char>>, name: Seq<char>)
    ensures
        names_with(names, name).contains(name),
        names_with(names, name).take(names.len() as int) == names,
        names_with(names, name).len() == names.len() + if names.contains(name) {
            0int
        } else {
            1
        },
        !names.contains(name) ==> names_with(names, name).last() == name,
{
    assert(names_with(names, name).take(names.len() as int) =~= names);
    if !names.contains(name) {
        assert(names_with(names, name)[names.len() as int] == name);
    }
}

/// The steps towards a target name the directory, the path and the handle that
/// the target names, the directory first.
pub proof fn law_steps_name_their_target<E>(handle: int, dir: Seq<u8>, path: Seq<u8>)
    ensures
        first_step::<E>(StoreTargetView::Opened { handle }) == (StoreStepView::<E>::Append { handle }),
        first_step::<E>(StoreTargetView::Create { base_dir: None, path }) == (
        StoreStepView::<E>::OpenFile { path }),
        first_step::<E>(StoreTargetView::Create { base_dir: Some(dir), path }) == (
        StoreStepView::<E>::CreateDir { dir }),
{
}

/// What follows a step is decided by how it went: a directory leads to the file
/// in it, an open file to writing to it under its own handle, a name that the
/// host does not permit to no bytes accepted, and every other failure to that
/// failure. Only an open file is remembered.
pub proof fn law_outcomes_decide_the_next_step<E>(
    names: Seq<Seq<char>>,
    name: Seq<char>,
    base_dir: Option<Seq<u8>>,
    path: Seq<u8>,
    target: StoreTargetView,
    kind: ErrorKind,
    error: E,
)
    ensures
        next_step(
            names,
            name,
            StoreTargetView::Create { base_dir, path },
            StoreReply::DirCreated(Ok::<(), E>(())),
        ) == (StoreStepView::<E>::OpenFile { path }),
        next_step(names, name, target, StoreReply::DirCreated(Err(error))) == (
        StoreStepView::<E>::Done(Err(error))),
        next_step(names, name, target, StoreReply::FileOpened(Ok::<(), (ErrorKind, E)>(())))
            matches StoreStepView::Append { handle } && {
            &&& 0 <= handle < next_names(
                names,
                name,
                StoreReply::FileOpened(Ok::<(), (ErrorKind, E)>(())),
            ).len()
            &&& next_names(names, name, StoreReply::FileOpened(Ok::<(), (ErrorKind, E)>(())))[handle]
                == name
        },
        kind == ErrorKind::PermissionDenied ==> next_step(
            names,
            name,
            target,
            StoreReply::FileOpened(Err((kind, error))),
        ) == (StoreStepView::<E>::Done(Ok(0u32))),
        kind != ErrorKind::PermissionDenied ==> next_step(
            names,
            name,
            target,
            StoreReply::FileOpened(Err((kind, error))),
        ) == (StoreStepView::<E>::Done(Err(error))),
        next_names(names, name, StoreReply::FileOpened(Err((kind, error)))) == names,
        next_names(names, name, StoreReply::DirCreated(Err(error))) == names,
        next_names(names, name, StoreReply::DirCreated(Ok::<(), E>(()))) == names,
        next_names(names, name, StoreReply::FileOpened(Ok::<(), (ErrorKind, E)>(()))) == if exists|
            i: int,
        |
            0 <= i < names.len() && names[i] == name {
            names
        } else {
            names.push(name)
        },
{
    law_opened_name_is_known_once(names, name);
    let after = names_with(names, name);
    assert(after[after.index_of(name)] == name);
}

/// What a target and a step are seen as keeps every byte of their paths, and
/// their handles and results.
pub proof fn law_targets_and_steps_are_told_apart<E>(
    handle: usize,
    dir: Vec<u8>,
    path: Vec<u8>,
    result: Result<u32, E>,
)
    ensures
        (StoreTarget::Opened { handle })@ == (StoreTargetView::Opened { handle: handle as int }),
        (StoreTarget::Create { base_dir: None, path })@ == (StoreTargetView::Create {
            base_dir: None,
            path: path@,
        }),
        (StoreTarget::Create { base_dir: Some(dir), path })@ == (StoreTargetView::Create {
            base_dir: Some(dir@),
            path: path@,
        }),
        (StoreStep::<E>::CreateDir { dir })@ == (StoreStepView::<E>::CreateDir { dir: dir@ }),
        (StoreStep::<E>::OpenFile { path })@ == (StoreStepView::<E>::OpenFile { path: path@ }),
        (StoreStep::<E>::Append { handle })@ == (StoreStepView::<E>::Append {
            handle: handle as int,
        }),
        StoreStep::Done(result)@ == StoreStepView::Done(result),
{
}

/// Each failure has its kind and its words, and a request that reaches past the
/// buffer is reported with both of its lengths, whatever they are.
pub proof fn law_failures_say_what_happened(name_len: u32, chunk_len: u32)
    ensures
        FileStoreError::NotRegistered.spec_kind() == ErrorKind::NotFound,
        FileStoreError::Disappeared.spec_kind() == ErrorKind::Other,
        FileStoreError::BufferTooSmall.spec_kind() == ErrorKind::InvalidData,
        (FileStoreError::Overflow { name_len, chunk_len }).spec_kind() == ErrorKind::InvalidData,
        (FileStoreError::Overflow { name_len, chunk_len }).spec_message()
            == "file-store overflows buffer, name_len "@ + decimal(name_len as nat)
            + ", chunk_len "@ + decimal(chunk_len as nat),
{
}

} // verus!
