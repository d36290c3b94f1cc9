//! The secure-storage steps of the trusted applications, and their commands.
//!
//! Creating, reading and deleting a persistent object each take a few calls
//! to the TEE's storage service, with a decision after every reply.  Each
//! operation is a small machine here: it says which call comes next
//! (`StorageCall`) and, once the replies are in, how the operation ends.
//! The caller performs the calls and hands back the replies.
use vstd::prelude::*;

verus! {

/// Access rights and sharing permissions of an opened persistent object.
#[derive(PartialEq, Eq, Structural, Clone, Copy, Debug)]
pub struct AccessFlags {
    pub access_read: bool,
    pub access_write: bool,
    pub access_write_meta: bool,
    pub share_read: bool,
    pub overwrite: bool,
}

/// Why a storage operation failed.
#[derive(PartialEq, Eq, Structural, Clone, Copy, Debug)]
pub enum StorageError {
    /// The storage service refused a call with this error code.
    Tee(u32),
    /// The object held another number of bytes than were read.
    ExcessData,
}

/// The next call to make to the storage service.
#[derive(Debug)]
pub enum StorageCall {
    /// Create the private persistent object `object_id` with `flags`, no
    /// attributes and no initial data (replacing any object of that id when
    /// `flags.overwrite` holds).
    Create { object_id: Vec<u8>, flags: AccessFlags },
    /// Open the private persistent object `object_id` with `flags`.
    Open { object_id: Vec<u8>, flags: AccessFlags },
    /// Write `data` to the object.
    Write { data: Vec<u8> },
    /// Get the object's information (its data size).
    Info,
    /// Make the buffer `len` zero bytes long and read the object into it.
    Read { len: usize },
    /// Close the object and delete it.
    CloseAndDelete,
}

/// The mathematical value of a `StorageCall`.
pub enum StorageCallView {
    Create { object_id: Seq<u8>, flags: AccessFlags },
    Open { object_id: Seq<u8>, flags: AccessFlags },
    Write { data: Seq<u8> },
    Info,
    Read { len: usize },
    CloseAndDelete,
}

impl View for StorageCall {
    type V = StorageCallView;

    open spec fn view(&self) -> StorageCallView {
        match self {
            StorageCall::Create { object_id, flags } => StorageCallView::Create {
                object_id: object_id@,
                flags: *flags,
            },
            StorageCall::Open { object_id, flags } => StorageCallView::Open {
                object_id: object_id@,
                flags: *flags,
            },
            StorageCall::Write { data } => StorageCallView::Write { data: data@ },
            StorageCall::Info => StorageCallView::Info,
            StorageCall::Read { len } => StorageCallView::Read { len: *len },
            StorageCall::CloseAndDelete => StorageCallView::CloseAndDelete,
        }
    }
}

/// What comes after a reply: another call, the end of the operation, or an
/// abort (a failed read, which the trusted application does not survive).
#[derive(Debug)]
pub enum Step<T> {
    Call(StorageCall),
    Finished(Result<T, StorageError>),
    Aborted,
}

/// Stages of creating an object.
#[derive(PartialEq, Eq, Structural, Clone, Copy, Debug)]
pub enum CreateStage {
    AwaitCreate,
    AwaitWrite,
    /// The write failed with this code; the object is being deleted.
    AwaitDelete(u32),
    Done,
}

/// Creating a persistent object and writing its data.
pub struct ObjectCreation {
    data: Vec<u8>,
    stage: CreateStage,
}

/// Stages of reading an object.
#[derive(PartialEq, Eq, Structural, Clone, Copy, Debug)]
pub enum ReadStage {
    AwaitOpen,
    AwaitInfo,
    /// The object holds this many bytes; they are being read.
    AwaitRead(usize),
    Done,
}

/// Reading a persistent object's data.
pub struct ObjectRead {
    stage: ReadStage,
}

/// Stages of deleting an object.
#[derive(PartialEq, Eq, Structural, Clone, Copy, Debug)]
pub enum DeleteStage {
    AwaitOpen,
    AwaitDelete,
    Done,
}

/// Deleting a persistent object.
pub struct ObjectDeletion {
    stage: DeleteStage,
}

/// The id of the object that the file commands work on: `config`.
pub open spec fn config_id() -> Seq<u8> {
    seq!['c' as u8, 'o' as u8, 'n' as u8, 'f' as u8, 'i' as u8, 'g' as u8]
}

/// Flags for creating an object: read, write and write-meta access,
/// replacing an existing object.
pub open spec fn create_flags() -> AccessFlags {
    AccessFlags {
        access_read: true,
        access_write: true,
        access_write_meta: true,
        share_read: false,
        overwrite: true,
    }
}

/// Flags for opening an object to read it: read access, shared reading.
pub open spec fn read_flags() -> AccessFlags {
    AccessFlags {
        access_read: true,
        access_write: false,
        access_write_meta: false,
        share_read: true,
        overwrite: false,
    }
}

/// Flags for opening an object to delete it: read and write-meta access.
pub open spec fn delete_flags() -> AccessFlags {
    AccessFlags {
        access_read: true,
        access_write: false,
        access_write_meta: true,
        share_read: false,
        overwrite: false,
    }
}

/// How creating an object ends, from the replies to the create call, the
/// write call (when made) and the delete call (when made): a failed create
/// or write fails the operation, and after a failed write the object is
/// deleted, a failed delete replacing the write's error.
pub open spec fn creation_outcome(
    created: Result<(), u32>,
    written: Result<(), u32>,
    deleted: Result<(), u32>,
) -> Result<(), StorageError> {
    match created {
        Err(e) => Err(StorageError::Tee(e)),
        Ok(()) => match written {
            Ok(()) => Ok(()),
            Err(ew) => match deleted {
                Ok(()) => Err(StorageError::Tee(ew)),
                Err(ed) => Err(StorageError::Tee(ed)),
            },
        },
    }
}

/// How a read ends once `count` bytes were read from an object of `size`
/// bytes: the count, unless it differs from the size taken as a `u32`.
pub open spec fn read_outcome(size: usize, count: u32) -> Result<u32, StorageError> {
    if count as int != size as int % 0x1_0000_0000 {
        Err(StorageError::ExcessData)
    } else {
        Ok(count)
    }
}

impl ObjectCreation {
    /// The stage the creation is at.
    pub closed spec fn stage(&self) -> CreateStage {
        self.stage
    }

    /// The data still to be written.
    pub closed spec fn data(&self) -> Seq<u8> {
        self.data@
    }

    /// Starts creating the object `uri` holding `data`: the first call
    /// creates it with read, write and write-meta access, replacing any
    /// object of that id.
    pub fn start(uri: &[u8], data: Vec<u8>) -> (r: (ObjectCreation, StorageCall))
        ensures
            r.0.stage() == CreateStage::AwaitCreate,
            r.0.data() == data@,
            r.1@ == (StorageCallView::Create { object_id: uri@, flags: create_flags() }),
    {
        let object_id = vstd::slice::slice_to_vec(uri);
        let flags = AccessFlags {
            access_read: true,
            access_write: true,
            access_write_meta: true,
            share_read: false,
            overwrite: true,
        };
        (ObjectCreation { data, stage: CreateStage::AwaitCreate }, StorageCall::Create {
            object_id,
            flags,
        })
    }

    /// The reply to the create call: on success the data is written next.
    pub fn on_created(&mut self, reply: Result<(), u32>) -> (r: Step<()>)
        requires
            old(self).stage() == CreateStage::AwaitCreate,
        ensures
            match reply {
                Ok(()) => {
                    &&& final(self).stage() == CreateStage::AwaitWrite
                    &&& r matches Step::Call(c) && c@ == (StorageCallView::Write {
                        data: old(self).data(),
                    })
                },
                Err(e) => {
                    &&& final(self).stage() == CreateStage::Done
                    &&& r matches Step::Finished(f) && f == creation_outcome(
                        reply,
                        Ok(()),
                        Ok(()),
                    )
                },
            },
    {
        match reply {
            Ok(()) => {
                self.stage = CreateStage::AwaitWrite;
                let mut data: Vec<u8> = Vec::new();
                std::mem::swap(&mut data, &mut self.data);
                Step::Call(StorageCall::Write { data })
            },
            Err(e) => {
                self.stage = CreateStage::Done;
                Step::Finished(Err(StorageError::Tee(e)))
            },
        }
    }

    /// The reply to the write call: on failure the object is deleted next.
    pub fn on_written(&mut self, reply: Result<(), u32>) -> (r: Step<()>)
        requires
            old(self).stage() == CreateStage::AwaitWrite,
        ensures
            match reply {
                Ok(()) => {
                    &&& final(self).stage() == CreateStage::Done
                    &&& r matches Step::Finished(f) && f == creation_outcome(Ok(()), reply, Ok(()))
                },
                Err(ew) => {
                    &&& final(self).stage() == CreateStage::AwaitDelete(ew)
                    &&& r matches Step::Call(c) && c@ == StorageCallView::CloseAndDelete
                },
            },
    {
        match reply {
            Ok(()) => {
                self.stage = CreateStage::Done;
                Step::Finished(Ok(()))
            },
            Err(ew) => {
                self.stage = CreateStage::AwaitDelete(ew);
                Step::Call(StorageCall::CloseAndDelete)
            },
        }
    }

    /// The reply to deleting the object after a failed write: the write's
    /// error, or the delete's when that failed too.
    pub fn on_deleted(&mut self, reply: Result<(), u32>) -> (r: Step<()>)
        requires
            old(self).stage() is AwaitDelete,
        ensures
            final(self).stage() == CreateStage::Done,
            r matches Step::Finished(f) && f == creation_outcome(
                Ok(()),
                Err(old(self).stage()->AwaitDelete_0),
                reply,
            ),
    {
        let ew = match self.stage {
            CreateStage::AwaitDelete(ew) => ew,
            _ => 0,
        };
        self.stage = CreateStage::Done;
        match reply {
            Ok(()) => Step::Finished(Err(StorageError::Tee(ew))),
            Err(ed) => Step::Finished(Err(StorageError::Tee(ed))),
        }
    }
}

impl ObjectRead {
    /// The stage the read is at.
    pub closed spec fn stage(&self) -> ReadStage {
        self.stage
    }

    /// Starts reading the object `uri`: the first call opens it with read
    /// access, shared reading allowed.
    pub fn start(uri: &[u8]) -> (r: (ObjectRead, StorageCall))
        ensures
            r.0.stage() == ReadStage::AwaitOpen,
            r.1@ == (StorageCallView::Open { object_id: uri@, flags: read_flags() }),
    {
        let object_id = vstd::slice::slice_to_vec(uri);
        let flags = AccessFlags {
            access_read: true,
            access_write: false,
            access_write_meta: false,
            share_read: true,
            overwrite: false,
        };
        (ObjectRead { stage: ReadStage::AwaitOpen }, StorageCall::Open { object_id, flags })
    }

    /// The reply to the open call: on success the object's size is asked.
    pub fn on_opened(&mut self, reply: Result<(), u32>) -> (r: Step<u32>)
        requires
            old(self).stage() == ReadStage::AwaitOpen,
        ensures
            match reply {
                Ok(()) => {
                    &&& final(self).stage() == ReadStage::AwaitInfo
                    &&& r matches Step::Call(c) && c@ == StorageCallView::Info
                },
                Err(e) => {
                    &&& final(self).stage() == ReadStage::Done
                    &&& r matches Step::Finished(f) && f == Err::<u32, StorageError>(
                        StorageError::Tee(e),
                    )
                },
            },
    {
        match reply {
            Ok(()) => {
                self.stage = ReadStage::AwaitInfo;
                Step::Call(StorageCall::Info)
            },
            Err(e) => {
                self.stage = ReadStage::Done;
                Step::Finished(Err(StorageError::Tee(e)))
            },
        }
    }

    /// The reply to the information call, the object's data size: on
    /// success that many bytes are read.
    pub fn on_info(&mut self, reply: Result<usize, u32>) -> (r: Step<u32>)
        requires
            old(self).stage() == ReadStage::AwaitInfo,
        ensures
            match reply {
                Ok(size) => {
                    &&& final(self).stage() == ReadStage::AwaitRead(size)
                    &&& r matches Step::Call(c) && c@ == (StorageCallView::Read { len: size })
                },
                Err(e) => {
                    &&& final(self).stage() == ReadStage::Done
                    &&& r matches Step::Finished(f) && f == Err::<u32, StorageError>(
                        StorageError::Tee(e),
                    )
                },
            },
    {
        match reply {
            Ok(size) => {
                self.stage = ReadStage::AwaitRead(size);
                Step::Call(StorageCall::Read { len: size })
            },
            Err(e) => {
                self.stage = ReadStage::Done;
                Step::Finished(Err(StorageError::Tee(e)))
            },
        }
    }

    /// The reply to the read call, the number of bytes read: a failed read
    /// aborts; otherwise the count must be the object's size.
    pub fn on_read(&mut self, reply: Result<u32, u32>) -> (r: Step<u32>)
        requires
            old(self).stage() is AwaitRead,
        ensures
            final(self).stage() == ReadStage::Done,
            match reply {
                Ok(count) => r matches Step::Finished(f) && f == read_outcome(
                    old(self).stage()->AwaitRead_0,
                    count,
                ),
                Err(e) => r is Aborted,
            },
    {
        let size = match self.stage {
            ReadStage::AwaitRead(size) => size,
            _ => 0,
        };
        self.stage = ReadStage::Done;
        match reply {
            Ok(count) => {
                let expected: u32 = size as u32;
                assert(expected == size as int % 0x1_0000_0000) by (bit_vector)
                    requires
                        expected == size as u32,
                ;
                if count != expected {
                    Step::Finished(Err(StorageError::ExcessData))
                } else {
                    Step::Finished(Ok(count))
                }
            },
            Err(_) => Step::Aborted,
        }
    }
}

impl ObjectDeletion {
    /// The stage the deletion is at.
    pub closed spec fn stage(&self) -> DeleteStage {
        self.stage
    }

    /// Starts deleting the object `uri`: the first call opens it with read
    /// and write-meta access.
    pub fn start(uri: &[u8]) -> (r: (ObjectDeletion, StorageCall))
        ensures
            r.0.stage() == DeleteStage::AwaitOpen,
            r.1@ == (StorageCallView::Open { object_id: uri@, flags: delete_flags() }),
    {
        let object_id = vstd::slice::slice_to_vec(uri);
        let flags = AccessFlags {
            access_read: true,
            access_write: false,
            access_write_meta: true,
            share_read: false,
            overwrite: false,
        };
        (ObjectDeletion { stage: DeleteStage::AwaitOpen }, StorageCall::Open { object_id, flags })
    }

    /// The reply to the open call: on success the object is deleted next.
    pub fn on_opened(&mut self, reply: Result<(), u32>) -> (r: Step<()>)
        requires
            old(self).stage() == DeleteStage::AwaitOpen,
        ensures
            match reply {
                Ok(()) => {
                    &&& final(self).stage() == DeleteStage::AwaitDelete
                    &&& r matches Step::Call(c) && c@ == StorageCallView::CloseAndDelete
                },
                Err(e) => {
                    &&& final(self).stage() == DeleteStage::Done
                    &&& r matches Step::Finished(f) && f == Err::<(), StorageError>(
                        StorageError::Tee(e),
                    )
                },
            },
    {
        match reply {
            Ok(()) => {
                self.stage = DeleteStage::AwaitDelete;
                Step::Call(StorageCall::CloseAndDelete)
            },
            Err(e) => {
                self.stage = DeleteStage::Done;
                Step::Finished(Err(StorageError::Tee(e)))
            },
        }
    }

    /// The reply to the delete call ends the deletion.
    pub fn on_deleted(&mut self, reply: Result<(), u32>) -> (r: Step<()>)
        requires
            old(self).stage() == DeleteStage::AwaitDelete,
        ensures
            final(self).stage() == DeleteStage::Done,
            r matches Step::Finished(f) && f == match reply {
                Ok(()) => Ok::<(), StorageError>(()),
                Err(e) => Err(StorageError::Tee(e)),
            },
    {
        self.stage = DeleteStage::Done;
        match reply {
            Ok(()) => Step::Finished(Ok(())),
            Err(e) => Step::Finished(Err(StorageError::Tee(e))),
        }
    }
}

/// Starts creating the persistent object `uri` holding `data`.
pub fn create_raw_object(uri: &[u8], data: Vec<u8>) -> (r: (ObjectCreation, StorageCall))
    ensures
        r.0.stage() == CreateStage::AwaitCreate,
        r.0.data() == data@,
        r.1@ == (StorageCallView::Create { object_id: uri@, flags: create_flags() }),
{
    ObjectCreation::start(uri, data)
}

/// Starts reading the persistent object `uri`.
pub fn read_raw_object(uri: &[u8]) -> (r: (ObjectRead, StorageCall))
    ensures
        r.0.stage() == ReadStage::AwaitOpen,
        r.1@ == (StorageCallView::Open { object_id: uri@, flags: read_flags() }),
{
    ObjectRead::start(uri)
}

/// Starts deleting the persistent object `uri`.
pub fn delete_object(uri: &[u8]) -> (r: (ObjectDeletion, StorageCall))
    ensures
        r.0.stage() == DeleteStage::AwaitOpen,
        r.1@ == (StorageCallView::Open { object_id: uri@, flags: delete_flags() }),
{
    ObjectDeletion::start(uri)
}

fn config_bytes() -> (r: Vec<u8>)
    ensures
        r@ == config_id(),
{
    let r = vec!['c' as u8, 'o' as u8, 'n' as u8, 'f' as u8, 'i' as u8, 'g' as u8];
    assert(r@ =~= config_id());
    r
}

/// Starts creating the object `config` holding `file_size` zero bytes.
pub fn create_file(file_size: u32) -> (r: (ObjectCreation, StorageCall))
    ensures
        r.0.stage() == CreateStage::AwaitCreate,
        r.0.data() == Seq::new(file_size as nat, |i: int| 0u8),
        r.1@ == (StorageCallView::Create { object_id: config_id(), flags: create_flags() }),
{
    let data = vec![0u8; file_size as usize];
    assert(data@ =~= Seq::new(file_size as nat, |i: int| 0u8));
    let id = config_bytes();
    create_raw_object(id.as_slice(), data)
}

/// Starts reading the object `config`.
pub fn read_file() -> (r: (ObjectRead, StorageCall))
    ensures
        r.0.stage() == ReadStage::AwaitOpen,
        r.1@ == (StorageCallView::Open { object_id: config_id(), flags: read_flags() }),
{
    let id = config_bytes();
    read_raw_object(id.as_slice())
}

/// Starts deleting the object `config`.
pub fn delete_file() -> (r: (ObjectDeletion, StorageCall))
    ensures
        r.0.stage() == DeleteStage::AwaitOpen,
        r.1@ == (StorageCallView::Open { object_id: config_id(), flags: delete_flags() }),
{
    let id = config_bytes();
    delete_object(id.as_slice())
}

/// Creating an object succeeds exactly when both the create and the write
/// call succeed; after a failed write the write's error is reported, unless
/// deleting the half-made object fails too.
pub proof fn lemma_creation_outcome(
    created: Result<(), u32>,
    written: Result<(), u32>,
    deleted: Result<(), u32>,
)
    ensures
        creation_outcome(created, written, deleted) is Ok <==> created is Ok && written is Ok,
        created is Ok && written is Err && deleted is Ok ==> creation_outcome(
            created,
            written,
            deleted,
        ) == Err::<(), StorageError>(StorageError::Tee(written->Err_0)),
{
}

/// A read succeeds exactly when the count of bytes read is the object's
/// size (taken as a `u32`), and then returns that count.
pub proof fn lemma_read_outcome(size: usize, count: u32)
    ensures
        read_outcome(size, count) is Ok <==> count as int == size as int % 0x1_0000_0000,
        read_outcome(size, count) is Ok ==> read_outcome(size, count) == Ok::<u32, StorageError>(
            count,
        ),
        size <= u32::MAX ==> (read_outcome(size, count) is Ok <==> count == size),
{
}

} // verus!
