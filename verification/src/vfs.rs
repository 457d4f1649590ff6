//! What the page I/O layer shares with the SQL engine and with the
//! server: the open flags of a file, the signals of the wire protocol, and
//! the result codes of the page I/O contract.

use vstd::prelude::*;
use vstd::string::StringExecFns;

verus! {

/// The greatest length of a path in bytes.
pub const MAX_PATH_LENGTH: usize = 512;

/// The id of a scratch file, which is read and written in place.
pub const TMP_FLAG: usize = 100;

/// The id of the database file, which is read through the server.
pub const REMOTE_FLAG: usize = 101;

/// Opens a session without cache.
pub const NO_CACHE: u32 = 10;

/// Opens a session with a cache on the client's side.
pub const BOTH_CACHE: u32 = 11;

/// Opens a connection that carries no session.
pub const DEFAULT: u32 = 12;

/// Ends the statement: the server answers with the proof.
pub const END: u32 = 0xffff_ffff;

/// Asks whether a chain of cached hashes still holds.
pub const CONFIRM: u32 = 0xffff_fffe;

/// Asks for the bytes of a page.
pub const QUERY: u32 = 0xffff_fffd;

/// The server's yes, and every acknowledgement.
pub const YES_FLAG: u32 = 28;

/// The server's no.
pub const NO_FLAG: u32 = 29;

/// The file is opened for reading only.
pub const OPEN_READONLY: i32 = 0x1;

/// The file is opened for reading and writing.
pub const OPEN_READWRITE: i32 = 0x2;

/// The file is created where it does not exist.
pub const OPEN_CREATE: i32 = 0x4;

/// The file is deleted when it is closed.
pub const OPEN_DELETEONCLOSE: i32 = 0x8;

/// The file must not exist yet.
pub const OPEN_EXCLUSIVE: i32 = 0x10;

pub const OPEN_MAIN_DB: i32 = 0x100;

pub const OPEN_TEMP_DB: i32 = 0x200;

pub const OPEN_TRANSIENT_DB: i32 = 0x400;

pub const OPEN_MAIN_JOURNAL: i32 = 0x800;

pub const OPEN_TEMP_JOURNAL: i32 = 0x1000;

pub const OPEN_SUBJOURNAL: i32 = 0x2000;

pub const OPEN_SUPER_JOURNAL: i32 = 0x4000;

pub const OPEN_WAL: i32 = 0x80000;

/// The result codes of the page I/O contract.
pub const IO_OK: i32 = 0;

pub const IO_ERROR: i32 = 1;

pub const IO_CANTOPEN: i32 = 14;

pub const IO_NOTFOUND: i32 = 12;

pub const IO_ERR_READ: i32 = 266;

pub const IO_ERR_SHORT_READ: i32 = 522;

pub const IO_ERR_WRITE: i32 = 778;

pub const IO_ERR_FSYNC: i32 = 1034;

pub const IO_ERR_TRUNCATE: i32 = 1546;

pub const IO_ERR_SHMLOCK: i32 = 5130;

pub const IO_ERR_SHMMAP: i32 = 5386;

pub const IO_ERR_CHECKRESERVEDLOCK: i32 = 3594;

pub const IO_ERR_ACCESS: i32 = 3338;

/// The sector size that a file reports.
pub const SECTOR_SIZE: i32 = 1024;

/// What a file says of its device: writes of any size are atomic, bytes
/// that were not written are safe from a crash, data is appended before
/// the size grows, and writes reach the disk in their order.
pub const DEVICE_CHARACTERISTICS: i32 = 0x1 | 0x1000 | 0x200 | 0x400;

/// Where the tree is kept.
pub const MERKLE_PATH: &'static str = "./db/merkle_db/merkle_test";

/// The database file.
pub const MAIN_PATH: &'static str = "./db/sqlite_db/test.db";

/// The scratch file of the server.
pub const TMP_FILE_PATH: &'static str = "./db/tmp_file";

/// The file that stands for the database on the client's side.
pub const HOLDER_FILE_PATH: &'static str = "./db/holder_file";

/// The name of the `cnt`-th scratch file of a client.
pub fn tmp_file_name(cnt: u8) -> (name: String)
    ensures
        name@ == TMP_FILE_PATH@ + crate::transaction::decimal(cnt as nat),
{
    let mut name = String::from_str(TMP_FILE_PATH);
    crate::transaction::append_decimal(&mut name, cnt as u32);
    name
}

/// Where the reads and writes of a file go.
#[derive(Debug, Clone, Copy, PartialEq, Eq, Structural)]
pub enum Route {
    /// To a scratch file on the client's side.
    Scratch,
    /// To the server, through the verified page layer.
    Remote,
}

/// The route of a file by its id; none for an id that names no kind of file.
pub fn route_of(file_id: usize) -> (r: Option<Route>)
    ensures
        file_id == TMP_FLAG ==> r == Some(Route::Scratch),
        file_id == REMOTE_FLAG ==> r == Some(Route::Remote),
        file_id != TMP_FLAG && file_id != REMOTE_FLAG ==> r is None,
{
    if file_id == TMP_FLAG {
        Some(Route::Scratch)
    } else if file_id == REMOTE_FLAG {
        Some(Route::Remote)
    } else {
        None
    }
}

/// How a read of a file failed.
#[derive(Debug, Clone, Copy, PartialEq, Eq, Structural)]
pub enum ReadFailure {
    /// The file ended before the buffer was full.
    UnexpectedEof,
    /// Any other failure.
    Other,
}

/// The result code of a read: `seek_pos` is where the seek to `offset`
/// ended, if it did not fail, and `failure` is how the read failed, if it
/// did.
pub fn read_status(seek_pos: Option<u64>, offset: u64, failure: Option<ReadFailure>) -> (code: i32)
    ensures
        seek_pos != Some(offset) ==> code == IO_ERR_READ,
        seek_pos == Some(offset) ==> code == (match failure {
            None => IO_OK,
            Some(ReadFailure::UnexpectedEof) => IO_ERR_SHORT_READ,
            Some(ReadFailure::Other) => IO_ERR_READ,
        }),
{
    match seek_pos {
        Some(o) => {
            if o != offset {
                return IO_ERR_READ;
            }
        },
        None => {
            return IO_ERR_READ;
        },
    }
    match failure {
        None => IO_OK,
        Some(ReadFailure::UnexpectedEof) => IO_ERR_SHORT_READ,
        Some(ReadFailure::Other) => IO_ERR_READ,
    }
}

/// The result code of a write: `seek_pos` is where the seek to `offset`
/// ended, if it did not fail.
pub fn write_status(seek_pos: Option<u64>, offset: u64, write_failed: bool) -> (code: i32)
    ensures
        seek_pos != Some(offset) ==> code == IO_ERR_READ,
        seek_pos == Some(offset) ==> code == (if write_failed {
            IO_ERR_WRITE
        } else {
            IO_OK
        }),
{
    match seek_pos {
        Some(o) => {
            if o != offset {
                return IO_ERR_READ;
            }
        },
        None => {
            return IO_ERR_READ;
        },
    }
    if write_failed {
        IO_ERR_WRITE
    } else {
        IO_OK
    }
}

/// The result code of a truncation.
pub fn truncate_status(failed: bool) -> (code: i32)
    ensures
        code == (if failed {
            IO_ERR_TRUNCATE
        } else {
            IO_OK
        }),
{
    if failed {
        IO_ERR_TRUNCATE
    } else {
        IO_OK
    }
}

/// The result code of a sync.
pub fn sync_status(failed: bool) -> (code: i32)
    ensures
        code == (if failed {
            IO_ERR_FSYNC
        } else {
            IO_OK
        }),
{
    if failed {
        IO_ERR_FSYNC
    } else {
        IO_OK
    }
}

/// What is asked of a path.
#[derive(Debug, Clone, Copy, PartialEq, Eq, Structural)]
pub enum AccessCheck {
    /// Whether the file exists.
    Exists,
    /// Whether the file can be read.
    Read,
    /// Whether the file can be read and written.
    ReadWrite,
}

/// What the flags of an access request ask; none for other flags, which
/// are answered with an access error.
pub fn access_check(flags: i32) -> (r: Option<AccessCheck>)
    ensures
        r == (match flags {
            0 => Some(AccessCheck::Exists),
            1 => Some(AccessCheck::ReadWrite),
            2 => Some(AccessCheck::Read),
            _ => None,
        }),
{
    match flags {
        0 => Some(AccessCheck::Exists),
        1 => Some(AccessCheck::ReadWrite),
        2 => Some(AccessCheck::Read),
        _ => None,
    }
}

/// Whether a path of `len` bytes, the closing zero counted, is handed
/// out as a full pathname into a buffer of `n_out` bytes.
pub fn full_pathname_fits(len: usize, n_out: usize) -> (r: bool)
    ensures
        r == (len <= n_out && len <= MAX_PATH_LENGTH),
{
    !(len > n_out || len > MAX_PATH_LENGTH)
}

/// The kind of file that is opened.
#[derive(Debug, Clone, Copy, PartialEq, Eq, Structural)]
pub enum OpenKind {
    MainDb,
    MainJournal,
    TempDb,
    TempJournal,
    TransientDb,
    SubJournal,
    SuperJournal,
    Wal,
}

impl OpenKind {
    /// The kind that the flags name: the first of the kinds, in the order
    /// of the variants, whose bit is set.
    pub open spec fn spec_from_flags(flags: i32) -> Option<OpenKind> {
        if flags & OPEN_MAIN_DB > 0 {
            Some(OpenKind::MainDb)
        } else if flags & OPEN_MAIN_JOURNAL > 0 {
            Some(OpenKind::MainJournal)
        } else if flags & OPEN_TEMP_DB > 0 {
            Some(OpenKind::TempDb)
        } else if flags & OPEN_TEMP_JOURNAL > 0 {
            Some(OpenKind::TempJournal)
        } else if flags & OPEN_TRANSIENT_DB > 0 {
            Some(OpenKind::TransientDb)
        } else if flags & OPEN_SUBJOURNAL > 0 {
            Some(OpenKind::SubJournal)
        } else if flags & OPEN_SUPER_JOURNAL > 0 {
            Some(OpenKind::SuperJournal)
        } else if flags & OPEN_WAL > 0 {
            Some(OpenKind::Wal)
        } else {
            None
        }
    }

    pub fn from_flags(flags: i32) -> (r: Option<OpenKind>)
        ensures
            r == Self::spec_from_flags(flags),
    {
        if flags & OPEN_MAIN_DB > 0 {
            Some(OpenKind::MainDb)
        } else if flags & OPEN_MAIN_JOURNAL > 0 {
            Some(OpenKind::MainJournal)
        } else if flags & OPEN_TEMP_DB > 0 {
            Some(OpenKind::TempDb)
        } else if flags & OPEN_TEMP_JOURNAL > 0 {
            Some(OpenKind::TempJournal)
        } else if flags & OPEN_TRANSIENT_DB > 0 {
            Some(OpenKind::TransientDb)
        } else if flags & OPEN_SUBJOURNAL > 0 {
            Some(OpenKind::SubJournal)
        } else if flags & OPEN_SUPER_JOURNAL > 0 {
            Some(OpenKind::SuperJournal)
        } else if flags & OPEN_WAL > 0 {
            Some(OpenKind::Wal)
        } else {
            None
        }
    }
}

/// The access with which a file is opened.
#[derive(Debug, Clone, Copy, PartialEq, Eq, Structural)]
pub enum OpenAccess {
    /// Read access.
    Read,
    /// Write access, which includes read access.
    Write,
    /// The file is created if it does not exist.
    Create,
    /// The file is created, and must not exist.
    CreateNew,
}

impl OpenAccess {
    /// The access that the flags name: creation before writing, writing
    /// before reading.
    pub open spec fn spec_from_flags(flags: i32) -> Option<OpenAccess> {
        if flags & OPEN_CREATE > 0 && flags & OPEN_EXCLUSIVE > 0 {
            Some(OpenAccess::CreateNew)
        } else if flags & OPEN_CREATE > 0 {
            Some(OpenAccess::Create)
        } else if flags & OPEN_READWRITE > 0 {
            Some(OpenAccess::Write)
        } else if flags & OPEN_READONLY > 0 {
            Some(OpenAccess::Read)
        } else {
            None
        }
    }

    pub fn from_flags(flags: i32) -> (r: Option<OpenAccess>)
        ensures
            r == Self::spec_from_flags(flags),
    {
        if (flags & OPEN_CREATE > 0) && (flags & OPEN_EXCLUSIVE > 0) {
            Some(OpenAccess::CreateNew)
        } else if flags & OPEN_CREATE > 0 {
            Some(OpenAccess::Create)
        } else if flags & OPEN_READWRITE > 0 {
            Some(OpenAccess::Write)
        } else if flags & OPEN_READONLY > 0 {
            Some(OpenAccess::Read)
        } else {
            None
        }
    }
}

/// How a file is opened.
#[derive(Debug, Clone, Copy, PartialEq, Eq, Structural)]
pub struct OpenOptions {
    /// The kind of file.
    pub kind: OpenKind,
    /// The access.
    pub access: OpenAccess,
    /// Whether the file is deleted when it is closed.
    pub delete_on_close: bool,
}

impl OpenOptions {
    /// The options that the flags name; none where the flags name no kind
    /// or no access.
    pub open spec fn spec_from_flags(flags: i32) -> Option<OpenOptions> {
        match (OpenKind::spec_from_flags(flags), OpenAccess::spec_from_flags(flags)) {
            (Some(kind), Some(access)) => Some(
                OpenOptions { kind, access, delete_on_close: flags & OPEN_DELETEONCLOSE > 0 },
            ),
            _ => None,
        }
    }

    pub fn from_flags(flags: i32) -> (r: Option<OpenOptions>)
        ensures
            r == Self::spec_from_flags(flags),
    {
        let kind = match OpenKind::from_flags(flags) {
            Some(k) => k,
            None => {
                return None;
            },
        };
        let access = match OpenAccess::from_flags(flags) {
            Some(a) => a,
            None => {
                return None;
            },
        };
        Some(OpenOptions { kind, access, delete_on_close: flags & OPEN_DELETEONCLOSE > 0 })
    }
}

/// The cache that a client session uses.
#[derive(Debug, Clone, Copy, PartialEq, Eq, Structural)]
pub enum Type {
    /// No cache.
    NoCache,
    /// A cache that is emptied before each statement.
    Intra,
    /// A cache whose entries are confirmed by the server.
    Both,
    /// A cache whose entries are checked against the version filter by
    /// the slots of whole subtrees.
    BothBloom,
    /// A cache whose pages are checked against the version filter.
    SimpleBloom,
}

impl Type {
    /// The signal that opens a session with this cache.
    pub fn signal(&self) -> (s: u32)
        ensures
            s == (match self {
                Type::NoCache | Type::Intra => NO_CACHE,
                Type::Both | Type::BothBloom | Type::SimpleBloom => BOTH_CACHE,
            }),
    {
        match self {
            Type::NoCache | Type::Intra => NO_CACHE,
            Type::Both | Type::BothBloom | Type::SimpleBloom => BOTH_CACHE,
        }
    }

    /// The cache that an optimisation level of the command line names.
    pub fn from_opt_level(opt_level: u8) -> (t: Option<Type>)
        ensures
            t == (match opt_level {
                0 => Some(Type::NoCache),
                1 => Some(Type::Intra),
                2 => Some(Type::Both),
                3 => Some(Type::SimpleBloom),
                _ => None,
            }),
    {
        match opt_level {
            0 => Some(Type::NoCache),
            1 => Some(Type::Intra),
            2 => Some(Type::Both),
            3 => Some(Type::SimpleBloom),
            _ => None,
        }
    }
}

} // verus!
