//! NFSv4.1 / NFSv4.2 protocol numbers used by the client.

use vstd::prelude::*;

verus! {

pub const NFS4_OK: u32 = 0;
pub const NFS4ERR_NOENT: u32 = 2;
pub const NFS4ERR_IO: u32 = 5;
pub const NFS4ERR_NOTDIR: u32 = 20;
pub const NFS4ERR_INVAL: u32 = 22;
pub const NFS4ERR_NOTSUPP: u32 = 10004;
pub const NFS4ERR_MINOR_VERS_MISMATCH: u32 = 10021;
pub const NFS4ERR_STALE_STATEID: u32 = 10023;
pub const NFS4ERR_OLD_STATEID: u32 = 10024;
pub const NFS4ERR_BAD_STATEID: u32 = 10025;
pub const NFS4ERR_BAD_SEQID: u32 = 10026;
pub const NFS4ERR_SYMLINK: u32 = 10029;
pub const NFS4ERR_OP_ILLEGAL: u32 = 10044;
pub const NFS4ERR_TOO_MANY_OPS: u32 = 10070;
pub const NFS4ERR_OFFLOAD_DENIED: u32 = 10091;
pub const NFS4ERR_OFFLOAD_NO_REQS: u32 = 10094;

pub const FATTR4_TYPE: u32 = 1;
pub const FATTR4_CHANGE: u32 = 3;
pub const FATTR4_SIZE: u32 = 4;
pub const FATTR4_NAMED_ATTR: u32 = 7;
pub const FATTR4_FILEID: u32 = 20;
pub const FATTR4_MODE: u32 = 33;
pub const FATTR4_NUMLINKS: u32 = 35;
pub const FATTR4_OWNER: u32 = 36;
pub const FATTR4_OWNER_GROUP: u32 = 37;
pub const FATTR4_RAWDEV: u32 = 41;
pub const FATTR4_SPACE_USED: u32 = 45;
pub const FATTR4_TIME_ACCESS: u32 = 47;
pub const FATTR4_TIME_METADATA: u32 = 52;
pub const FATTR4_TIME_MODIFY: u32 = 53;

pub const OPEN4_SHARE_ACCESS_READ: u32 = 1;
pub const OPEN4_SHARE_ACCESS_WRITE: u32 = 2;
pub const OPEN4_SHARE_ACCESS_BOTH: u32 = 3;
pub const OPEN4_SHARE_DENY_NONE: u32 = 0;

/// `FILE_SYNC4`: data and metadata are on stable storage.
pub const FILE_SYNC4: u32 = 2;

/// `open(2)` flags and file-type bits of the Linux ABI.
pub const O_RDONLY: i32 = 0;
pub const O_WRONLY: i32 = 1;
pub const O_RDWR: i32 = 2;
pub const O_ACCMODE: i32 = 3;
pub const O_CREAT: i32 = 0x40;
pub const O_EXCL: i32 = 0x80;
pub const O_TRUNC: i32 = 0x200;
pub const O_APPEND: i32 = 0x400;
pub const O_DIRECTORY: i32 = 0x10000;
pub const S_IFMT: u32 = 0xF000;
pub const S_IFSOCK: u32 = 0xC000;
pub const S_IFLNK: u32 = 0xA000;
pub const S_IFREG: u32 = 0x8000;
pub const S_IFBLK: u32 = 0x6000;
pub const S_IFDIR: u32 = 0x4000;
pub const S_IFCHR: u32 = 0x2000;
pub const S_IFIFO: u32 = 0x1000;
pub const EBUSY: u32 = 16;
pub const ENOSPC: u32 = 28;
pub const ENOTEMPTY: u32 = 39;
pub const EOVERFLOW: u32 = 75;
pub const EILSEQ: u32 = 84;

} // verus!
