//! SMB2/3 transfers: statuses and bodies of replies, chunked transfers, and
//! whole files in one related compound.

use vstd::prelude::*;
use vstd::string::*;

use smb2::msg::create::CreateResponse;
use smb2::msg::query_info::QueryInfoResponse;
use smb2::msg::read::ReadResponse;
use smb2::msg::write::WriteResponse;
use smb2::pack::{ReadCursor, Unpack};
use smb2::types::status::NtStatus;
use smb2::types::Command;
use smb2::Error;

use crate::smb::{
    is_smb_error, kind_of_status, smb_error, status_kind, SmbErrorKind, SmbFailure,
    DEFAULT_TRANSFER, STATUS_END_OF_FILE, STATUS_SUCCESS,
};
use crate::text::{append_decimal, decimal};
use crate::vecfs::{VfError, VfRes, VfResult, ERR_INVAL};

verus! {

/// A handle that the server gave to an open file.
#[derive(Debug, Clone, Copy, PartialEq, Eq, Structural)]
pub struct SmbFileId {
    pub persistent: u64,
    pub volatile: u64,
}

/// A reply: the server's status and the body.
#[derive(Debug)]
pub struct SmbFrame {
    pub status: u32,
    pub body: Vec<u8>,
}

/// The commands whose replies are checked here.
#[derive(Debug, Clone, Copy, PartialEq, Eq, Structural)]
pub enum SmbCommand {
    Create,
    Close,
    Flush,
    Read,
    Write,
    QueryInfo,
    SetInfo,
}

// ---------------------------------------------------------------------------
// Little-endian numbers
// ---------------------------------------------------------------------------

pub open spec fn le16(s: Seq<u8>, at: int) -> int {
    s[at] + s[at + 1] * 0x100
}

pub open spec fn le32(s: Seq<u8>, at: int) -> int {
    le16(s, at) + le16(s, at + 2) * 0x1_0000
}

pub open spec fn le64(s: Seq<u8>, at: int) -> int {
    le32(s, at) + le32(s, at + 4) * 0x1_0000_0000
}

/// The bytes of a number, lowest first.
pub open spec fn le64_bytes(v: u64) -> Seq<u8> {
    Seq::new(8, |i: int| byte_of(v, i))
}

/// Byte `i` of a number, counted from the lowest.
pub open spec fn byte_of(v: u64, i: int) -> u8
    decreases i,
{
    if i <= 0 {
        (v % 0x100) as u8
    } else {
        byte_of(v / 0x100, i - 1)
    }
}

/// The number at the front of eight bytes.
fn read_le64(s: &[u8], at: usize) -> (r: u64)
    requires
        at + 8 <= s@.len(),
    ensures
        r == le64(s@, at as int),
{
    let a: u64 = s[at] as u64 + s[at + 1] as u64 * 0x100 + (s[at + 2] as u64 + s[at + 3] as u64
        * 0x100) * 0x1_0000;
    let b: u64 = s[at + 4] as u64 + s[at + 5] as u64 * 0x100 + (s[at + 6] as u64 + s[at + 7] as u64
        * 0x100) * 0x1_0000;
    assert(a == le32(s@, at as int));
    assert(b == le32(s@, at + 4));
    a + b * 0x1_0000_0000
}

/// The body of a request that sets a file's size.
pub fn size_bytes(size: u64) -> (r: Vec<u8>)
    ensures
        r@ == le64_bytes(size),
{
    let mut out: Vec<u8> = Vec::new();
    let mut rest: u64 = size;
    let mut i: usize = 0;
    while i < 8
        invariant
            i <= 8,
            out@.len() == i,
            forall|k: int| 0 <= k < i ==> (#[trigger] out@[k]) == byte_of(size, k),
            forall|k: int| 0 <= k ==> (#[trigger] byte_of(rest, k)) == byte_of(size, k + i),
        decreases 8 - i,
    {
        assert(byte_of(rest, 0) == byte_of(size, i as int));
        out.push((rest % 0x100) as u8);
        proof {
            assert forall|k: int| 0 <= k implies (#[trigger] byte_of(rest / 0x100, k)) == byte_of(
                size,
                k + i + 1,
            ) by {
                assert(byte_of(rest, k + 1) == byte_of(size, k + 1 + i));
            }
        }
        rest = rest / 0x100;
        i += 1;
    }
    assert(out@ =~= le64_bytes(size));
    out
}

/// A size that was written into a request reads back as the same size.
pub proof fn law_size_reads_back(size: u64)
    ensures
        le64_bytes(size).len() == 8,
        le64(le64_bytes(size), 0) == size,
{
    reveal_with_fuel(byte_of, 9);
    let s = le64_bytes(size);
    let v1 = size / 0x100;
    let v2 = v1 / 0x100;
    let v3 = v2 / 0x100;
    let v4 = v3 / 0x100;
    let v5 = v4 / 0x100;
    let v6 = v5 / 0x100;
    let v7 = v6 / 0x100;
    assert(s[0] as int == size % 0x100 && s[1] as int == v1 % 0x100 && s[2] as int == v2 % 0x100
        && s[3] as int == v3 % 0x100 && s[4] as int == v4 % 0x100 && s[5] as int == v5 % 0x100
        && s[6] as int == v6 % 0x100 && s[7] as int == v7 % 0x100);
    assert(v7 < 0x100);
}

// ---------------------------------------------------------------------------
// Bodies of replies
// ---------------------------------------------------------------------------

/// The most that a variable part of a reply may hold.
pub const MAX_REPLY_BUFFER: usize = 0x100_0000;

/// A variable part of a reply: `len` bytes at `offset` behind the protocol
/// header, which is 64 bytes long, and not before `fixed`, where the fixed part
/// ends. `None` where it is too long or not all there.
pub open spec fn reply_part(body: Seq<u8>, fixed: int, offset: int, len: int) -> Option<Seq<u8>> {
    let start = if offset - 64 > fixed {
        offset - 64
    } else {
        fixed
    };
    if len == 0 {
        Some(Seq::empty())
    } else if start + len > body.len() || len > MAX_REPLY_BUFFER {
        None
    } else {
        Some(body.subrange(start, start + len))
    }
}

/// The handle and the size of the file in the reply to a CREATE.
pub open spec fn create_reply(body: Seq<u8>) -> Option<(SmbFileId, u64)> {
    if body.len() < 88 || le16(body, 0) != 89 {
        None
    } else if !(seq![0u8, 1, 8, 9, 0xFF].contains(body[2])) || le32(body, 4) > 3 {
        None
    } else if reply_part(body, 88, le32(body, 80), le32(body, 84)) is None {
        None
    } else {
        let id = SmbFileId { persistent: le64(body, 64) as u64, volatile: le64(body, 72) as u64 };
        Some((id, le64(body, 48) as u64))
    }
}

/// Calls `CreateResponse::unpack`: a body of 88 bytes that starts with the
/// structure's size, with a known oplock level and create action, and with all
/// of the create contexts that it announces, gives the handle and the
/// end-of-file position; anything else is malformed.
#[verifier::external_body]
fn unpack_create(body: &[u8]) -> (r: Option<(SmbFileId, u64)>)
    ensures
        r == create_reply(body@),
{
    let response = CreateResponse::unpack(&mut ReadCursor::new(body)).ok()?;
    let id = response.file_id;
    let file_id = SmbFileId { persistent: id.persistent, volatile: id.volatile };
    Some((file_id, response.end_of_file))
}

/// The data in the reply to a READ.
pub open spec fn read_reply(body: Seq<u8>) -> Option<Seq<u8>> {
    if body.len() < 16 || le16(body, 0) != 17 {
        None
    } else {
        reply_part(body, 16, 0, le32(body, 4))
    }
}

/// Calls `ReadResponse::unpack`: a body of 16 bytes that starts with the
/// structure's size gives as many bytes behind them as it announces, if they
/// are all there and no more than 16 MiB; anything else is malformed.
#[verifier::external_body]
fn unpack_read(body: &[u8]) -> (r: Option<Vec<u8>>)
    ensures
        r is Some <==> read_reply(body@) is Some,
        r is Some ==> r->0@ == read_reply(body@)->0,
{
    let response = ReadResponse::unpack(&mut ReadCursor::new(body)).ok()?;
    Some(response.data)
}

/// The number of bytes written, in the reply to a WRITE.
pub open spec fn write_reply(body: Seq<u8>) -> Option<u32> {
    if body.len() < 16 || le16(body, 0) != 17 {
        None
    } else {
        Some(le32(body, 4) as u32)
    }
}

/// Calls `WriteResponse::unpack`: a body of 16 bytes that starts with the
/// structure's size gives the count in its bytes 4 to 8; anything else is
/// malformed.
#[verifier::external_body]
fn unpack_write(body: &[u8]) -> (r: Option<u32>)
    ensures
        r == write_reply(body@),
{
    let response = WriteResponse::unpack(&mut ReadCursor::new(body)).ok()?;
    Some(response.count)
}

/// The buffer in the reply to a QUERY_INFO.
pub open spec fn query_reply(body: Seq<u8>) -> Option<Seq<u8>> {
    if body.len() < 8 || le16(body, 0) != 9 {
        None
    } else {
        reply_part(body, 8, le16(body, 2), le32(body, 4))
    }
}

/// Calls `QueryInfoResponse::unpack`: a body of 8 bytes that starts with the
/// structure's size gives the buffer that it announces, if it is all there and
/// no more than 16 MiB; anything else is malformed.
#[verifier::external_body]
fn unpack_query(body: &[u8]) -> (r: Option<Vec<u8>>)
    ensures
        r is Some <==> query_reply(body@) is Some,
        r is Some ==> r->0@ == query_reply(body@)->0,
{
    let response = QueryInfoResponse::unpack(&mut ReadCursor::new(body)).ok()?;
    Some(response.output_buffer)
}

/// The text that `smb2::Error` has for an unsuccessful status of a command.
pub uninterp spec fn text_of_status(status: u32, command: SmbCommand) -> Seq<char>;

/// Calls `to_string` on the `smb2::Error` of a status and the command that it
/// answered: the text depends on these alone.
#[verifier::external_body]
fn status_text(status: u32, command: SmbCommand) -> (r: String)
    ensures
        r@ == text_of_status(status, command),
{
    let command = match command {
        SmbCommand::Create => Command::Create,
        SmbCommand::Close => Command::Close,
        SmbCommand::Flush => Command::Flush,
        SmbCommand::Read => Command::Read,
        SmbCommand::Write => Command::Write,
        SmbCommand::QueryInfo => Command::QueryInfo,
        SmbCommand::SetInfo => Command::SetInfo,
    };
    Error::Protocol { status: NtStatus(status), command }.to_string()
}

// ---------------------------------------------------------------------------
// Statuses
// ---------------------------------------------------------------------------

/// Whether `e` is the error of element `index` for an unsuccessful status.
pub open spec fn is_status_error(e: VfError, status: u32, command: SmbCommand, index: usize) -> bool {
    is_smb_error(
        e,
        kind_of_status(status),
        Some(status),
        text_of_status(status, command),
        index,
    )
}

/// What a reply's status of the given kind and text means: nothing if it is
/// success, else the error for it.
pub fn checked_status(status: u32, kind: SmbErrorKind, text: String, index: usize) -> (r: VfRes)
    ensures
        status == STATUS_SUCCESS ==> r is Ok,
        status != STATUS_SUCCESS ==> r is Err && is_smb_error(
            r->Err_0,
            kind,
            Some(status),
            text@,
            index,
        ),
{
    if status == STATUS_SUCCESS {
        return Ok(());
    }
    Err(smb_error(SmbFailure { kind, status: Some(status), message: text }, index))
}

/// Requires that a reply reports success.
pub fn require_status(status: u32, command: SmbCommand, index: usize) -> (r: VfRes)
    ensures
        status == STATUS_SUCCESS ==> r is Ok,
        status != STATUS_SUCCESS ==> r is Err && is_status_error(
            r->Err_0,
            status,
            command,
            index,
        ),
{
    if status == STATUS_SUCCESS {
        return Ok(());
    }
    checked_status(status, status_kind(status), status_text(status, command), index)
}

/// The text of a compound with the wrong number of replies.
pub open spec fn count_text(got: nat, expected: nat) -> Seq<char> {
    "SMB compound returned "@ + decimal(got) + " responses, expected "@ + decimal(expected)
}

/// The replies of a compound, all of which have to be there. The first that
/// failed fails the compound.
pub fn collect_compound(responses: Vec<Result<SmbFrame, SmbFailure>>, expected: usize) -> (r:
    VfResult<Vec<SmbFrame>>)
    ensures
        responses@.len() != expected ==> r is Err && r->Err_0 is Transport && r->Err_0.index_of()
            == 0 && r->Err_0->message@ == count_text(responses@.len(), expected as nat),
        responses@.len() == expected ==> match r {
            Ok(frames) => {
                &&& frames@.len() == responses@.len()
                &&& forall|i: int|
                    0 <= i < responses@.len() ==> (#[trigger] responses@[i]) == Ok::<
                        SmbFrame,
                        SmbFailure,
                    >(frames@[i])
            },
            Err(e) => exists|i: int|
                {
                    &&& 0 <= i < responses@.len()
                    &&& (#[trigger] responses@[i]) is Err
                    &&& is_smb_error(
                        e,
                        responses@[i]->Err_0.kind,
                        responses@[i]->Err_0.status,
                        responses@[i]->Err_0.message@,
                        0,
                    )
                    &&& forall|j: int| 0 <= j < i ==> (#[trigger] responses@[j]) is Ok
                },
        },
{
    let n: usize = responses.len();
    if n != expected {
        let mut text = "SMB compound returned ".to_owned();
        append_decimal(&mut text, n as u64);
        text.append(" responses, expected ");
        append_decimal(&mut text, expected as u64);
        return Err(VfError::Transport { index: 0, message: text });
    }
    let ghost all = responses@;
    let mut rest = responses;
    let mut reversed: Vec<Result<SmbFrame, SmbFailure>> = Vec::new();
    while rest.len() > 0
        invariant
            rest@.len() + reversed@.len() == all.len(),
            rest@ == all.take(rest@.len() as int),
            forall|k: int|
                0 <= k < reversed@.len() ==> (#[trigger] reversed@[k]) == all[all.len() - 1 - k],
        ensures
            reversed@.len() == all.len(),
        decreases rest.len(),
    {
        let ghost before = rest@;
        match rest.pop() {
            Some(x) => {
                assert(x == all[before.len() - 1]);
                assert(rest@ =~= all.take(rest@.len() as int));
                reversed.push(x);
            },
            None => {
                assert(false);
            },
        }
    }
    let mut out: Vec<SmbFrame> = Vec::new();
    while reversed.len() > 0
        invariant
            out@.len() + reversed@.len() == all.len(),
            forall|k: int|
                0 <= k < reversed@.len() ==> (#[trigger] reversed@[k]) == all[all.len() - 1 - k],
            forall|k: int|
                0 <= k < out@.len() ==> (#[trigger] all[k]) == Ok::<SmbFrame, SmbFailure>(out@[k]),
            n == all.len(),
            n == expected,
            all == responses@,
        decreases reversed.len(),
    {
        let ghost at = out@.len() as int;
        let ghost last = reversed@[reversed@.len() - 1];
        assert(last == all[at]);
        match reversed.pop() {
            Some(Ok(frame)) => {
                out.push(frame);
            },
            Some(Err(failure)) => {
                assert(all[at] is Err);
                return Err(smb_error(failure, 0));
            },
            None => {
                assert(false);
            },
        }
    }
    Ok(out)
}

// ---------------------------------------------------------------------------
// Single replies
// ---------------------------------------------------------------------------

/// Whether `r` is what a reply comes to: the error for an unsuccessful status,
/// ERR_INVAL for a malformed body, else what the body says.
pub open spec fn reply_is<T>(
    r: VfResult<T>,
    status: u32,
    command: SmbCommand,
    parsed: Option<T>,
) -> bool {
    if status != STATUS_SUCCESS {
        r is Err && is_status_error(r->Err_0, status, command, 0)
    } else {
        match parsed {
            Some(x) => r == Ok::<T, VfError>(x),
            None => r == Err::<T, VfError>(VfError::Op { index: 0, err_no: ERR_INVAL }),
        }
    }
}

/// The handle and the size of the file from the reply to a CREATE.
pub fn open_reply(frame: &SmbFrame) -> (r: VfResult<(SmbFileId, u64)>)
    ensures
        reply_is(r, frame.status, SmbCommand::Create, create_reply(frame.body@)),
{
    match require_status(frame.status, SmbCommand::Create, 0) {
        Ok(()) => {},
        Err(e) => {
            return Err(e);
        },
    }
    match unpack_create(frame.body.as_slice()) {
        Some(x) => Ok(x),
        None => Err(VfError::failure(0, ERR_INVAL)),
    }
}

/// The size of the file from the reply to a QUERY_INFO for its standard
/// information.
pub fn query_size_reply(frame: &SmbFrame) -> (r: VfResult<u64>)
    ensures
        frame.status != STATUS_SUCCESS ==> r is Err && is_status_error(
            r->Err_0,
            frame.status,
            SmbCommand::QueryInfo,
            0,
        ),
        frame.status == STATUS_SUCCESS ==> match query_reply(frame.body@) {
            None => r == Err::<u64, VfError>(VfError::Op { index: 0, err_no: ERR_INVAL }),
            Some(b) => if b.len() < 16 {
                r is Err && r->Err_0 is Transport && r->Err_0.index_of() == 0 && r->Err_0->message@
                    == "short SMB FileStandardInformation response"@
            } else {
                r is Ok && r->Ok_0 == le64(b, 8)
            },
        },
{
    match require_status(frame.status, SmbCommand::QueryInfo, 0) {
        Ok(()) => {},
        Err(e) => {
            return Err(e);
        },
    }
    match unpack_query(frame.body.as_slice()) {
        Some(b) => {
            if b.len() < 16 {
                return Err(VfError::transport(0, "short SMB FileStandardInformation response"));
            }
            Ok(read_le64(b.as_slice(), 8))
        },
        None => Err(VfError::failure(0, ERR_INVAL)),
    }
}

/// What a call comes to that closes its file afterwards: its own error first,
/// then that of the CLOSE.
pub fn then_close<T>(result: VfResult<T>, close: VfRes) -> (r: VfResult<T>)
    ensures
        r == match result {
            Err(e) => Err::<T, VfError>(e),
            Ok(v) => match close {
                Ok(()) => Ok(v),
                Err(e) => Err(e),
            },
        },
{
    match result {
        Err(e) => Err(e),
        Ok(v) => match close {
            Ok(()) => Ok(v),
            Err(e) => Err(e),
        },
    }
}

// ---------------------------------------------------------------------------
// Chunked transfers
// ---------------------------------------------------------------------------

/// The transfer size to use: what was negotiated, or the default, and at least
/// one byte.
pub fn transfer_limit(negotiated: Option<usize>) -> (r: usize)
    ensures
        r == match negotiated {
            Some(n) => if n == 0 {
                1
            } else {
                n
            },
            None => DEFAULT_TRANSFER,
        },
        r >= 1,
{
    match negotiated {
        Some(n) => {
            if n == 0 {
                1
            } else {
                n
            }
        },
        None => DEFAULT_TRANSFER,
    }
}

/// The smaller of a transfer's rest and the limits on one request.
pub open spec fn chunk_of(left: int, limit: int) -> int {
    let a = if left < limit {
        left
    } else {
        limit
    };
    if a < u32::MAX {
        a
    } else {
        u32::MAX as int
    }
}

/// An offset, or the largest one where it is beyond that.
pub open spec fn saturated(offset: int) -> u64 {
    if offset > u64::MAX {
        u64::MAX
    } else {
        offset as u64
    }
}

/// A read in chunks that the server takes.
pub struct SmbRead {
    pub offset: u64,
    pub length: usize,
    pub limit: usize,
    pub data: Vec<u8>,
    /// The end of the file was reached.
    pub ended: bool,
}

impl SmbRead {
    pub fn new(offset: u64, length: usize, negotiated: Option<usize>) -> (r: SmbRead)
        ensures
            r.offset == offset,
            r.length == length,
            r.limit >= 1,
            r.limit == match negotiated {
                Some(n) => if n == 0 {
                    1
                } else {
                    n
                },
                None => DEFAULT_TRANSFER,
            },
            r.data@ == Seq::<u8>::empty(),
            !r.ended,
    {
        let data: Vec<u8> = Vec::new();
        assert(data@ =~= Seq::<u8>::empty());
        SmbRead { offset, length, limit: transfer_limit(negotiated), data, ended: false }
    }

    /// The next READ, as offset and length; `None` once everything asked for is
    /// there, or the file ended.
    pub fn next_chunk(&self) -> (r: Option<(u64, u32)>)
        requires
            self.limit >= 1,
        ensures
            r is None <==> self.ended || self.data@.len() >= self.length,
            r is Some ==> {
                &&& (r->Some_0).0 == saturated(self.offset + self.data@.len())
                &&& (r->Some_0).1 == chunk_of(self.length - self.data@.len(), self.limit as int)
                &&& (r->Some_0).1 >= 1
            },
    {
        if self.ended || self.data.len() >= self.length {
            return None;
        }
        let left: usize = self.length - self.data.len();
        let a: usize = if left < self.limit {
            left
        } else {
            self.limit
        };
        let chunk: u32 = if (a as u64) < (u32::MAX as u64) {
            a as u32
        } else {
            u32::MAX
        };
        Some((self.offset.saturating_add(self.data.len() as u64), chunk))
    }

    /// Takes in the reply to a READ of `chunk` bytes. A short one, like the end
    /// of the file, ends the transfer.
    pub fn absorb(&mut self, frame: &SmbFrame, chunk: u32) -> (r: VfRes)
        ensures
            final(self).offset == old(self).offset,
            final(self).length == old(self).length,
            final(self).limit == old(self).limit,
            frame.status == STATUS_END_OF_FILE ==> r is Ok && final(self).ended && final(self).data
                == old(self).data,
            frame.status != STATUS_END_OF_FILE && frame.status != STATUS_SUCCESS ==> r is Err
                && is_status_error(r->Err_0, frame.status, SmbCommand::Read, 0) && *final(self)
                == *old(self),
            frame.status == STATUS_SUCCESS ==> match read_reply(frame.body@) {
                None => r == Err::<(), VfError>(VfError::Op { index: 0, err_no: ERR_INVAL })
                    && *final(self) == *old(self),
                Some(got) => {
                    &&& r is Ok
                    &&& final(self).data@ == old(self).data@ + got
                    &&& final(self).ended == (old(self).ended || got.len() < chunk)
                },
            },
    {
        if frame.status == STATUS_END_OF_FILE {
            self.ended = true;
            return Ok(());
        }
        match require_status(frame.status, SmbCommand::Read, 0) {
            Ok(()) => {},
            Err(e) => {
                return Err(e);
            },
        }
        match unpack_read(frame.body.as_slice()) {
            None => Err(VfError::failure(0, ERR_INVAL)),
            Some(got) => {
                let n: usize = got.len();
                self.data.extend_from_slice(got.as_slice());
                if (n as u64) < (chunk as u64) {
                    self.ended = true;
                }
                Ok(())
            },
        }
    }
}

/// A write in chunks that the server takes.
#[derive(Debug, Clone, Copy)]
pub struct SmbWrite {
    pub offset: u64,
    pub length: usize,
    pub limit: usize,
    pub written: usize,
}

/// One WRITE: which bytes of the data, where they go, and how many follow.
#[derive(Debug, Clone, Copy, PartialEq, Eq, Structural)]
pub struct WriteChunk {
    pub from: usize,
    pub to: usize,
    pub offset: u64,
    pub remaining: u32,
}

impl SmbWrite {
    pub open spec fn wf(&self) -> bool {
        self.limit >= 1 && self.written <= self.length
    }

    pub fn new(offset: u64, length: usize, negotiated: Option<usize>) -> (r: SmbWrite)
        ensures
            r.wf(),
            r.offset == offset,
            r.length == length,
            r.limit == match negotiated {
                Some(n) => if n == 0 {
                    1
                } else {
                    n
                },
                None => DEFAULT_TRANSFER,
            },
            r.written == 0,
    {
        SmbWrite { offset, length, limit: transfer_limit(negotiated), written: 0 }
    }

    /// The next WRITE; `None` once everything is written.
    pub fn next_chunk(&self) -> (r: Option<WriteChunk>)
        requires
            self.wf(),
        ensures
            r is None <==> self.written == self.length,
            r is Some ==> {
                let c = r->Some_0;
                &&& c.from == self.written
                &&& c.to == if self.length - self.written < self.limit {
                    self.length as int
                } else {
                    self.written + self.limit
                }
                &&& c.from < c.to <= self.length
                &&& c.offset == saturated(self.offset + self.written)
                &&& c.remaining == if self.length - c.to < u32::MAX {
                    self.length - c.to
                } else {
                    u32::MAX as int
                }
            },
    {
        if self.written >= self.length {
            return None;
        }
        let left: usize = self.length - self.written;
        let to: usize = if left < self.limit {
            self.length
        } else {
            self.written + self.limit
        };
        let rest: usize = self.length - to;
        let remaining: u32 = if (rest as u64) < (u32::MAX as u64) {
            rest as u32
        } else {
            u32::MAX
        };
        Some(
            WriteChunk {
                from: self.written,
                to,
                offset: self.offset.saturating_add(self.written as u64),
                remaining,
            },
        )
    }

    /// Takes in the reply to a WRITE of `chunk` bytes, which has to have written
    /// some of them and no more.
    pub fn absorb(&mut self, frame: &SmbFrame, chunk: usize) -> (r: VfRes)
        requires
            old(self).wf(),
            chunk <= old(self).length - old(self).written,
        ensures
            final(self).wf(),
            final(self).offset == old(self).offset,
            final(self).length == old(self).length,
            final(self).limit == old(self).limit,
            frame.status != STATUS_SUCCESS ==> r is Err && is_status_error(
                r->Err_0,
                frame.status,
                SmbCommand::Write,
                0,
            ),
            frame.status == STATUS_SUCCESS ==> match write_reply(frame.body@) {
                None => r == Err::<(), VfError>(VfError::Op { index: 0, err_no: ERR_INVAL }),
                Some(n) => if n == 0 {
                    r is Err && r->Err_0 is Transport && r->Err_0.index_of() == 0
                        && r->Err_0->message@ == "SMB server reported a zero-byte successful write"@
                } else if n > chunk {
                    r is Err && is_overrun(r->Err_0)
                } else {
                    r is Ok && final(self).written == old(self).written + n
                },
            },
            r is Err ==> *final(self) == *old(self),
    {
        match require_status(frame.status, SmbCommand::Write, 0) {
            Ok(()) => {},
            Err(e) => {
                return Err(e);
            },
        }
        match unpack_write(frame.body.as_slice()) {
            None => Err(VfError::failure(0, ERR_INVAL)),
            Some(n) => {
                if n == 0 {
                    return Err(
                        VfError::transport(0, "SMB server reported a zero-byte successful write"),
                    );
                }
                if n as u64 > chunk as u64 {
                    return Err(overrun());
                }
                self.written = self.written + n as usize;
                Ok(())
            },
        }
    }
}

/// Whether an error says that the server wrote more than it was given.
pub open spec fn is_overrun(e: VfError) -> bool {
    e is Transport && e.index_of() == 0 && e->message@
        == "SMB server reported writing more bytes than requested"@
}

fn overrun() -> (e: VfError)
    ensures
        is_overrun(e),
{
    VfError::transport(0, "SMB server reported writing more bytes than requested")
}

/// The pieces of a chunked write follow each other without a gap: each starts
/// where the written ones end, in the data and in the file.
pub proof fn law_write_chunks_are_consecutive(before: SmbWrite, n: int, after: SmbWrite)
    requires
        before.wf(),
        after.wf(),
        after.offset == before.offset,
        after.length == before.length,
        after.written == before.written + n,
        before.offset + before.length <= u64::MAX,
    ensures
        saturated(after.offset + after.written) == saturated(before.offset + before.written) + n,
{
}

// ---------------------------------------------------------------------------
// Whole transfers
// ---------------------------------------------------------------------------

/// How a transfer of a path is made.
#[derive(Debug, Clone, Copy, PartialEq, Eq, Structural)]
pub enum TransferForm {
    /// There is nothing to transfer.
    Nothing,
    /// Open, transfer in chunks, and close.
    Chunked,
    /// One related compound.
    Compound,
}

/// How a transfer of `length` bytes is made: in one related compound where it
/// fits a request.
pub fn transfer_form(length: usize, negotiated: Option<usize>) -> (r: TransferForm)
    ensures
        ({
            let limit = match negotiated {
                Some(n) => n,
                None => DEFAULT_TRANSFER,
            };
            r == (if length == 0 {
                TransferForm::Nothing
            } else if length > limit || length > u32::MAX {
                TransferForm::Chunked
            } else {
                TransferForm::Compound
            })
        }),
{
    let limit: usize = match negotiated {
        Some(n) => n,
        None => DEFAULT_TRANSFER,
    };
    if length == 0 {
        TransferForm::Nothing
    } else if length > limit || length as u64 > u32::MAX as u64 {
        TransferForm::Chunked
    } else {
        TransferForm::Compound
    }
}

/// What a compound came to, and the handle that it left open, if any.
#[derive(Debug)]
pub struct CompoundOutcome<T> {
    pub result: VfResult<T>,
    pub close: Option<SmbFileId>,
}

/// The handle to close where the compound's own CLOSE did not succeed.
pub open spec fn left_open(id: SmbFileId, close_status: u32) -> Option<SmbFileId> {
    if close_status == STATUS_SUCCESS {
        None
    } else {
        Some(id)
    }
}

/// Whether `r` is what the replies to CREATE + READ + CLOSE come to.
pub open spec fn compound_read_is(frames: Seq<SmbFrame>, r: CompoundOutcome<Vec<u8>>) -> bool {
    let created = create_reply(frames[0].body@);
    if frames[0].status != STATUS_SUCCESS {
        &&& r.result is Err
        &&& is_status_error(r.result->Err_0, frames[0].status, SmbCommand::Create, 0)
        &&& r.close is None
    } else if created is None {
        &&& r.result == Err::<Vec<u8>, VfError>(VfError::Op { index: 0, err_no: ERR_INVAL })
        &&& r.close is None
    } else {
        let id = (created->Some_0).0;
        if frames[1].status == STATUS_END_OF_FILE {
            &&& r.result is Ok
            &&& r.result->Ok_0@.len() == 0
            &&& r.close == left_open(id, frames[2].status)
        } else if frames[1].status != STATUS_SUCCESS {
            &&& r.result is Err
            &&& is_status_error(r.result->Err_0, frames[1].status, SmbCommand::Read, 0)
            &&& r.close == Some(id)
        } else {
            match read_reply(frames[1].body@) {
                None => {
                    &&& r.result == Err::<Vec<u8>, VfError>(
                        VfError::Op { index: 0, err_no: ERR_INVAL },
                    )
                    &&& r.close is None
                },
                Some(data) => {
                    &&& r.result is Ok
                    &&& r.result->Ok_0@ == data
                    &&& r.close == left_open(id, frames[2].status)
                },
            }
        }
    }
}

fn close_of(id: SmbFileId, close_status: u32) -> (r: Option<SmbFileId>)
    ensures
        r == left_open(id, close_status),
{
    if close_status == STATUS_SUCCESS {
        None
    } else {
        Some(id)
    }
}

/// The data of a range that was read from a path as CREATE + READ + CLOSE in one
/// related compound.
pub fn compound_read_reply(frames: &Vec<SmbFrame>) -> (r: CompoundOutcome<Vec<u8>>)
    requires
        frames@.len() == 3,
    ensures
        compound_read_is(frames@, r),
{
    let opened: SmbFileId = match open_reply(&frames[0]) {
        Ok((id, _)) => id,
        Err(e) => {
            return CompoundOutcome { result: Err(e), close: None };
        },
    };
    if frames[1].status == STATUS_END_OF_FILE {
        return CompoundOutcome {
            result: Ok(Vec::new()),
            close: close_of(opened, frames[2].status),
        };
    }
    match require_status(frames[1].status, SmbCommand::Read, 0) {
        Ok(()) => {},
        Err(e) => {
            return CompoundOutcome { result: Err(e), close: Some(opened) };
        },
    }
    match unpack_read(frames[1].body.as_slice()) {
        None => CompoundOutcome { result: Err(VfError::failure(0, ERR_INVAL)), close: None },
        Some(data) => CompoundOutcome {
            result: Ok(data),
            close: close_of(opened, frames[2].status),
        },
    }
}

/// Whether `r` is what the replies to CREATE + WRITE + FLUSH + CLOSE come to.
pub open spec fn compound_write_is(
    frames: Seq<SmbFrame>,
    length: usize,
    close_overrun: bool,
    r: CompoundOutcome<usize>,
) -> bool {
    let created = create_reply(frames[0].body@);
    if frames[0].status != STATUS_SUCCESS {
        &&& r.result is Err
        &&& is_status_error(r.result->Err_0, frames[0].status, SmbCommand::Create, 0)
        &&& r.close is None
    } else if created is None {
        &&& r.result == Err::<usize, VfError>(VfError::Op { index: 0, err_no: ERR_INVAL })
        &&& r.close is None
    } else {
        let id = (created->Some_0).0;
        if frames[1].status != STATUS_SUCCESS {
            &&& r.result is Err
            &&& is_status_error(r.result->Err_0, frames[1].status, SmbCommand::Write, 0)
            &&& r.close == Some(id)
        } else if frames[2].status != STATUS_SUCCESS {
            &&& r.result is Err
            &&& is_status_error(r.result->Err_0, frames[2].status, SmbCommand::Flush, 0)
            &&& r.close == Some(id)
        } else {
            match write_reply(frames[1].body@) {
                None => {
                    &&& r.result == Err::<usize, VfError>(
                        VfError::Op { index: 0, err_no: ERR_INVAL },
                    )
                    &&& r.close is None
                },
                Some(n) => if n > length {
                    &&& r.result is Err
                    &&& is_overrun(r.result->Err_0)
                    &&& r.close == if close_overrun {
                        Some(id)
                    } else {
                        None
                    }
                } else {
                    &&& r.result == Ok::<usize, VfError>(n as usize)
                    &&& r.close == left_open(id, frames[3].status)
                },
            }
        }
    }
}

/// How much was written to a path as CREATE + WRITE + FLUSH + CLOSE in one
/// related compound of `length` bytes. `close_overrun` is whether a file that
/// the server claims to have written too much of is closed once more.
pub fn compound_write_reply(frames: &Vec<SmbFrame>, length: usize, close_overrun: bool) -> (r:
    CompoundOutcome<usize>)
    requires
        frames@.len() == 4,
    ensures
        compound_write_is(frames@, length, close_overrun, r),
{
    let opened: SmbFileId = match open_reply(&frames[0]) {
        Ok((id, _)) => id,
        Err(e) => {
            return CompoundOutcome { result: Err(e), close: None };
        },
    };
    match require_status(frames[1].status, SmbCommand::Write, 0) {
        Ok(()) => {},
        Err(e) => {
            return CompoundOutcome { result: Err(e), close: Some(opened) };
        },
    }
    match require_status(frames[2].status, SmbCommand::Flush, 0) {
        Ok(()) => {},
        Err(e) => {
            return CompoundOutcome { result: Err(e), close: Some(opened) };
        },
    }
    match unpack_write(frames[1].body.as_slice()) {
        None => CompoundOutcome { result: Err(VfError::failure(0, ERR_INVAL)), close: None },
        Some(n) => {
            if n as u64 > length as u64 {
                let close = if close_overrun {
                    Some(opened)
                } else {
                    None
                };
                return CompoundOutcome { result: Err(overrun()), close };
            }
            CompoundOutcome { result: Ok(n as usize), close: close_of(opened, frames[3].status) }
        },
    }
}

/// A compound that succeeded leaves its file open only where its own CLOSE did
/// not succeed: whatever the replies are, a result comes with every operation
/// before the CLOSE answered by success.
pub proof fn law_successful_compounds_close_their_file(
    frames: Seq<SmbFrame>,
    length: usize,
    close_overrun: bool,
    r: CompoundOutcome<usize>,
)
    requires
        frames.len() == 4,
        compound_write_is(frames, length, close_overrun, r),
        r.result is Ok,
    ensures
        frames[0].status == STATUS_SUCCESS,
        frames[1].status == STATUS_SUCCESS,
        frames[2].status == STATUS_SUCCESS,
        r.close is Some <==> frames[3].status != STATUS_SUCCESS,
        r.result->Ok_0 <= length,
{
}

} // verus!
