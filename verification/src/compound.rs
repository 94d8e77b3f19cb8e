//! COMPOUND4 request building and reply handling.

use vstd::prelude::*;

use crate::path::copy_bytes;
use crate::proto::{FATTR4_MODE, FATTR4_SIZE};

verus! {

// ---------------------------------------------------------------------------
// Requests
// ---------------------------------------------------------------------------

/// A stateid: a sequence number and twelve opaque bytes, kept as the
/// big-endian words they spell.
#[derive(Debug, Clone, Copy, PartialEq, Eq, Structural)]
pub struct Stateid {
    pub seqid: u32,
    pub other_hi: u64,
    pub other_lo: u32,
}

/// A set of FATTR4 attribute ids, ninety-six at most, one bit each; `len`
/// counts the words up to the last one that is not zero.
#[derive(Debug, Clone, Copy, PartialEq, Eq, Structural)]
pub struct Bitmap {
    pub len: u32,
    pub word0: u32,
    pub word1: u32,
    pub word2: u32,
}

/// An attribute set with the XDR-encoded values of its members.
#[derive(Debug)]
pub struct Fattr<B> {
    pub mask: Bitmap,
    pub vals: B,
}

/// How an OPEN treats a file that does not exist yet.
#[derive(Debug)]
pub enum OpenHow<B> {
    NoCreate,
    Unchecked { attrs: Fattr<B> },
    Guarded { attrs: Fattr<B> },
    Exclusive { verifier: [u8; 8] },
}

/// The arguments of a CLAIM_NULL OPEN.
#[derive(Debug)]
pub struct OpenArgs<B> {
    pub seqid: u32,
    pub share_access: u32,
    pub share_deny: u32,
    pub clientid: u64,
    pub owner: B,
    pub how: OpenHow<B>,
    pub file: B,
}

/// Channel attributes offered to, or confirmed by, the server.
#[derive(Debug, Clone, Copy, PartialEq, Eq, Structural)]
pub struct ChannelAttrs {
    pub maxrequestsize: u32,
    pub maxresponsesize: u32,
    pub maxresponsesize_cached: u32,
    pub maxoperations: u32,
    pub maxrequests: u32,
}

/// One operation of a COMPOUND4 request. `B` is what a byte string is: a
/// vector in a request, a sequence in its model.
#[allow(inconsistent_fields)]
#[derive(Debug)]
pub enum Op<B> {
    Sequence { sessionid: [u8; 16], seqid: u32, slotid: u32, highest_slotid: u32 },
    Putfh { fh: B },
    Putrootfh,
    Getfh,
    Lookup { name: B },
    Lookupp,
    Savefh,
    Restorefh,
    Open(OpenArgs<B>),
    Read { stateid: Stateid, offset: u64, count: u32 },
    Write { stateid: Stateid, offset: u64, stable: u32, data: B },
    Copy {
        src_stateid: Stateid,
        dst_stateid: Stateid,
        src_offset: u64,
        dst_offset: u64,
        count: u64,
    },
    Close { seqid: u32, stateid: Stateid },
    Create { name: B, ftype: u32, linkdata: Option<B> },
    Readlink,
    Getattr { mask: Bitmap },
    Setattr { stateid: Stateid, attrs: Fattr<B> },
    Readdir { cookie: u64, cookieverf: u64, dircount: u32, maxcount: u32, mask: Bitmap },
    Remove { name: B },
    Rename { oldname: B, newname: B },
    Link { newname: B },
    ExchangeId { verifier: [u8; 8], owner_id: B },
    CreateSession { clientid: u64, sequence: u32, fore: ChannelAttrs, back: ChannelAttrs },
    ReclaimComplete,
    DestroySession { sessionid: [u8; 16] },
    DestroyClientid { clientid: u64 },
}

/// An operation as it is sent.
pub type NfsOp = Op<Vec<u8>>;

/// The model of an operation.
pub type OpModel = Op<Seq<u8>>;

impl View for Fattr<Vec<u8>> {
    type V = Fattr<Seq<u8>>;

    open spec fn view(&self) -> Fattr<Seq<u8>> {
        Fattr { mask: self.mask, vals: self.vals@ }
    }
}

impl View for OpenHow<Vec<u8>> {
    type V = OpenHow<Seq<u8>>;

    open spec fn view(&self) -> OpenHow<Seq<u8>> {
        match *self {
            OpenHow::NoCreate => OpenHow::NoCreate,
            OpenHow::Unchecked { attrs } => OpenHow::Unchecked { attrs: attrs@ },
            OpenHow::Guarded { attrs } => OpenHow::Guarded { attrs: attrs@ },
            OpenHow::Exclusive { verifier } => OpenHow::Exclusive { verifier },
        }
    }
}

impl View for OpenArgs<Vec<u8>> {
    type V = OpenArgs<Seq<u8>>;

    open spec fn view(&self) -> OpenArgs<Seq<u8>> {
        OpenArgs {
            seqid: self.seqid,
            share_access: self.share_access,
            share_deny: self.share_deny,
            clientid: self.clientid,
            owner: self.owner@,
            how: self.how@,
            file: self.file@,
        }
    }
}

impl View for Op<Vec<u8>> {
    type V = Op<Seq<u8>>;

    open spec fn view(&self) -> Op<Seq<u8>> {
        match *self {
            Op::Sequence { sessionid, seqid, slotid, highest_slotid } => Op::Sequence {
                sessionid,
                seqid,
                slotid,
                highest_slotid,
            },
            Op::Putfh { fh } => Op::Putfh { fh: fh@ },
            Op::Putrootfh => Op::Putrootfh,
            Op::Getfh => Op::Getfh,
            Op::Lookup { name } => Op::Lookup { name: name@ },
            Op::Lookupp => Op::Lookupp,
            Op::Savefh => Op::Savefh,
            Op::Restorefh => Op::Restorefh,
            Op::Open(args) => Op::Open(args@),
            Op::Read { stateid, offset, count } => Op::Read { stateid, offset, count },
            Op::Write { stateid, offset, stable, data } => Op::Write {
                stateid,
                offset,
                stable,
                data: data@,
            },
            Op::Copy { src_stateid, dst_stateid, src_offset, dst_offset, count } => Op::Copy {
                src_stateid,
                dst_stateid,
                src_offset,
                dst_offset,
                count,
            },
            Op::Close { seqid, stateid } => Op::Close { seqid, stateid },
            Op::Create { name, ftype, linkdata } => Op::Create {
                name: name@,
                ftype,
                linkdata: match linkdata {
                    Some(t) => Some(t@),
                    None => None,
                },
            },
            Op::Readlink => Op::Readlink,
            Op::Getattr { mask } => Op::Getattr { mask },
            Op::Setattr { stateid, attrs } => Op::Setattr { stateid, attrs: attrs@ },
            Op::Readdir { cookie, cookieverf, dircount, maxcount, mask } => Op::Readdir {
                cookie,
                cookieverf,
                dircount,
                maxcount,
                mask,
            },
            Op::Remove { name } => Op::Remove { name: name@ },
            Op::Rename { oldname, newname } => Op::Rename {
                oldname: oldname@,
                newname: newname@,
            },
            Op::Link { newname } => Op::Link { newname: newname@ },
            Op::ExchangeId { verifier, owner_id } => Op::ExchangeId {
                verifier,
                owner_id: owner_id@,
            },
            Op::CreateSession { clientid, sequence, fore, back } => Op::CreateSession {
                clientid,
                sequence,
                fore,
                back,
            },
            Op::ReclaimComplete => Op::ReclaimComplete,
            Op::DestroySession { sessionid } => Op::DestroySession { sessionid },
            Op::DestroyClientid { clientid } => Op::DestroyClientid { clientid },
        }
    }
}

/// The models of a list of operations.
pub open spec fn op_models(ops: Seq<NfsOp>) -> Seq<OpModel> {
    ops.map_values(|o: NfsOp| o@)
}

/// A COMPOUND4 request under construction.
#[derive(Debug)]
pub struct Compound {
    pub tag: Vec<u8>,
    pub minorversion: u32,
    pub ops: Vec<NfsOp>,
}

/// The model of a request.
pub struct CompoundModel {
    pub tag: Seq<u8>,
    pub minorversion: u32,
    pub ops: Seq<OpModel>,
}

impl View for Compound {
    type V = CompoundModel;

    open spec fn view(&self) -> CompoundModel {
        CompoundModel {
            tag: self.tag@,
            minorversion: self.minorversion,
            ops: op_models(self.ops@),
        }
    }
}

impl CompoundModel {
    /// This request with one more operation at its end.
    pub open spec fn with(self, op: OpModel) -> CompoundModel {
        CompoundModel { ops: self.ops.push(op), ..self }
    }

    /// This request with more operations at its end.
    pub open spec fn with_all(self, ops: Seq<OpModel>) -> CompoundModel {
        CompoundModel { ops: self.ops + ops, ..self }
    }
}

/// The request that a builder starts from.
pub open spec fn empty_compound() -> CompoundModel {
    CompoundModel { tag: Seq::empty(), minorversion: 1, ops: Seq::empty() }
}

// ---------------------------------------------------------------------------
// Attribute sets
// ---------------------------------------------------------------------------

/// The bits of `attrs` that fall into 32-bit word `word`.
pub open spec fn mask_word(attrs: Seq<u32>, word: u32) -> u32
    decreases attrs.len(),
{
    if attrs.len() == 0 {
        0
    } else if attrs.last() / 32 == word {
        mask_word(attrs.drop_last(), word) | (1u32 << (attrs.last() % 32))
    } else {
        mask_word(attrs.drop_last(), word)
    }
}

/// The number of words up to the last one that is not zero.
pub open spec fn words_used(word0: u32, word1: u32, word2: u32) -> u32 {
    if word2 != 0 {
        3
    } else if word1 != 0 {
        2
    } else if word0 != 0 {
        1
    } else {
        0
    }
}

/// The bitmap with exactly the bits of `attrs`.
pub open spec fn bitmap_of(attrs: Seq<u32>) -> Bitmap {
    let word0 = mask_word(attrs, 0);
    let word1 = mask_word(attrs, 1);
    let word2 = mask_word(attrs, 2);
    Bitmap { len: words_used(word0, word1, word2), word0, word1, word2 }
}

/// A bit of a word is set exactly where the list holds the id it stands for.
pub proof fn law_mask_word_bits(attrs: Seq<u32>, word: u32, bit: u32)
    requires
        bit < 32,
        word < 3,
    ensures
        (mask_word(attrs, word) >> bit) & 1 == 1 <==> attrs.contains((word * 32 + bit) as u32),
    decreases attrs.len(),
{
    let id = (word * 32 + bit) as u32;
    if attrs.len() == 0 {
        assert((0u32 >> bit) & 1 == 0) by (bit_vector);
    } else {
        law_mask_word_bits(attrs.drop_last(), word, bit);
        let before = mask_word(attrs.drop_last(), word);
        let last = attrs.last();
        let at = last % 32;
        assert(attrs.contains(id) <==> attrs.drop_last().contains(id) || last == id) by {
            if attrs.contains(id) {
                let i = choose|i: int| 0 <= i < attrs.len() && attrs[i] == id;
                if i < attrs.len() - 1 {
                    assert(attrs.drop_last()[i] == id);
                }
            }
            if attrs.drop_last().contains(id) {
                let i = choose|i: int| 0 <= i < attrs.drop_last().len() && attrs.drop_last()[i] == id;
                assert(attrs[i] == id);
            }
            if last == id {
                assert(attrs[attrs.len() - 1] == id);
            }
        }
        if last / 32 == word {
            assert(at < 32);
            assert(((before | (1u32 << at)) >> bit) & 1 == 1 <==> ((before >> bit) & 1 == 1 || at
                == bit)) by (bit_vector)
                requires
                    at < 32,
                    bit < 32,
            ;
            assert(last == word * 32 + at);
        } else {
            assert(last != id);
        }
    }
}

/// The big-endian bytes of a 32-bit number.
pub open spec fn be32(v: u32) -> Seq<u8> {
    seq![
        (v / 0x100_0000) as u8,
        ((v / 0x1_0000) % 0x100) as u8,
        ((v / 0x100) % 0x100) as u8,
        (v % 0x100) as u8,
    ]
}

/// The big-endian bytes of a 64-bit number.
pub open spec fn be64(v: u64) -> Seq<u8> {
    be32((v / 0x1_0000_0000) as u32) + be32((v % 0x1_0000_0000) as u32)
}

/// Appends the big-endian bytes of `v`.
pub fn push_be32(out: &mut Vec<u8>, v: u32)
    ensures
        final(out)@ == old(out)@ + be32(v),
{
    out.push((v / 0x100_0000) as u8);
    out.push(((v / 0x1_0000) % 0x100) as u8);
    out.push(((v / 0x100) % 0x100) as u8);
    out.push((v % 0x100) as u8);
    assert(out@ =~= old(out)@ + be32(v));
}

/// Appends the big-endian bytes of `v`.
pub fn push_be64(out: &mut Vec<u8>, v: u64)
    ensures
        final(out)@ == old(out)@ + be64(v),
{
    push_be32(out, (v / 0x1_0000_0000) as u32);
    push_be32(out, (v % 0x1_0000_0000) as u32);
    assert(out@ =~= old(out)@ + be64(v));
}

/// The attribute ids of a size and/or mode setting, in increasing order.
pub open spec fn size_mode_ids(mode: Option<u32>, size: Option<u64>) -> Seq<u32> {
    (if size is Some {
        seq![FATTR4_SIZE]
    } else {
        seq![]
    }) + (if mode is Some {
        seq![FATTR4_MODE]
    } else {
        seq![]
    })
}

/// A size and/or mode setting. The values follow in increasing attribute-id
/// order: the size before the mode.
pub open spec fn size_mode_attrs(mode: Option<u32>, size: Option<u64>) -> Fattr<Seq<u8>> {
    Fattr {
        mask: bitmap_of(size_mode_ids(mode, size)),
        vals: (match size {
            Some(s) => be64(s),
            None => Seq::empty(),
        }) + (match mode {
            Some(m) => be32(m),
            None => Seq::empty(),
        }),
    }
}

/// Encodes a size and/or mode setting.
pub fn encode_size_mode(mode: Option<u32>, size: Option<u64>) -> (r: Fattr<Vec<u8>>)
    ensures
        r@ == size_mode_attrs(mode, size),
{
    let mut vals: Vec<u8> = Vec::new();
    let mut ids: Vec<u32> = Vec::new();
    if let Some(s) = size {
        ids.push(FATTR4_SIZE);
        push_be64(&mut vals, s);
    }
    if let Some(m) = mode {
        ids.push(FATTR4_MODE);
        push_be32(&mut vals, m);
    }
    assert(ids@ =~= size_mode_ids(mode, size));
    assert(vals@ =~= size_mode_attrs(mode, size).vals);
    let mask = Compound::bitmap(ids.as_slice());
    Fattr { mask, vals }
}

impl Compound {
    pub fn new() -> (c: Compound)
        ensures
            c@ == empty_compound(),
    {
        let c = Compound { tag: Vec::new(), minorversion: 1, ops: Vec::new() };
        assert(c@.tag =~= Seq::<u8>::empty());
        assert(c@.ops =~= Seq::<OpModel>::empty());
        c
    }

    fn push(&mut self, op: NfsOp)
        ensures
            final(self)@ == old(self)@.with(op@),
    {
        self.ops.push(op);
        assert(op_models(self.ops@) =~= op_models(old(self).ops@).push(op@));
    }

    /// Number of operations currently in the request (before the session adds
    /// the mandatory SEQUENCE operation).
    pub fn op_count(&self) -> (n: usize)
        ensures
            n == self@.ops.len(),
    {
        self.ops.len()
    }

    /// Build a bitmap whose bit `a` is set for every FATTR4 attribute id in
    /// `attrs`.
    pub fn bitmap(attrs: &[u32]) -> (r: Bitmap)
        requires
            forall|i: int| 0 <= i < attrs@.len() ==> attrs@[i] < 96,
        ensures
            r == bitmap_of(attrs@),
    {
        let mut word0: u32 = 0;
        let mut word1: u32 = 0;
        let mut word2: u32 = 0;
        let mut i: usize = 0;
        while i < attrs.len()
            invariant
                i <= attrs.len(),
                forall|i: int| 0 <= i < attrs@.len() ==> attrs@[i] < 96,
                word0 == mask_word(attrs@.take(i as int), 0),
                word1 == mask_word(attrs@.take(i as int), 1),
                word2 == mask_word(attrs@.take(i as int), 2),
            decreases attrs.len() - i,
        {
            let a: u32 = attrs[i];
            let bit: u32 = 1u32 << (a % 32);
            proof {
                let after = attrs@.take(i + 1);
                assert(after.drop_last() =~= attrs@.take(i as int));
                assert(after.last() == a);
            }
            if a / 32 == 0 {
                word0 = word0 | bit;
            } else if a / 32 == 1 {
                word1 = word1 | bit;
            } else {
                word2 = word2 | bit;
            }
            i += 1;
        }
        assert(attrs@.take(attrs.len() as int) =~= attrs@);
        let len: u32 = if word2 != 0 {
            3
        } else if word1 != 0 {
            2
        } else if word0 != 0 {
            1
        } else {
            0
        };
        Bitmap { len, word0, word1, word2 }
    }

    pub fn tag(&mut self, tag: &[u8])
        ensures
            final(self)@ == (CompoundModel { tag: tag@, ..old(self)@ }),
    {
        self.tag = copy_bytes(tag);
    }

    pub fn putfh(&mut self, fh: &[u8])
        ensures
            final(self)@ == old(self)@.with(Op::Putfh { fh: fh@ }),
    {
        self.push(Op::Putfh { fh: copy_bytes(fh) });
    }

    pub fn putrootfh(&mut self)
        ensures
            final(self)@ == old(self)@.with(Op::Putrootfh),
    {
        self.push(Op::Putrootfh);
    }

    pub fn getfh(&mut self)
        ensures
            final(self)@ == old(self)@.with(Op::Getfh),
    {
        self.push(Op::Getfh);
    }

    pub fn lookup(&mut self, name: &[u8])
        ensures
            final(self)@ == old(self)@.with(Op::Lookup { name: name@ }),
    {
        self.push(Op::Lookup { name: copy_bytes(name) });
    }

    pub fn sequence(&mut self, sessionid: &[u8; 16], seqid: u32, slotid: u32, highest_slotid: u32)
        ensures
            final(self)@ == old(self)@.with(
                Op::Sequence { sessionid: *sessionid, seqid, slotid, highest_slotid },
            ),
    {
        self.push(Op::Sequence { sessionid: *sessionid, seqid, slotid, highest_slotid });
    }

    pub fn open(&mut self, args: OpenArgs<Vec<u8>>)
        ensures
            final(self)@ == old(self)@.with(Op::Open(args@)),
    {
        self.push(Op::Open(args));
    }

    /// Build a CLAIM_NULL OPEN with the given owner and filename.
    pub fn open_claim_null(
        &mut self,
        seqid: u32,
        share_access: u32,
        share_deny: u32,
        clientid: u64,
        owner_name: &[u8],
        openhow: OpenHow<Vec<u8>>,
        claim_file: &[u8],
    )
        ensures
            final(self)@ == old(self)@.with(
                Op::Open(
                    OpenArgs {
                        seqid,
                        share_access,
                        share_deny,
                        clientid,
                        owner: owner_name@,
                        how: openhow@,
                        file: claim_file@,
                    },
                ),
            ),
    {
        self.open(
            OpenArgs {
                seqid,
                share_access,
                share_deny,
                clientid,
                owner: copy_bytes(owner_name),
                how: openhow,
                file: copy_bytes(claim_file),
            },
        );
    }

    /// Like `open_claim_null` but with an UNCHECKED create carrying a creation
    /// mode and/or a `size=0` truncation in its attributes. The mode is
    /// applied by the server only when the file is created; `size=0` also
    /// truncates an existing file.
    pub fn open_claim_null_create_mode(
        &mut self,
        seqid: u32,
        share_access: u32,
        share_deny: u32,
        clientid: u64,
        owner_name: &[u8],
        claim_file: &[u8],
        mode: Option<u32>,
        truncate: bool,
    )
        ensures
            final(self)@ == old(self)@.with(
                Op::Open(
                    OpenArgs {
                        seqid,
                        share_access,
                        share_deny,
                        clientid,
                        owner: owner_name@,
                        how: OpenHow::Unchecked {
                            attrs: size_mode_attrs(
                                mode,
                                if truncate {
                                    Some(0u64)
                                } else {
                                    None
                                },
                            ),
                        },
                        file: claim_file@,
                    },
                ),
            ),
    {
        let size: Option<u64> = if truncate {
            Some(0)
        } else {
            None
        };
        let attrs = encode_size_mode(mode, size);
        self.open_claim_null(
            seqid,
            share_access,
            share_deny,
            clientid,
            owner_name,
            OpenHow::Unchecked { attrs },
            claim_file,
        );
    }

    pub fn read(&mut self, stateid: &Stateid, offset: u64, count: u32)
        ensures
            final(self)@ == old(self)@.with(Op::Read { stateid: *stateid, offset, count }),
    {
        self.push(Op::Read { stateid: *stateid, offset, count });
    }

    pub fn write(&mut self, stateid: &Stateid, offset: u64, stable: u32, data: &[u8])
        ensures
            final(self)@ == old(self)@.with(
                Op::Write { stateid: *stateid, offset, stable, data: data@ },
            ),
    {
        self.push(Op::Write { stateid: *stateid, offset, stable, data: copy_bytes(data) });
    }

    /// NFSv4.2 COPY. The saved filehandle is the source and the current
    /// filehandle is the destination.
    pub fn copy(
        &mut self,
        src_stateid: &Stateid,
        dst_stateid: &Stateid,
        src_offset: u64,
        dst_offset: u64,
        count: u64,
    )
        ensures
            final(self)@ == old(self)@.with(
                Op::Copy {
                    src_stateid: *src_stateid,
                    dst_stateid: *dst_stateid,
                    src_offset,
                    dst_offset,
                    count,
                },
            ),
    {
        self.push(
            Op::Copy {
                src_stateid: *src_stateid,
                dst_stateid: *dst_stateid,
                src_offset,
                dst_offset,
                count,
            },
        );
    }

    pub fn close(&mut self, seqid: u32, stateid: &Stateid)
        ensures
            final(self)@ == old(self)@.with(Op::Close { seqid, stateid: *stateid }),
    {
        self.push(Op::Close { seqid, stateid: *stateid });
    }

    pub fn exchange_id(&mut self, verifier: &[u8; 8], owner_id: &[u8])
        ensures
            final(self)@ == old(self)@.with(
                Op::ExchangeId { verifier: *verifier, owner_id: owner_id@ },
            ),
    {
        self.push(Op::ExchangeId { verifier: *verifier, owner_id: copy_bytes(owner_id) });
    }

    pub fn create_session(
        &mut self,
        clientid: u64,
        sequence: u32,
        fore: ChannelAttrs,
        back: ChannelAttrs,
    )
        ensures
            final(self)@ == old(self)@.with(Op::CreateSession { clientid, sequence, fore, back }),
    {
        self.push(Op::CreateSession { clientid, sequence, fore, back });
    }

    pub fn reclaim_complete(&mut self)
        ensures
            final(self)@ == old(self)@.with(Op::ReclaimComplete),
    {
        self.push(Op::ReclaimComplete);
    }

    /// CREATE a new object below the current directory. When `linkdata` is
    /// given the object is a symlink to it; otherwise `ftype` is its type.
    pub fn create(&mut self, name: &[u8], ftype: u32, linkdata: Option<&[u8]>)
        ensures
            final(self)@ == old(self)@.with(
                Op::Create {
                    name: name@,
                    ftype: if linkdata is Some {
                        crate::vecfs::NF4LNK
                    } else {
                        ftype
                    },
                    linkdata: match linkdata {
                        Some(t) => Some(t@),
                        None => None,
                    },
                },
            ),
    {
        match linkdata {
            Some(target) => {
                self.push(
                    Op::Create {
                        name: copy_bytes(name),
                        ftype: crate::vecfs::NF4LNK,
                        linkdata: Some(copy_bytes(target)),
                    },
                );
            },
            None => {
                self.push(Op::Create { name: copy_bytes(name), ftype, linkdata: None });
            },
        }
    }

    /// READLINK the current object.
    pub fn readlink(&mut self)
        ensures
            final(self)@ == old(self)@.with(Op::Readlink),
    {
        self.push(Op::Readlink);
    }

    /// GETATTR the current object for the given FATTR4 attribute ids.
    pub fn getattr(&mut self, attrs: &[u32])
        requires
            forall|i: int| 0 <= i < attrs@.len() ==> attrs@[i] < 96,
        ensures
            final(self)@ == old(self)@.with(Op::Getattr { mask: bitmap_of(attrs@) }),
    {
        let mask = Compound::bitmap(attrs);
        self.push(Op::Getattr { mask });
    }

    /// SETATTR mode and/or size on the current object. A `None` value leaves
    /// the corresponding attribute unchanged. Uses the zero stateid.
    pub fn setattr(&mut self, mode: Option<u32>, size: Option<u64>)
        ensures
            final(self)@ == old(self)@.with(
                Op::Setattr { stateid: zero_state(), attrs: size_mode_attrs(mode, size) },
            ),
    {
        self.setattr_with_stateid(mode, size, &zero_stateid());
    }

    /// Like `setattr` but with an explicit stateid. In a compound that already
    /// OPENed the file, pass the special "current" stateid so the server
    /// resolves it to the open state.
    pub fn setattr_with_stateid(
        &mut self,
        mode: Option<u32>,
        size: Option<u64>,
        stateid: &Stateid,
    )
        ensures
            final(self)@ == old(self)@.with(
                Op::Setattr { stateid: *stateid, attrs: size_mode_attrs(mode, size) },
            ),
    {
        let attrs = encode_size_mode(mode, size);
        self.push(Op::Setattr { stateid: *stateid, attrs });
    }

    /// READDIR the current directory from `cookie`; `cookieverf` guards the
    /// cookie, `attrs` are the FATTR4 ids requested for each entry.
    pub fn readdir(
        &mut self,
        cookie: u64,
        cookieverf: u64,
        dircount: u32,
        maxcount: u32,
        attrs: &[u32],
    )
        requires
            forall|i: int| 0 <= i < attrs@.len() ==> attrs@[i] < 96,
        ensures
            final(self)@ == old(self)@.with(
                Op::Readdir {
                    cookie,
                    cookieverf,
                    dircount,
                    maxcount,
                    mask: bitmap_of(attrs@),
                },
            ),
    {
        let mask = Compound::bitmap(attrs);
        self.push(Op::Readdir { cookie, cookieverf, dircount, maxcount, mask });
    }

    /// REMOVE `name` from the current directory.
    pub fn remove(&mut self, name: &[u8])
        ensures
            final(self)@ == old(self)@.with(Op::Remove { name: name@ }),
    {
        self.push(Op::Remove { name: copy_bytes(name) });
    }

    /// RENAME `oldname` in the saved directory to `newname` in the current one.
    pub fn rename(&mut self, oldname: &[u8], newname: &[u8])
        ensures
            final(self)@ == old(self)@.with(Op::Rename { oldname: oldname@, newname: newname@ }),
    {
        self.push(Op::Rename { oldname: copy_bytes(oldname), newname: copy_bytes(newname) });
    }

    /// SAVEFH the current filehandle.
    pub fn savefh(&mut self)
        ensures
            final(self)@ == old(self)@.with(Op::Savefh),
    {
        self.push(Op::Savefh);
    }

    /// RESTOREFH: make the saved filehandle the current filehandle.
    pub fn restorefh(&mut self)
        ensures
            final(self)@ == old(self)@.with(Op::Restorefh),
    {
        self.push(Op::Restorefh);
    }

    /// LOOKUPP: make the parent of the current filehandle the current one.
    pub fn lookupp(&mut self)
        ensures
            final(self)@ == old(self)@.with(Op::Lookupp),
    {
        self.push(Op::Lookupp);
    }

    /// LINK the saved filehandle into the current directory under `newname`.
    pub fn link(&mut self, newname: &[u8])
        ensures
            final(self)@ == old(self)@.with(Op::Link { newname: newname@ }),
    {
        self.push(Op::Link { newname: copy_bytes(newname) });
    }

    pub fn destroy_session(&mut self, sessionid: &[u8; 16])
        ensures
            final(self)@ == old(self)@.with(Op::DestroySession { sessionid: *sessionid }),
    {
        self.push(Op::DestroySession { sessionid: *sessionid });
    }

    pub fn destroy_clientid(&mut self, clientid: u64)
        ensures
            final(self)@ == old(self)@.with(Op::DestroyClientid { clientid }),
    {
        self.push(Op::DestroyClientid { clientid });
    }

    /// Puts a SEQUENCE op in front of all others.
    pub fn prepend_sequence(&mut self, op: NfsOp)
        ensures
            final(self)@ == (CompoundModel {
                ops: seq![op@] + old(self)@.ops,
                ..old(self)@
            }),
    {
        self.ops.insert(0, op);
        assert(op_models(self.ops@) =~= seq![op@] + op_models(old(self).ops@));
    }
}

impl Default for Compound {
    fn default() -> (c: Compound)
        ensures
            c@ == empty_compound(),
    {
        Compound::new()
    }
}

/// The all-zero (anonymous) stateid.
pub open spec fn zero_state() -> Stateid {
    Stateid { seqid: 0, other_hi: 0, other_lo: 0 }
}

/// The NFSv4.1 special stateid, seqid 1 and zero "other": the server resolves
/// it to the current stateid of the current filehandle. It is what lets OPEN,
/// WRITE and CLOSE live in one compound.
pub open spec fn special_state() -> Stateid {
    Stateid { seqid: 1, other_hi: 0, other_lo: 0 }
}

pub fn zero_stateid() -> (s: Stateid)
    ensures
        s == zero_state(),
{
    Stateid { seqid: 0, other_hi: 0, other_lo: 0 }
}

pub fn special_stateid() -> (s: Stateid)
    ensures
        s == special_state(),
{
    Stateid { seqid: 1, other_hi: 0, other_lo: 0 }
}

// ---------------------------------------------------------------------------
// Replies
// ---------------------------------------------------------------------------

/// An entry of a READDIR reply as the server sent it.
#[derive(Debug)]
pub struct RawEntry {
    pub name: Vec<u8>,
    pub cookie: u64,
    /// XDR-encoded attribute list, in the order requested.
    pub attrs: Vec<u8>,
}

/// What a successful operation returned.
#[allow(inconsistent_fields)]
#[derive(Debug)]
pub enum ResBody {
    /// Nothing beyond the status.
    Plain,
    Getfh { fh: Vec<u8> },
    Open { stateid: Stateid },
    Read { data: Vec<u8>, eof: bool },
    Write { count: u32, committed: u32 },
    Copy { count: u64 },
    Readlink { link: Vec<u8> },
    Getattr { attrs: Vec<u8> },
    Readdir { entries: Vec<RawEntry> },
    ExchangeId { clientid: u64 },
    CreateSession { sessionid: [u8; 16], fore: ChannelAttrs },
    /// An operation this client never sends.
    Unknown,
}

/// The result of one operation.
#[derive(Debug)]
pub struct ResOp {
    pub status: u32,
    pub body: ResBody,
}

/// A decoded COMPOUND4 reply. The results stand in request order; the server
/// stops after the first operation that fails.
#[derive(Debug)]
pub struct CompoundRes {
    pub status: u32,
    pub ops: Vec<ResOp>,
}

impl ResOp {
    /// The status that counts for this result; an operation that is not known
    /// never counts as successful.
    pub open spec fn effective_status(self) -> u32 {
        if self.body is Unknown {
            0xFFFF_FFFFu32
        } else {
            self.status
        }
    }
}

impl CompoundRes {
    /// The per-operation statuses.
    pub open spec fn statuses(&self) -> Seq<u32> {
        self.ops@.map_values(|o: ResOp| o.effective_status())
    }

    pub fn status(&self) -> (r: u32)
        ensures
            r == self.status,
    {
        self.status
    }

    pub fn nops(&self) -> (r: usize)
        ensures
            r == self.ops@.len(),
            r == self.statuses().len(),
    {
        self.ops.len()
    }

    /// Per-op status for the given result index.
    pub fn op_status(&self, i: usize) -> (r: u32)
        requires
            i < self.ops@.len(),
        ensures
            r == self.statuses()[i as int],
    {
        match self.ops[i].body {
            ResBody::Unknown => 0xFFFF_FFFF,
            _ => self.ops[i].status,
        }
    }

    pub fn op(&self, i: usize) -> (r: &ResOp)
        requires
            i < self.ops@.len(),
        ensures
            *r == self.ops@[i as int],
    {
        &self.ops[i]
    }

    /// The client id of the EXCHANGE_ID at result `i`.
    pub fn exchange_id(&self, i: usize) -> (r: u64)
        requires
            i < self.ops@.len(),
            self.ops@[i as int].body is ExchangeId,
        ensures
            r == self.ops@[i as int].body->ExchangeId_clientid,
    {
        match self.ops[i].body {
            ResBody::ExchangeId { clientid } => clientid,
            _ => 0,
        }
    }

    /// The session id and confirmed limits of the CREATE_SESSION at result `i`.
    pub fn create_session(&self, i: usize) -> (r: ([u8; 16], ChannelAttrs))
        requires
            i < self.ops@.len(),
            self.ops@[i as int].body is CreateSession,
        ensures
            r.0 == self.ops@[i as int].body->CreateSession_sessionid,
            r.1 == self.ops@[i as int].body->CreateSession_fore,
    {
        match self.ops[i].body {
            ResBody::CreateSession { sessionid, fore } => (sessionid, fore),
            _ => {
                assert(false);
                (
                    [0u8;16],
                    ChannelAttrs {
                        maxrequestsize: 0,
                        maxresponsesize: 0,
                        maxresponsesize_cached: 0,
                        maxoperations: 0,
                        maxrequests: 0,
                    },
                )
            },
        }
    }

    /// The file handle returned by the GETFH at result `i`.
    pub fn getfh(&self, i: usize) -> (r: &[u8])
        requires
            i < self.ops@.len(),
            self.ops@[i as int].body is Getfh,
        ensures
            r@ == self.ops@[i as int].body->fh@,
    {
        match &self.ops[i].body {
            ResBody::Getfh { fh } => fh.as_slice(),
            _ => {
                assert(false);
                &[]
            },
        }
    }

    /// The stateid returned by the OPEN at result `i`.
    pub fn open(&self, i: usize) -> (r: Stateid)
        requires
            i < self.ops@.len(),
            self.ops@[i as int].body is Open,
        ensures
            r == self.ops@[i as int].body->Open_stateid,
    {
        match &self.ops[i].body {
            ResBody::Open { stateid } => *stateid,
            _ => zero_stateid(),
        }
    }

    /// The data and the EOF flag of the READ at result `i`.
    pub fn read(&self, i: usize) -> (r: (&[u8], bool))
        requires
            i < self.ops@.len(),
            self.ops@[i as int].body is Read,
        ensures
            r.0@ == self.ops@[i as int].body->data@,
            r.1 == self.ops@[i as int].body->eof,
    {
        match &self.ops[i].body {
            ResBody::Read { data, eof } => (data.as_slice(), *eof),
            _ => {
                assert(false);
                (&[], false)
            },
        }
    }

    /// The byte count and commit level of the WRITE at result `i`.
    pub fn write(&self, i: usize) -> (r: (u32, u32))
        requires
            i < self.ops@.len(),
            self.ops@[i as int].body is Write,
        ensures
            r.0 == self.ops@[i as int].body->Write_count,
            r.1 == self.ops@[i as int].body->committed,
    {
        match &self.ops[i].body {
            ResBody::Write { count, committed } => (*count, *committed),
            _ => (0, 0),
        }
    }

    /// The number of bytes the COPY at result `i` copied.
    pub fn copy(&self, i: usize) -> (r: u64)
        requires
            i < self.ops@.len(),
            self.ops@[i as int].body is Copy,
        ensures
            r == self.ops@[i as int].body->Copy_count,
    {
        match &self.ops[i].body {
            ResBody::Copy { count } => *count,
            _ => 0,
        }
    }

    /// The symlink target bytes of the READLINK at result `i`.
    pub fn readlink(&self, i: usize) -> (r: &[u8])
        requires
            i < self.ops@.len(),
            self.ops@[i as int].body is Readlink,
        ensures
            r@ == self.ops@[i as int].body->link@,
    {
        match &self.ops[i].body {
            ResBody::Readlink { link } => link.as_slice(),
            _ => {
                assert(false);
                &[]
            },
        }
    }

    /// The raw attribute list returned by the GETATTR at result `i`.
    pub fn getattr(&self, i: usize) -> (r: &[u8])
        requires
            i < self.ops@.len(),
            self.ops@[i as int].body is Getattr,
        ensures
            r@ == self.ops@[i as int].body->attrs@,
    {
        match &self.ops[i].body {
            ResBody::Getattr { attrs } => attrs.as_slice(),
            _ => {
                assert(false);
                &[]
            },
        }
    }

    /// An owned copy of the raw attribute list at result `i`.
    pub fn getattr_bytes(&self, i: usize) -> (r: Vec<u8>)
        requires
            i < self.ops@.len(),
            self.ops@[i as int].body is Getattr,
        ensures
            r@ == self.ops@[i as int].body->attrs@,
    {
        copy_bytes(self.getattr(i))
    }

    /// The entries of the READDIR at result `i`.
    pub fn readdir(&self, i: usize) -> (r: &[RawEntry])
        requires
            i < self.ops@.len(),
            self.ops@[i as int].body is Readdir,
        ensures
            r@ == self.ops@[i as int].body->entries@,
    {
        match &self.ops[i].body {
            ResBody::Readdir { entries } => entries.as_slice(),
            _ => {
                assert(false);
                &[]
            },
        }
    }
}

} // verus!
