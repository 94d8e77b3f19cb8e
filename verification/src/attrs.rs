//! NFS attributes: which ones a call asks for, how a reply is parsed, and what
//! of it reaches the caller.

use vstd::prelude::*;
use vstd::string::*;

use crate::compound::{be32, be64, size_mode_attrs, size_mode_ids};
use crate::proto::{
    FATTR4_FILEID, FATTR4_MODE, FATTR4_NAMED_ATTR, FATTR4_NUMLINKS, FATTR4_OWNER,
    FATTR4_OWNER_GROUP, FATTR4_RAWDEV, FATTR4_SIZE, FATTR4_SPACE_USED, FATTR4_TIME_ACCESS,
    FATTR4_TIME_METADATA, FATTR4_TIME_MODIFY, FATTR4_TYPE, S_IFBLK, S_IFCHR, S_IFDIR, S_IFIFO,
    S_IFLNK, S_IFREG, S_IFSOCK,
};
use crate::vecfs::{
    attrs_within, code_of_type, type_of_code, AttrMask, VfAttrs, VfError, VfResult, VfType, NF4BLK,
    NF4CHR, NF4DIR, NF4FIFO, NF4LNK, NF4REG, NF4SOCK, VF_ERR_RPC,
};
use crate::xdr::{
    law_be32_reads_back, law_be64_reads_back, padded, position, read_opaque, read_u32, read_u64,
    u32_at, u64_at,
};

verus! {

/// Parsed values of a GETATTR reply for the supported FATTR4 attributes. Owner
/// and group are the strings that the server sent.
#[derive(Debug)]
pub struct AttrValues {
    pub ftype: Option<u32>,
    pub mode: Option<u32>,
    pub size: Option<u64>,
    pub nlink: Option<u32>,
    pub fileid: Option<u64>,
    pub owner: Option<Vec<u8>>,
    pub group: Option<Vec<u8>>,
    pub rdev: Option<u64>,
    pub blocks: Option<u64>,
    pub mtime: Option<(i64, u32)>,
    pub atime: Option<(i64, u32)>,
    pub ctime: Option<(i64, u32)>,
    pub has_named_attr: Option<bool>,
}

/// The model of parsed values.
pub struct ValuesModel {
    pub ftype: Option<u32>,
    pub mode: Option<u32>,
    pub size: Option<u64>,
    pub nlink: Option<u32>,
    pub fileid: Option<u64>,
    pub owner: Option<Seq<u8>>,
    pub group: Option<Seq<u8>>,
    pub rdev: Option<u64>,
    pub blocks: Option<u64>,
    pub mtime: Option<(i64, u32)>,
    pub atime: Option<(i64, u32)>,
    pub ctime: Option<(i64, u32)>,
    pub has_named_attr: Option<bool>,
}

/// The bytes of an optional string.
pub open spec fn opt_view(v: Option<Vec<u8>>) -> Option<Seq<u8>> {
    match v {
        Some(s) => Some(s@),
        None => None,
    }
}

impl View for AttrValues {
    type V = ValuesModel;

    open spec fn view(&self) -> ValuesModel {
        ValuesModel {
            ftype: self.ftype,
            mode: self.mode,
            size: self.size,
            nlink: self.nlink,
            fileid: self.fileid,
            owner: opt_view(self.owner),
            group: opt_view(self.group),
            rdev: self.rdev,
            blocks: self.blocks,
            mtime: self.mtime,
            atime: self.atime,
            ctime: self.ctime,
            has_named_attr: self.has_named_attr,
        }
    }
}

/// Nothing parsed yet.
pub open spec fn no_values() -> ValuesModel {
    ValuesModel {
        ftype: None,
        mode: None,
        size: None,
        nlink: None,
        fileid: None,
        owner: None,
        group: None,
        rdev: None,
        blocks: None,
        mtime: None,
        atime: None,
        ctime: None,
        has_named_attr: None,
    }
}

/// The supported FATTR4 ids, in wire (increasing) order.
pub open spec fn full_attr_ids() -> Seq<u32> {
    seq![
        FATTR4_TYPE,
        FATTR4_SIZE,
        FATTR4_NAMED_ATTR,
        FATTR4_FILEID,
        FATTR4_MODE,
        FATTR4_NUMLINKS,
        FATTR4_OWNER,
        FATTR4_OWNER_GROUP,
        FATTR4_RAWDEV,
        FATTR4_SPACE_USED,
        FATTR4_TIME_ACCESS,
        FATTR4_TIME_METADATA,
        FATTR4_TIME_MODIFY,
    ]
}

/// Whether an attribute has to be fetched for a mask. The type always is: it is
/// cheap and helps listings.
pub open spec fn wanted(id: u32, masks: AttrMask) -> bool {
    if id == FATTR4_TYPE {
        true
    } else if id == FATTR4_SIZE {
        masks.size
    } else if id == FATTR4_NAMED_ATTR {
        masks.named_attr
    } else if id == FATTR4_FILEID {
        masks.fileid
    } else if id == FATTR4_MODE {
        masks.mode
    } else if id == FATTR4_NUMLINKS {
        masks.nlink
    } else if id == FATTR4_OWNER {
        masks.uid
    } else if id == FATTR4_OWNER_GROUP {
        masks.gid
    } else if id == FATTR4_RAWDEV {
        masks.rdev
    } else if id == FATTR4_SPACE_USED {
        masks.blocks
    } else if id == FATTR4_TIME_ACCESS {
        masks.atime
    } else if id == FATTR4_TIME_METADATA {
        masks.ctime
    } else if id == FATTR4_TIME_MODIFY {
        masks.mtime
    } else {
        false
    }
}

/// The ids among `ids` that a mask wants, in the same order.
pub open spec fn wanted_ids(ids: Seq<u32>, masks: AttrMask) -> Seq<u32>
    decreases ids.len(),
{
    if ids.len() == 0 {
        Seq::empty()
    } else if wanted(ids.last(), masks) {
        wanted_ids(ids.drop_last(), masks).push(ids.last())
    } else {
        wanted_ids(ids.drop_last(), masks)
    }
}

/// Whether an id is one that can be parsed.
pub open spec fn supported(id: u32) -> bool {
    full_attr_ids().contains(id)
}

fn is_wanted(id: u32, masks: &AttrMask) -> (r: bool)
    ensures
        r == wanted(id, *masks),
{
    if id == FATTR4_TYPE {
        true
    } else if id == FATTR4_SIZE {
        masks.size
    } else if id == FATTR4_NAMED_ATTR {
        masks.named_attr
    } else if id == FATTR4_FILEID {
        masks.fileid
    } else if id == FATTR4_MODE {
        masks.mode
    } else if id == FATTR4_NUMLINKS {
        masks.nlink
    } else if id == FATTR4_OWNER {
        masks.uid
    } else if id == FATTR4_OWNER_GROUP {
        masks.gid
    } else if id == FATTR4_RAWDEV {
        masks.rdev
    } else if id == FATTR4_SPACE_USED {
        masks.blocks
    } else if id == FATTR4_TIME_ACCESS {
        masks.atime
    } else if id == FATTR4_TIME_METADATA {
        masks.ctime
    } else if id == FATTR4_TIME_MODIFY {
        masks.mtime
    } else {
        false
    }
}

/// The attribute ids to request for a mask, in wire order.
pub fn request_mask_to_attr_list(masks: &AttrMask) -> (r: Vec<u32>)
    ensures
        r@ == wanted_ids(full_attr_ids(), *masks),
        forall|i: int| 0 <= i < r@.len() ==> #[trigger] supported(r@[i]) && r@[i] < 96,
{
    let all: [u32; 13] = [
        FATTR4_TYPE,
        FATTR4_SIZE,
        FATTR4_NAMED_ATTR,
        FATTR4_FILEID,
        FATTR4_MODE,
        FATTR4_NUMLINKS,
        FATTR4_OWNER,
        FATTR4_OWNER_GROUP,
        FATTR4_RAWDEV,
        FATTR4_SPACE_USED,
        FATTR4_TIME_ACCESS,
        FATTR4_TIME_METADATA,
        FATTR4_TIME_MODIFY,
    ];
    assert(all@ =~= full_attr_ids());
    let mut ids: Vec<u32> = Vec::new();
    let mut i: usize = 0;
    while i < 13
        invariant
            i <= 13,
            all@ == full_attr_ids(),
            ids@ == wanted_ids(all@.take(i as int), *masks),
        decreases 13 - i,
    {
        proof {
            let after = all@.take(i + 1);
            assert(after.drop_last() =~= all@.take(i as int));
            assert(after.last() == all@[i as int]);
        }
        if is_wanted(all[i], masks) {
            ids.push(all[i]);
        }
        i += 1;
    }
    proof {
        assert(all@.take(13) =~= all@);
        lemma_wanted_supported(full_attr_ids(), *masks);
    }
    ids
}

proof fn lemma_wanted_supported(ids: Seq<u32>, masks: AttrMask)
    requires
        forall|i: int| 0 <= i < ids.len() ==> #[trigger] full_attr_ids().contains(ids[i]),
    ensures
        forall|i: int|
            #![trigger wanted_ids(ids, masks)[i]]
            0 <= i < wanted_ids(ids, masks).len() ==> full_attr_ids().contains(
                wanted_ids(ids, masks)[i],
            ) && wanted_ids(ids, masks)[i] < 96,
    decreases ids.len(),
{
    if ids.len() > 0 {
        let prefix = ids.drop_last();
        assert forall|i: int| 0 <= i < prefix.len() implies #[trigger] full_attr_ids().contains(
            prefix[i],
        ) by {
            assert(prefix[i] == ids[i]);
        }
        lemma_wanted_supported(prefix, masks);
        assert(full_attr_ids().contains(ids[ids.len() - 1]));
        let all = full_attr_ids();
        assert forall|id: u32| all.contains(id) implies id < 96 by {
            let k = choose|k: int| 0 <= k < all.len() && all[k] == id;
            assert(0 <= k < 13);
        }
        let before = wanted_ids(prefix, masks);
        let after = wanted_ids(ids, masks);
        assert forall|i: int| #![trigger after[i]] 0 <= i < after.len() implies all.contains(
            after[i],
        ) && after[i] < 96 by {
            if i < before.len() {
                assert(after[i] == before[i]);
            } else {
                assert(after[i] == ids[ids.len() - 1]);
            }
        }
    }
}

/// The requested ids stand in increasing order, as the wire format demands.
pub proof fn law_requested_ids_increase(masks: AttrMask)
    ensures
        forall|i: int, j: int|
            #![trigger wanted_ids(full_attr_ids(), masks)[i], wanted_ids(full_attr_ids(), masks)[j]]
            0 <= i < j < wanted_ids(full_attr_ids(), masks).len() ==> wanted_ids(
                full_attr_ids(),
                masks,
            )[i] < wanted_ids(full_attr_ids(), masks)[j],
{
    lemma_wanted_increase(full_attr_ids(), masks);
}

proof fn lemma_wanted_increase(ids: Seq<u32>, masks: AttrMask)
    requires
        forall|i: int, j: int| 0 <= i < j < ids.len() ==> ids[i] < ids[j],
    ensures
        forall|i: int, j: int|
            #![trigger wanted_ids(ids, masks)[i], wanted_ids(ids, masks)[j]]
            0 <= i < j < wanted_ids(ids, masks).len() ==> wanted_ids(ids, masks)[i] < wanted_ids(
                ids,
                masks,
            )[j],
        forall|i: int|
            #![trigger wanted_ids(ids, masks)[i]]
            0 <= i < wanted_ids(ids, masks).len() ==> wanted_ids(ids, masks)[i] <= ids.last(),
    decreases ids.len(),
{
    if ids.len() > 0 {
        lemma_wanted_increase(ids.drop_last(), masks);
        let before = wanted_ids(ids.drop_last(), masks);
        let after = wanted_ids(ids, masks);
        if ids.len() > 1 {
            assert(ids.drop_last().last() == ids[ids.len() - 2]);
            assert(ids[ids.len() - 2] < ids[ids.len() - 1]);
        } else {
            assert(ids.drop_last() =~= Seq::<u32>::empty());
        }
        assert forall|i: int| #![trigger after[i]] 0 <= i < after.len() implies after[i]
            <= ids.last() by {
            if i < before.len() {
                assert(after[i] == before[i]);
            }
        }
        assert forall|i: int, j: int|
            #![trigger after[i], after[j]]
            0 <= i < j < after.len() implies after[i] < after[j] by {
            assert(after[i] == before[i]);
            if j < before.len() {
                assert(after[j] == before[j]);
            }
        }
    }
}

// ---------------------------------------------------------------------------
// Parsing
// ---------------------------------------------------------------------------

/// How libc packs a device's major and minor numbers into one number.
pub open spec fn device_number(major: u32, minor: u32) -> u64 {
    ((major as u64 & 0xfff) << 8) | ((major as u64 & 0xffff_f000) << 32) | (minor as u64 & 0xff) | ((
    minor as u64 & 0xffff_ff00) << 12)
}

/// Calls `libc::makedev`: the low 12 bits of the major number go to bit 8, the
/// rest of it to bit 44; the low 8 bits of the minor number stay, the rest of
/// it goes to bit 20.
#[verifier::external_body]
fn makedev(major: u32, minor: u32) -> (r: u64)
    ensures
        r == device_number(major, minor),
{
    libc::makedev(major, minor)
}

/// A 64-bit two's-complement number.
pub open spec fn signed(v: u64) -> i64 {
    if v >= 0x8000_0000_0000_0000 {
        (v - 0x1_0000_0000_0000_0000) as i64
    } else {
        v as i64
    }
}

fn to_signed(v: u64) -> (r: i64)
    ensures
        r == signed(v),
{
    if v >= 0x8000_0000_0000_0000 {
        let low: i64 = (v - 0x8000_0000_0000_0000) as i64;
        low - 0x7FFF_FFFF_FFFF_FFFF - 1
    } else {
        v as i64
    }
}

/// Parses one attribute at `off`: the values with it, and where the next one
/// starts. `None` where the list ends too early.
pub open spec fn parse_one(id: u32, list: Seq<u8>, off: int, v: ValuesModel) -> Option<
    (int, ValuesModel),
> {
    let len = list.len();
    if id == FATTR4_TYPE || id == FATTR4_NAMED_ATTR || id == FATTR4_MODE || id == FATTR4_NUMLINKS {
        if off + 4 > len {
            None
        } else {
            let x = u32_at(list, off);
            Some((
                off + 4,
                if id == FATTR4_TYPE {
                    ValuesModel { ftype: Some(x), ..v }
                } else if id == FATTR4_NAMED_ATTR {
                    ValuesModel { has_named_attr: Some(x != 0), ..v }
                } else if id == FATTR4_MODE {
                    ValuesModel { mode: Some(x), ..v }
                } else {
                    ValuesModel { nlink: Some(x), ..v }
                },
            ))
        }
    } else if id == FATTR4_SIZE || id == FATTR4_FILEID || id == FATTR4_SPACE_USED {
        if off + 8 > len {
            None
        } else {
            let x = u64_at(list, off);
            Some((
                off + 8,
                if id == FATTR4_SIZE {
                    ValuesModel { size: Some(x), ..v }
                } else if id == FATTR4_FILEID {
                    ValuesModel { fileid: Some(x), ..v }
                } else {
                    // in units of 512 bytes
                    ValuesModel { blocks: Some(x / 512), ..v }
                },
            ))
        }
    } else if id == FATTR4_RAWDEV {
        if off + 8 > len {
            None
        } else {
            Some((
                off + 8,
                ValuesModel {
                    rdev: Some(device_number(u32_at(list, off), u32_at(list, off + 4))),
                    ..v
                },
            ))
        }
    } else if id == FATTR4_OWNER || id == FATTR4_OWNER_GROUP {
        if off + 4 > len || off + 4 + u32_at(list, off) > len {
            None
        } else {
            let n = u32_at(list, off) as int;
            let s = list.subrange(off + 4, off + 4 + n);
            Some((
                position(off + 4 + padded(n)),
                if id == FATTR4_OWNER {
                    ValuesModel { owner: Some(s), ..v }
                } else {
                    ValuesModel { group: Some(s), ..v }
                },
            ))
        }
    } else {
        // an nfstime4: seconds and nanoseconds
        if off + 12 > len {
            None
        } else {
            let t = (signed(u64_at(list, off)), u32_at(list, off + 8));
            Some((
                off + 12,
                if id == FATTR4_TIME_ACCESS {
                    ValuesModel { atime: Some(t), ..v }
                } else if id == FATTR4_TIME_MODIFY {
                    ValuesModel { mtime: Some(t), ..v }
                } else {
                    ValuesModel { ctime: Some(t), ..v }
                },
            ))
        }
    }
}

/// Parses the attributes `ids`, one after the other.
pub open spec fn parse_ids(ids: Seq<u32>, list: Seq<u8>) -> Option<(int, ValuesModel)>
    decreases ids.len(),
{
    if ids.len() == 0 {
        Some((0int, no_values()))
    } else {
        match parse_ids(ids.drop_last(), list) {
            Some((off, v)) => parse_one(ids.last(), list, off, v),
            None => None,
        }
    }
}

/// Read an XDR `nfstime4`: seconds and nanoseconds (12 bytes).
pub fn read_nfstime(buf: &[u8], off: &mut usize) -> (r: Option<(i64, u32)>)
    ensures
        r is Some <==> *old(off) + 12 <= buf@.len(),
        r is Some ==> r->0 == (signed(u64_at(buf@, *old(off) as int)), u32_at(
            buf@,
            *old(off) + 8,
        )) && *final(off) == *old(off) + 12,
        r is None ==> *final(off) == *old(off),
{
    let at: usize = *off;
    if buf.len() < 12 || at > buf.len() - 12 {
        return None;
    }
    let mut here: usize = at;
    let secs: u64 = match read_u64(buf, &mut here) {
        Some(v) => v,
        None => 0,
    };
    let nsec: u32 = match read_u32(buf, &mut here) {
        Some(v) => v,
        None => 0,
    };
    *off = here;
    Some((to_signed(secs), nsec))
}

fn parse_attr(id: u32, list: &[u8], off: &mut usize, v: &mut AttrValues) -> (ok: bool)
    requires
        supported(id),
    ensures
        match parse_one(id, list@, *old(off) as int, old(v)@) {
            Some((o, m)) => ok && *final(off) == o && final(v)@ == m,
            None => !ok,
        },
{
    proof {
        let all = full_attr_ids();
        let k = choose|k: int| 0 <= k < all.len() && all[k] == id;
        assert(0 <= k < 13);
    }
    if id == FATTR4_TYPE || id == FATTR4_NAMED_ATTR || id == FATTR4_MODE || id == FATTR4_NUMLINKS {
        match read_u32(list, off) {
            Some(x) => {
                if id == FATTR4_TYPE {
                    v.ftype = Some(x);
                } else if id == FATTR4_NAMED_ATTR {
                    v.has_named_attr = Some(x != 0);
                } else if id == FATTR4_MODE {
                    v.mode = Some(x);
                } else {
                    v.nlink = Some(x);
                }
                true
            },
            None => false,
        }
    } else if id == FATTR4_SIZE || id == FATTR4_FILEID || id == FATTR4_SPACE_USED {
        match read_u64(list, off) {
            Some(x) => {
                if id == FATTR4_SIZE {
                    v.size = Some(x);
                } else if id == FATTR4_FILEID {
                    v.fileid = Some(x);
                } else {
                    v.blocks = Some(x / 512);
                }
                true
            },
            None => false,
        }
    } else if id == FATTR4_RAWDEV {
        match read_u32(list, off) {
            Some(major) => match read_u32(list, off) {
                Some(minor) => {
                    v.rdev = Some(makedev(major, minor));
                    true
                },
                None => false,
            },
            None => false,
        }
    } else if id == FATTR4_OWNER || id == FATTR4_OWNER_GROUP {
        match read_opaque(list, off) {
            Some(s) => {
                if id == FATTR4_OWNER {
                    v.owner = Some(s);
                } else {
                    v.group = Some(s);
                }
                true
            },
            None => false,
        }
    } else {
        match read_nfstime(list, off) {
            Some(t) => {
                if id == FATTR4_TIME_ACCESS {
                    v.atime = Some(t);
                } else if id == FATTR4_TIME_MODIFY {
                    v.mtime = Some(t);
                } else {
                    v.ctime = Some(t);
                }
                true
            },
            None => false,
        }
    }
}

/// Parse a raw GETATTR attribute list encoded for the given ids (in id order).
/// A list that ends too early fails with [`VF_ERR_RPC`].
pub fn parse_attr_list(ids: &[u32], list: &[u8]) -> (r: VfResult<AttrValues>)
    requires
        forall|i: int| 0 <= i < ids@.len() ==> #[trigger] supported(ids@[i]),
    ensures
        match parse_ids(ids@, list@) {
            Some((_, v)) => r is Ok && r->Ok_0@ == v,
            None => r is Err && r->Err_0 == (VfError::Op { index: 0, err_no: VF_ERR_RPC }),
        },
{
    let mut v = AttrValues {
        ftype: None,
        mode: None,
        size: None,
        nlink: None,
        fileid: None,
        owner: None,
        group: None,
        rdev: None,
        blocks: None,
        mtime: None,
        atime: None,
        ctime: None,
        has_named_attr: None,
    };
    let mut off: usize = 0;
    let mut i: usize = 0;
    assert(ids@.take(0) =~= Seq::<u32>::empty());
    while i < ids.len()
        invariant
            i <= ids@.len(),
            forall|i: int| 0 <= i < ids@.len() ==> #[trigger] supported(ids@[i]),
            parse_ids(ids@.take(i as int), list@) == Some((off as int, v@)),
        decreases ids.len() - i,
    {
        proof {
            let after = ids@.take(i + 1);
            assert(after.drop_last() =~= ids@.take(i as int));
            assert(after.last() == ids@[i as int]);
            assert(supported(ids@[i as int]));
        }
        if !parse_attr(ids[i], list, &mut off, &mut v) {
            proof {
                lemma_parse_stops(ids@, list@, i + 1);
            }
            return Err(VfError::failure(0, VF_ERR_RPC));
        }
        i += 1;
    }
    assert(ids@.take(ids@.len() as int) =~= ids@);
    Ok(v)
}

proof fn lemma_parse_stops(ids: Seq<u32>, list: Seq<u8>, n: int)
    requires
        0 <= n <= ids.len(),
        parse_ids(ids.take(n), list) is None,
    ensures
        parse_ids(ids, list) is None,
    decreases ids.len() - n,
{
    if n == ids.len() {
        assert(ids.take(n) =~= ids);
    } else {
        assert(ids.take(n + 1).drop_last() =~= ids.take(n));
        lemma_parse_stops(ids, list, n + 1);
    }
}

/// Parsing gives back the size and mode that were encoded.
pub proof fn law_size_and_mode_read_back(mode: Option<u32>, size: Option<u64>)
    ensures
        parse_ids(size_mode_ids(mode, size), size_mode_attrs(mode, size).vals) is Some,
        (parse_ids(size_mode_ids(mode, size), size_mode_attrs(mode, size).vals)->Some_0).1 == (
        ValuesModel { mode, size, ..no_values() }),
{
    let ids = size_mode_ids(mode, size);
    let vals = size_mode_attrs(mode, size).vals;
    let none = Seq::<u32>::empty();
    assert(parse_ids(none, vals) == Some((0int, no_values())));
    match (size, mode) {
        (Some(s), Some(m)) => {
            law_be64_reads_back(s);
            law_be32_reads_back(m);
            assert(ids =~= seq![FATTR4_SIZE, FATTR4_MODE]);
            assert(ids.drop_last() =~= seq![FATTR4_SIZE]);
            assert(ids.drop_last().drop_last() =~= none);
            assert(vals.len() == 12);
            assert(u32_at(vals, 0) == u32_at(be64(s), 0));
            assert(u32_at(vals, 4) == u32_at(be64(s), 4));
            assert(u32_at(vals, 8) == u32_at(be32(m), 0));
            assert(parse_ids(ids.drop_last(), vals) == parse_one(FATTR4_SIZE, vals, 0, no_values()));
        },
        (Some(s), None) => {
            law_be64_reads_back(s);
            assert(ids =~= seq![FATTR4_SIZE]);
            assert(ids.drop_last() =~= none);
            assert(vals =~= be64(s));
        },
        (None, Some(m)) => {
            law_be32_reads_back(m);
            assert(ids =~= seq![FATTR4_MODE]);
            assert(ids.drop_last() =~= none);
            assert(vals =~= be32(m));
        },
        (None, None) => {
            assert(ids =~= none);
        },
    }
}

// ---------------------------------------------------------------------------
// Applying
// ---------------------------------------------------------------------------

/// File-type bits of a mode for an NFSv4 file type code.
pub open spec fn type_bits(ftype: u32) -> u32 {
    if ftype == NF4REG {
        S_IFREG
    } else if ftype == NF4DIR {
        S_IFDIR
    } else if ftype == NF4LNK {
        S_IFLNK
    } else if ftype == NF4BLK {
        S_IFBLK
    } else if ftype == NF4CHR {
        S_IFCHR
    } else if ftype == NF4FIFO {
        S_IFIFO
    } else if ftype == NF4SOCK {
        S_IFSOCK
    } else {
        0
    }
}

pub fn s_ifmt(ftype: u32) -> (r: u32)
    ensures
        r == type_bits(ftype),
{
    if ftype == NF4REG {
        S_IFREG
    } else if ftype == NF4DIR {
        S_IFDIR
    } else if ftype == NF4LNK {
        S_IFLNK
    } else if ftype == NF4BLK {
        S_IFBLK
    } else if ftype == NF4CHR {
        S_IFCHR
    } else if ftype == NF4FIFO {
        S_IFIFO
    } else if ftype == NF4SOCK {
        S_IFSOCK
    } else {
        0
    }
}

/// Which attributes are both asked for and there.
pub open spec fn delivered(
    masks: AttrMask,
    v: ValuesModel,
    uid: Option<u32>,
    gid: Option<u32>,
) -> AttrMask {
    AttrMask {
        mode: masks.mode && v.mode is Some,
        size: masks.size && v.size is Some,
        nlink: masks.nlink && v.nlink is Some,
        fileid: masks.fileid && v.fileid is Some,
        blocks: masks.blocks && v.blocks is Some,
        uid: masks.uid && uid is Some,
        gid: masks.gid && gid is Some,
        rdev: masks.rdev && v.rdev is Some,
        atime: masks.atime && v.atime is Some,
        mtime: masks.mtime && v.mtime is Some,
        ctime: masks.ctime && v.ctime is Some,
        named_attr: masks.named_attr && v.has_named_attr is Some,
    }
}

/// The attributes with what was parsed filled in where it was asked for;
/// everything else stays as it was.
pub open spec fn applied(
    a: VfAttrs,
    v: ValuesModel,
    uid: Option<u32>,
    gid: Option<u32>,
) -> VfAttrs {
    let got = delivered(a.masks, v, uid, gid);
    let ftype = match v.ftype {
        Some(t) => type_of_code(t),
        None => VfType::Regular,
    };
    VfAttrs {
        file: a.file,
        masks: a.masks,
        returned: got,
        ftype,
        mode: if got.mode {
            v.mode->0 | type_bits(code_of_type(ftype))
        } else {
            a.mode
        },
        size: if got.size {
            v.size->0
        } else {
            a.size
        },
        nlink: if got.nlink {
            v.nlink->0
        } else {
            a.nlink
        },
        fileid: if got.fileid {
            v.fileid->0
        } else {
            a.fileid
        },
        uid: if got.uid {
            uid->0
        } else {
            a.uid
        },
        gid: if got.gid {
            gid->0
        } else {
            a.gid
        },
        rdev: if got.rdev {
            v.rdev->0
        } else {
            a.rdev
        },
        blocks: if got.blocks {
            v.blocks->0
        } else {
            a.blocks
        },
        mtime_sec: if got.mtime {
            (v.mtime->Some_0).0
        } else {
            a.mtime_sec
        },
        mtime_nsec: if got.mtime {
            (v.mtime->Some_0).1
        } else {
            a.mtime_nsec
        },
        atime_sec: if got.atime {
            (v.atime->Some_0).0
        } else {
            a.atime_sec
        },
        atime_nsec: if got.atime {
            (v.atime->Some_0).1
        } else {
            a.atime_nsec
        },
        ctime_sec: if got.ctime {
            (v.ctime->Some_0).0
        } else {
            a.ctime_sec
        },
        ctime_nsec: if got.ctime {
            (v.ctime->Some_0).1
        } else {
            a.ctime_nsec
        },
        has_named_attr: if got.named_attr {
            v.has_named_attr->0
        } else {
            a.has_named_attr
        },
    }
}

/// Fill `a` from parsed values where the mask requests the attribute. `mode`
/// is the permission bits plus the file-type bits derived from the type; `uid`
/// and `gid` are what the owner strings resolved to.
#[verifier::rlimit(80)]
pub fn apply_attrs(a: &mut VfAttrs, v: &AttrValues, uid: Option<u32>, gid: Option<u32>)
    ensures
        *final(a) == applied(*old(a), v@, uid, gid),
{
    let ftype = match v.ftype {
        Some(t) => VfType::from_nfs(t),
        None => VfType::Regular,
    };
    let bits: u32 = s_ifmt(ftype.as_nfs());
    let full_mode: Option<u32> = match v.mode {
        Some(mode) => Some(mode | bits),
        None => None,
    };
    let masks = a.masks;
    let (mode, has_mode) = pick(masks.mode, full_mode, a.mode);
    let (size, has_size) = pick(masks.size, v.size, a.size);
    let (nlink, has_nlink) = pick(masks.nlink, v.nlink, a.nlink);
    let (fileid, has_fileid) = pick(masks.fileid, v.fileid, a.fileid);
    let (new_uid, has_uid) = pick(masks.uid, uid, a.uid);
    let (new_gid, has_gid) = pick(masks.gid, gid, a.gid);
    let (rdev, has_rdev) = pick(masks.rdev, v.rdev, a.rdev);
    let (blocks, has_blocks) = pick(masks.blocks, v.blocks, a.blocks);
    let (mtime, has_mtime) = pick(masks.mtime, v.mtime, (a.mtime_sec, a.mtime_nsec));
    let (atime, has_atime) = pick(masks.atime, v.atime, (a.atime_sec, a.atime_nsec));
    let (ctime, has_ctime) = pick(masks.ctime, v.ctime, (a.ctime_sec, a.ctime_nsec));
    let (named, has_named) = pick(masks.named_attr, v.has_named_attr, a.has_named_attr);
    a.ftype = ftype;
    a.returned = AttrMask {
        mode: has_mode,
        size: has_size,
        nlink: has_nlink,
        fileid: has_fileid,
        blocks: has_blocks,
        uid: has_uid,
        gid: has_gid,
        rdev: has_rdev,
        atime: has_atime,
        mtime: has_mtime,
        ctime: has_ctime,
        named_attr: has_named,
    };
    a.mode = mode;
    a.size = size;
    a.nlink = nlink;
    a.fileid = fileid;
    a.uid = new_uid;
    a.gid = new_gid;
    a.rdev = rdev;
    a.blocks = blocks;
    a.mtime_sec = mtime.0;
    a.mtime_nsec = mtime.1;
    a.atime_sec = atime.0;
    a.atime_nsec = atime.1;
    a.ctime_sec = ctime.0;
    a.ctime_nsec = ctime.1;
    a.has_named_attr = named;
}

/// The value of an attribute that is asked for and there, or else the one it
/// had; and which of the two it is.
fn pick<T: Copy>(asked: bool, got: Option<T>, kept: T) -> (r: (T, bool))
    ensures
        r.1 == (asked && got is Some),
        r.0 == (if asked && got is Some {
            got->0
        } else {
            kept
        }),
{
    match got {
        Some(v) => if asked {
            (v, true)
        } else {
            (kept, false)
        },
        None => (kept, false),
    }
}

/// Nothing is reported as returned that was not asked for, and a field that is
/// not reported as returned is untouched.
pub proof fn law_only_requested_attributes_return(
    a: VfAttrs,
    v: ValuesModel,
    uid: Option<u32>,
    gid: Option<u32>,
)
    ensures
        attrs_within(applied(a, v, uid, gid).returned, a.masks),
        !applied(a, v, uid, gid).returned.mode ==> applied(a, v, uid, gid).mode == a.mode,
        !applied(a, v, uid, gid).returned.size ==> applied(a, v, uid, gid).size == a.size,
        !applied(a, v, uid, gid).returned.uid ==> applied(a, v, uid, gid).uid == a.uid,
        !applied(a, v, uid, gid).returned.gid ==> applied(a, v, uid, gid).gid == a.gid,
{
}

} // verus!
