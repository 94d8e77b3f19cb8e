//! What the share's side is for: names, numbers, flags and times mean on the wire
//! what they mean to the caller, and data moves from where and to where it was
//! asked.

use vstd::prelude::*;

use crate::compound::{Compound, Op};
use crate::copyplan::write_models;
use crate::descio::read_out;
use crate::laws_attrs::{law_numbers_are_big_endian, number, posix_type};
use crate::laws_path::law_stretches_make_up_the_path;
use crate::laws_report::{law_decimal_spells_the_number, law_digits_are_read_as_spelled, spelled};
use crate::listing::entry_path;
use crate::path::{
    components, is_dot_name, joined_path, law_join_appends_name, leads_to, lemma_names_across,
    lemma_names_empty, lemma_pieces_of_joined, names, pieces, sep_free, trim_front, SLASH,
};
use crate::smb::{
    before_colon, credit_charge, encoded_path, independent, last_colon, law_names_travel_legally,
    names_port, normalize_server, open_request, refused_in_names, smb_errno, smb_error,
    wire_component, wire_name, write_flags, DfsShare, Disposition, OpenRequest, SmbErrorKind,
    SmbFailure,
};
use crate::smbfs::{
    all_in_order, copied_size, filetime_parts, fill_attrs, pair_error, path_read_results,
    path_write_results, read_handle, read_stands_alone, read_whole_error, read_whole_step,
    reads_run_together, short_read, smb_adb_writes, smb_advance, smb_copy_failed, smb_copy_length,
    smb_entry, smb_eof, smb_file_path, smb_fseek, smb_offset, smb_paths, smb_removal, smb_setattr,
    smb_take_open, smb_visible, smb_write_offset, unix_time, unsupported_links,
    unsupported_unless_empty, window, write_handle, writes_run_together, SmbCopy, SmbCopyFailure,
    SmbInfo, SmbOpen, SmbRemoval, WholeStep,
};
use crate::smbwire::{
    byte_of, compound_read_reply, compound_write_reply, create_reply, le16, le32, le64, open_reply,
    query_size_reply, read_reply, reply_part, size_bytes, then_close, transfer_form, transfer_limit,
    write_reply, CompoundOutcome, SmbFileId, SmbFrame, SmbRead, SmbWrite, TransferForm, WriteChunk,
};
use crate::table::FdTable;
use crate::text::{decimal, is_digit};
use crate::vecfs::{
    vf_path, Adb, AttrMask, ExtentPair, FileModel, ReadOp, ReadResult, SeekFrom, VfAttrs, VfError,
    VfFile, VfOffset, VfPathBase, VfRes, VfResult, VfType, WriteOp, WriteResult,
};

verus! {

// ---------------------------------------------------------------------------
// Names
// ---------------------------------------------------------------------------

/// The character that one on the wire stands for.
pub open spec fn unwired(c: char) -> char {
    if '\u{f001}' <= c <= '\u{f01f}' {
        (c as u32 - 0xF000) as u32 as char
    } else if c == '\u{f020}' {
        '"'
    } else if c == '\u{f021}' {
        '*'
    } else if c == '\u{f022}' {
        ':'
    } else if c == '\u{f023}' {
        '<'
    } else if c == '\u{f024}' {
        '>'
    } else if c == '\u{f025}' {
        '?'
    } else if c == '\u{f026}' {
        '\\'
    } else if c == '\u{f027}' {
        '|'
    } else if c == '\u{f028}' {
        ' '
    } else if c == '\u{f029}' {
        '.'
    } else {
        c
    }
}

/// A name on the wire stands for the name: character by character it can be read
/// back, so two names never become one.
pub proof fn law_names_can_be_read_back(name: Seq<char>, i: int)
    requires
        0 <= i < name.len(),
        !('\u{f001}' <= name[i] <= '\u{f029}'),
    ensures
        wire_component(name).len() == name.len(),
        unwired(wire_component(name)[i]) == name[i],
{
}

/// A path on the wire has the names of the path, in order, between backslashes.
pub proof fn law_paths_keep_their_names(path: Seq<char>)
    ensures
        ({
            let before = pieces(trim_front(path, '/'), '/');
            let after = pieces(encoded_path(path), '\\');
            &&& after.len() == before.len()
            &&& forall|k: int|
                0 <= k < before.len() ==> (#[trigger] after[k]) == wire_component(before[k])
        }),
{
    let before = pieces(trim_front(path, '/'), '/');
    let sent = before.map_values(|name: Seq<char>| wire_component(name));
    law_stretches_make_up_the_path(trim_front(path, '/'), '/');
    assert forall|k: int| #![trigger sent[k]] 0 <= k < sent.len() implies sep_free(sent[k], '\\') by {
        law_names_travel_legally(before[k]);
        assert(sent[k] == wire_component(before[k]));
        if sent[k].contains('\\') {
            let j = choose|j: int| 0 <= j < sent[k].len() && sent[k][j] == '\\';
            assert(before[k] == seq!['.'] || before[k] == seq!['.', '.'] || !refused_in_names(
                wire_component(before[k])[j],
            ));
        }
    }
    lemma_pieces_of_joined(sent, '\\');
}

/// In a distributed namespace a path goes below the server, without its port, and
/// the share; elsewhere it stands alone.
pub proof fn law_paths_go_below_their_share(
    encoded: Seq<char>,
    dfs: DfsShare,
    host: Seq<char>,
    port: Seq<char>,
)
    requires
        !host.contains(':'),
        dfs.server@ == host || dfs.server@ == host.push(':') + port,
    ensures
        wire_name(encoded, None) == encoded,
        encoded.len() > 0 ==> wire_name(encoded, Some(dfs)) == host + seq!['\\'] + dfs.share@ + seq![
            '\\',
        ] + encoded,
        encoded.len() == 0 ==> wire_name(encoded, Some(dfs)) == host + seq!['\\'] + dfs.share@,
{
    lemma_before_colon(host, port);
    reveal_strlit("\\");
    assert("\\"@ =~= seq!['\\']);
}

proof fn lemma_before_colon(host: Seq<char>, port: Seq<char>)
    requires
        !host.contains(':'),
    ensures
        before_colon(host) == host,
        before_colon(host.push(':') + port) == host,
    decreases host.len(),
{
    let t = host.push(':') + port;
    if host.len() == 0 {
        assert(t[0] == ':');
        assert(before_colon(host) =~= host);
    } else {
        assert(host.contains(host[0]));
        let rest = host.drop_first();
        if rest.contains(':') {
            let k = choose|k: int| 0 <= k < rest.len() && rest[k] == ':';
            assert(host[k + 1] == ':');
        }
        lemma_before_colon(rest, port);
        assert(t[0] == host[0]);
        assert(t.drop_first() =~= rest.push(':') + port);
        assert(seq![host[0]] + rest =~= host);
    }
}

/// A server without a port is reached at 445; one with a port is left alone.
pub proof fn law_servers_without_a_port_get_one(host: Seq<char>, port: u16)
    requires
        host.len() > 0,
        !host.contains(':'),
        !host.contains('['),
    ensures
        names_port(host.push(':') + decimal(port as nat)),
        !names_port(host),
{
    let d = decimal(port as nat);
    let t = host.push(':') + d;
    law_decimal_spells_the_number(port as nat);
    law_digits_are_read_as_spelled(d);
    assert(host.contains(host[0]));
    assert(t[0] == host[0]);
    lemma_last_colon_none(host);
    assert forall|i: int| host.len() < i < t.len() implies #[trigger] t[i] != ':' by {
        assert(t[i] == d[i - host.len() - 1]);
        assert('0' <= d[i - host.len() - 1] <= '9');
    }
    lemma_last_colon(t, host.len() as int);
    assert(t.skip(host.len() + 1int) =~= d);
    assert('0' <= d[0] <= '9');
    assert forall|i: int| 0 <= i < d.len() implies is_digit(#[trigger] d[i]) by {
        assert('0' <= d[i] <= '9');
    }
}

proof fn lemma_last_colon(s: Seq<char>, k: int)
    requires
        0 <= k < s.len(),
        s[k] == ':',
        forall|i: int| k < i < s.len() ==> #[trigger] s[i] != ':',
    ensures
        last_colon(s) == k,
    decreases s.len(),
{
    if k < s.len() - 1 {
        assert(s[s.len() - 1] != ':');
        lemma_last_colon(s.drop_last(), k);
    }
}

proof fn lemma_last_colon_none(s: Seq<char>)
    requires
        !s.contains(':'),
    ensures
        last_colon(s) == -1,
    decreases s.len(),
{
    if s.len() > 0 {
        assert(s.contains(s[s.len() - 1]));
        let rest = s.drop_last();
        if rest.contains(':') {
            let k = choose|k: int| 0 <= k < rest.len() && rest[k] == ':';
            assert(s[k] == ':');
        }
        lemma_last_colon_none(rest);
    }
}

/// The address that is used names a port, and is the given one up to it.
pub proof fn law_the_address_names_a_port(server: &str, r: String)
    requires
        call_ensures(normalize_server, (server,), r),
    ensures
        names_port(server@) ==> r@ == server@,
        !names_port(server@) ==> r@.len() == server@.len() + 4 && r@.take(server@.len() as int)
            == server@ && r@[server@.len() as int] == ':' && spelled(
            r@.skip(server@.len() + 1int),
            10,
        ) == 445,
{
    reveal_strlit(":445");
    let p = ":445"@;
    assert(p.len() == 4 && p[0] == ':' && p[1] == '4' && p[2] == '4' && p[3] == '5');
    if !names_port(server@) {
        assert(r@.take(server@.len() as int) =~= server@);
        let d = r@.skip(server@.len() + 1int);
        assert(d =~= seq!['4', '4', '5']);
        reveal_with_fuel(spelled, 4);
        assert(d.drop_last() =~= seq!['4', '4']);
        assert(d.drop_last().drop_last() =~= seq!['4']);
        assert(d.drop_last().drop_last().drop_last() =~= Seq::<char>::empty());
    }
}

/// Two paths are independent where neither continues the other, name by name.
pub proof fn law_independent_paths_do_not_meet(a: Seq<u8>, b: Seq<u8>, rest: Seq<Seq<u8>>)
    ensures
        components(b, 47u8, 46u8) == components(a, 47u8, 46u8) + rest ==> !independent(a, b)
            && !independent(b, a),
        !independent(a, b) ==> exists|r: Seq<Seq<u8>>|
            (#[trigger] (components(a, 47u8, 46u8) + r)) == components(b, 47u8, 46u8) || (components(
                b,
                47u8,
                46u8,
            ) + r) == components(a, 47u8, 46u8),
{
    let x = components(a, 47u8, 46u8);
    let y = components(b, 47u8, 46u8);
    if y == x + rest {
        assert(y.take(x.len() as int) =~= x);
    }
    if !independent(a, b) {
        if leads_to(x, y) {
            let r = y.skip(x.len() as int);
            assert(x + r =~= y);
        } else {
            let r = x.skip(y.len() as int);
            assert(y + r =~= x);
            assert((x + r) == (x + r));
        }
    }
}

// ---------------------------------------------------------------------------
// Numbers
// ---------------------------------------------------------------------------

/// The number that bytes spell, least significant first.
pub open spec fn little(bytes: Seq<u8>) -> int
    decreases bytes.len(),
{
    if bytes.len() == 0 {
        0
    } else {
        bytes[0] + 256 * little(bytes.drop_first())
    }
}

proof fn lemma_little_two(s: Seq<u8>, at: int)
    requires
        0 <= at,
        at + 2 <= s.len(),
    ensures
        le16(s, at) == little(s.subrange(at, at + 2)),
{
    let t = s.subrange(at, at + 2);
    reveal_with_fuel(little, 3);
    assert(t.drop_first().drop_first().len() == 0);
}

proof fn lemma_little_split(s: Seq<u8>, k: int)
    requires
        0 <= k <= s.len(),
    ensures
        little(s) == little(s.take(k)) + little(s.skip(k)) * pow256(k as nat),
    decreases k,
{
    if k == 0 {
        assert(s.take(0).len() == 0);
        assert(s.skip(0) =~= s);
        assert(little(s) * 1 == little(s));
    } else {
        lemma_little_split(s.drop_first(), k - 1);
        assert(s.take(k).drop_first() =~= s.drop_first().take(k - 1));
        assert(s.drop_first().skip(k - 1) =~= s.skip(k));
        let p = pow256((k - 1) as nat);
        let x = little(s.drop_first().take(k - 1));
        let y = little(s.skip(k));
        assert(256 * (x + y * p) == 256 * x + y * (256 * p)) by (nonlinear_arith);
    }
}

/// A power of 256.
pub open spec fn pow256(k: nat) -> int
    decreases k,
{
    if k == 0 {
        1
    } else {
        256 * pow256((k - 1) as nat)
    }
}

proof fn lemma_little_four(s: Seq<u8>, at: int)
    requires
        0 <= at,
        at + 4 <= s.len(),
    ensures
        le32(s, at) == little(s.subrange(at, at + 4)),
{
    let t = s.subrange(at, at + 4);
    lemma_little_split(t, 2);
    assert(t.take(2) =~= s.subrange(at, at + 2));
    assert(t.skip(2) =~= s.subrange(at + 2, at + 4));
    lemma_little_two(s, at);
    lemma_little_two(s, at + 2);
    reveal_with_fuel(pow256, 3);
}

proof fn lemma_little_eight(s: Seq<u8>, at: int)
    requires
        0 <= at,
        at + 8 <= s.len(),
    ensures
        le64(s, at) == little(s.subrange(at, at + 8)),
{
    let t = s.subrange(at, at + 8);
    lemma_little_split(t, 4);
    assert(t.take(4) =~= s.subrange(at, at + 4));
    assert(t.skip(4) =~= s.subrange(at + 4, at + 8));
    lemma_little_four(s, at);
    lemma_little_four(s, at + 4);
    reveal_with_fuel(pow256, 5);
}

proof fn lemma_little_of_bytes(v: u64, n: nat)
    requires
        v < pow256(n),
    ensures
        little(Seq::new(n, |i: int| byte_of(v, i))) == v,
    decreases n,
{
    let s = Seq::new(n, |i: int| byte_of(v, i));
    if n > 0 {
        let w = v / 0x100;
        let rest = Seq::new((n - 1) as nat, |i: int| byte_of(w, i));
        assert(s.drop_first() =~= rest);
        assert(w < pow256((n - 1) as nat));
        lemma_little_of_bytes(w, (n - 1) as nat);
        assert(s[0] == v % 0x100);
    }
}

/// Numbers travel least significant byte first, and are read where they stand.
pub proof fn law_numbers_are_little_endian(s: Seq<u8>, at: int, size: u64, r: Vec<u8>)
    requires
        call_ensures(size_bytes, (size,), r),
    ensures
        r@.len() == 8,
        little(r@) == size,
        0 <= at && at + 2 <= s.len() ==> le16(s, at) == little(s.subrange(at, at + 2)),
        0 <= at && at + 4 <= s.len() ==> le32(s, at) == little(s.subrange(at, at + 4)),
        0 <= at && at + 8 <= s.len() ==> le64(s, at) == little(s.subrange(at, at + 8)),
{
    reveal_with_fuel(pow256, 9);
    lemma_little_of_bytes(size, 8);
    if 0 <= at && at + 2 <= s.len() {
        lemma_little_two(s, at);
    }
    if 0 <= at && at + 4 <= s.len() {
        lemma_little_four(s, at);
    }
    if 0 <= at && at + 8 <= s.len() {
        lemma_little_eight(s, at);
    }
}

/// A request is charged one credit for every 65536 bytes that it moves, and at
/// least one.
pub proof fn law_credits_cover_the_bytes(bytes: usize, r: u16)
    requires
        call_ensures(credit_charge, (bytes,), r),
        bytes <= 65536 * 65535,
    ensures
        r >= 1,
        bytes <= r * 65536,
        r > 1 ==> (r - 1) * 65536 < bytes,
{
}

// ---------------------------------------------------------------------------
// Replies
// ---------------------------------------------------------------------------

/// The reply to an open names the handle, in two numbers of eight bytes at 64 and
/// 72, and the size, at 48.
pub proof fn law_an_open_names_handle_and_size(body: Seq<u8>)
    ensures
        create_reply(body) is Some ==> {
            let (id, size) = create_reply(body)->0;
            &&& body.len() >= 88 && little(body.subrange(0, 2)) == 89
            &&& id.persistent == little(body.subrange(64, 72))
            &&& id.volatile == little(body.subrange(72, 80))
            &&& size == little(body.subrange(48, 56))
        },
{
    if create_reply(body) is Some {
        lemma_little_two(body, 0);
        lemma_little_eight(body, 64);
        lemma_little_eight(body, 72);
        lemma_little_eight(body, 48);
    }
}

/// The reply to a read holds as many bytes as it says, behind its sixteen fixed
/// ones; and that to a write the number written, at 4.
pub proof fn law_transfers_say_what_they_moved(body: Seq<u8>)
    ensures
        read_reply(body) is Some ==> {
            let n = little(body.subrange(4, 8));
            &&& little(body.subrange(0, 2)) == 17
            &&& read_reply(body)->0.len() == n
            &&& n > 0 ==> 16 + n <= body.len() && read_reply(body)->0 == body.subrange(16, 16 + n)
        },
        write_reply(body) is Some ==> little(body.subrange(0, 2)) == 17 && write_reply(body)->0
            == little(body.subrange(4, 8)),
        body.len() >= 16 && little(body.subrange(0, 2)) == 17 ==> write_reply(body) is Some,
        body.len() >= 16 && little(body.subrange(0, 2)) == 17 && 16 + little(body.subrange(4, 8))
            <= body.len() && little(body.subrange(4, 8)) <= 16777216 ==> read_reply(body) is Some,
{
    if body.len() >= 16 {
        lemma_little_two(body, 0);
        lemma_little_four(body, 4);
        if le32(body, 4) == 0 {
            assert(read_reply(body) is Some ==> read_reply(body)->0 =~= Seq::<u8>::empty());
        }
    }
}

/// What a part of a reply holds stands at its offset behind the header of 64
/// bytes, and is as long as the reply says.
pub proof fn law_parts_stand_at_their_offset(body: Seq<u8>, fixed: int, offset: int, len: int)
    requires
        0 <= fixed,
        64 + fixed <= offset,
        0 < len <= 16777216,
    ensures
        offset - 64 + len <= body.len() ==> reply_part(body, fixed, offset, len) == Some(
            body.subrange(offset - 64, offset - 64 + len),
        ),
        offset - 64 + len > body.len() ==> reply_part(body, fixed, offset, len) is None,
{
}

/// A read in one compound gives the data of its READ where that succeeded, and
/// nothing at the end of the file; it fails with its CREATE or its READ; and a
/// file that was opened and not closed is handed on to be closed.
pub proof fn law_a_compound_read_gives_its_data(
    frames: Vec<SmbFrame>,
    r: CompoundOutcome<Vec<u8>>,
)
    requires
        frames@.len() == 3,
        call_ensures(compound_read_reply, (&frames,), r),
        create_reply(frames@[0].body@) is Some,
        read_reply(frames@[1].body@) is Some,
    ensures
        r.result is Ok <==> frames@[0].status == 0 && (frames@[1].status == 0 || frames@[1].status
            == 0xC000_0011),
        r.result is Ok && frames@[1].status == 0 ==> r.result->Ok_0@ == read_reply(
            frames@[1].body@,
        )->0,
        r.result is Ok && frames@[1].status == 0xC000_0011 ==> r.result->Ok_0@.len() == 0,
        frames@[0].status != 0 ==> r.close is None,
        frames@[0].status == 0 && r.result is Err ==> r.close == Some(
            (create_reply(frames@[0].body@)->0).0,
        ),
        r.result is Ok ==> r.close == (if frames@[2].status == 0 {
            None
        } else {
            Some((create_reply(frames@[0].body@)->0).0)
        }),
{
}

/// A write in one compound counts what its WRITE wrote, once it was flushed, and
/// never more than it was given.
pub proof fn law_a_compound_write_counts_its_bytes(
    frames: Vec<SmbFrame>,
    length: usize,
    close_overrun: bool,
    r: CompoundOutcome<usize>,
)
    requires
        frames@.len() == 4,
        call_ensures(compound_write_reply, (&frames, length, close_overrun), r),
        create_reply(frames@[0].body@) is Some,
        write_reply(frames@[1].body@) is Some,
    ensures
        r.result is Ok <==> frames@[0].status == 0 && frames@[1].status == 0 && frames@[2].status == 0
            && write_reply(frames@[1].body@)->0 <= length,
        r.result is Ok ==> r.result->Ok_0 == write_reply(frames@[1].body@)->0,
        frames@[0].status != 0 ==> r.close is None,
        r.result is Ok ==> r.close == (if frames@[3].status == 0 {
            None
        } else {
            Some((create_reply(frames@[0].body@)->0).0)
        }),
        frames@[0].status == 0 && (frames@[1].status != 0 || frames@[2].status != 0) ==> r.close
            == Some((create_reply(frames@[0].body@)->0).0),
{
}

// ---------------------------------------------------------------------------
// Opening
// ---------------------------------------------------------------------------

/// What a server does with a file under a disposition, given whether it is there:
/// nothing where it refuses, otherwise whether it makes a new file and whether
/// the file is empty then.
pub open spec fn disposed(d: Disposition, there: bool) -> Option<(bool, bool)> {
    match d {
        Disposition::Open => if there {
            Some((false, false))
        } else {
            None
        },
        Disposition::Create => if there {
            None
        } else {
            Some((true, true))
        },
        Disposition::OpenIf => Some((!there, !there)),
        Disposition::Overwrite => if there {
            Some((false, true))
        } else {
            None
        },
        Disposition::OverwriteIf => Some((!there, true)),
    }
}

/// The same by POSIX: bits 0x40, 0x80 and 0x200 of the flags ask for creation,
/// for a new file and for an empty one.
pub open spec fn opened_by_flags(flags: i32, there: bool) -> Option<(bool, bool)> {
    if there {
        if flags & 0x40 != 0 && flags & 0x80 != 0 {
            None
        } else {
            Some((false, flags & 0x200 != 0))
        }
    } else if flags & 0x40 != 0 {
        Some((true, true))
    } else {
        None
    }
}

/// A file is opened, created, refused and emptied as its flags say, and for what
/// they say: bit 1 of the access reads and bit 2 writes. Emptying without writing
/// is refused.
pub proof fn law_an_open_does_what_its_flags_say(flags: i32, r: VfResult<OpenRequest>, there: bool)
    requires
        call_ensures(open_request, (flags,), r),
    ensures
        r is Err <==> flags & 0x200 != 0 && flags & 3 == 0,
        r is Err ==> r->Err_0 == (VfError::Op { index: 0, err_no: 22 }),
        r is Ok ==> {
            let q = r->Ok_0;
            &&& disposed(q.disposition, there) == opened_by_flags(flags, there)
            &&& q.desired_access & 1 == 1 <==> flags & 3 != 1
            &&& q.desired_access & 2 == 2 <==> flags & 3 != 0
            &&& q.share_access == 7
            &&& q.create_options == (if flags & 0x10000 != 0 {
                1u32
            } else {
                0x40u32
            })
        },
{
    assert((0x80u32 | 0x10_0000u32) & 1 == 0 && (0x80u32 | 0x10_0000u32) & 2 == 0 && ((0x80u32
        | 0x10_0000u32) | 1u32) & 1 == 1 && ((0x80u32 | 0x10_0000u32) | 1u32) & 2 == 0 && ((0x80u32
        | 0x10_0000u32) | (2u32 | 0x100u32)) & 1 == 0 && ((0x80u32 | 0x10_0000u32) | (2u32
        | 0x100u32)) & 2 == 2 && (((0x80u32 | 0x10_0000u32) | 1u32) | (2u32 | 0x100u32)) & 1 == 1
        && (((0x80u32 | 0x10_0000u32) | 1u32) | (2u32 | 0x100u32)) & 2 == 2) by (bit_vector);
}

/// A write to a path opens it for writing, and creates and empties it where the
/// write says so and only there.
pub proof fn law_a_write_opens_as_it_says(
    creation: bool,
    truncate: bool,
    flags: i32,
    r: VfResult<OpenRequest>,
    there: bool,
)
    requires
        call_ensures(write_flags, (creation, truncate), flags),
        call_ensures(open_request, (flags,), r),
    ensures
        r is Ok,
        r->Ok_0.desired_access & 2 == 2,
        disposed(r->Ok_0.disposition, there) == (if there {
            Some((false, truncate))
        } else if creation {
            Some((true, true))
        } else {
            None
        }),
{
    assert(1i32 & 0x40 == 0 && 1i32 & 0x200 == 0 && 1i32 & 3 == 1 && 1i32 & 0x80 == 0) by (bit_vector);
    assert((1i32 | 0x40i32) & 0x40 != 0 && (1i32 | 0x40i32) & 0x200 == 0 && (1i32 | 0x40i32) & 3 == 1
        && (1i32 | 0x40i32) & 0x80 == 0) by (bit_vector);
    assert((1i32 | 0x200i32) & 0x40 == 0 && (1i32 | 0x200i32) & 0x200 != 0 && (1i32 | 0x200i32) & 3
        == 1 && (1i32 | 0x200i32) & 0x80 == 0) by (bit_vector);
    assert(((1i32 | 0x40i32) | 0x200i32) & 0x40 != 0 && ((1i32 | 0x40i32) | 0x200i32) & 0x200 != 0
        && ((1i32 | 0x40i32) | 0x200i32) & 3 == 1 && ((1i32 | 0x40i32) | 0x200i32) & 0x80 == 0)
        by (bit_vector);
    law_an_open_does_what_its_flags_say(flags, r, there);
}

/// A descriptor stands at the start of its file, or at its end where it appends,
/// and reads and writes where its flags say so.
pub proof fn law_a_descriptor_is_as_opened(
    id: SmbFileId,
    path: Vec<u8>,
    flags: i32,
    size: u64,
    r: SmbOpen,
)
    requires
        call_ensures(SmbOpen::new, (id, path, flags, size), r),
    ensures
        r.file_id == id && r.path == path,
        r.append <==> flags & 0x400 != 0,
        r.cur_offset == (if flags & 0x400 != 0 {
            size
        } else {
            0
        }),
        r.readable <==> flags & 3 != 1,
        r.writable <==> flags & 3 != 0,
{
}

/// The codes of failures.
pub proof fn law_failures_have_their_codes(kind: SmbErrorKind, status: Option<u32>)
    ensures
        smb_errno(kind, status) == match kind {
            SmbErrorKind::NotFound => Some(2u32),
            SmbErrorKind::AlreadyExists => Some(17u32),
            SmbErrorKind::AccessDenied => Some(13u32),
            SmbErrorKind::AuthRequired => Some(13u32),
            SmbErrorKind::SigningRequired => Some(13u32),
            SmbErrorKind::IsADirectory => Some(21u32),
            SmbErrorKind::NotADirectory => Some(20u32),
            SmbErrorKind::DiskFull => Some(28u32),
            SmbErrorKind::SharingViolation => Some(16u32),
            SmbErrorKind::InvalidName => Some(22u32),
            SmbErrorKind::InvalidData => Some(22u32),
            SmbErrorKind::Unsupported => Some(0xffff_fffeu32),
            SmbErrorKind::Other => if status == Some(0xC000_0101u32) {
                Some(39u32)
            } else if status == Some(0xC000_000Du32) {
                Some(22u32)
            } else {
                None
            },
            SmbErrorKind::TooLarge => None,
            SmbErrorKind::Broken => None,
        },
{
}

// ---------------------------------------------------------------------------
// Transfers
// ---------------------------------------------------------------------------

/// A transfer happens at its offset, at the end of the file, or at the position
/// of its open descriptor; an appending write always at the end.
pub proof fn law_share_offsets_mean_what_they_say(
    files: &FdTable<SmbOpen>,
    fd: i32,
    offset: VfOffset,
    size: u64,
    r: VfResult<u64>,
    w: VfResult<u64>,
    append: bool,
)
    requires
        call_ensures(smb_offset, (files, Some(fd), offset, size), r),
        call_ensures(smb_write_offset, (files, fd, append, offset, size), w),
    ensures
        match offset {
            VfOffset::At(o) => r == Ok::<u64, VfError>(o),
            VfOffset::End => r == Ok::<u64, VfError>(size),
            VfOffset::Cur => r == (if files@.contains_key(fd) {
                Ok::<u64, VfError>(files@[fd].cur_offset)
            } else {
                Err(VfError::Op { index: 0, err_no: 22 })
            }),
        },
        append ==> w == Ok::<u64, VfError>(size),
        !append ==> w == r,
{
}

/// A window of a file holds the file's bytes from its offset on, as many as were
/// asked for and are there.
pub proof fn law_a_window_holds_the_files_bytes(all: Vec<u8>, offset: u64, length: usize, r: Vec<u8>)
    requires
        call_ensures(window, (&all, offset, length), r),
    ensures
        r@.len() == (if offset >= all@.len() {
            0int
        } else if offset + length <= all@.len() {
            length as int
        } else {
            all@.len() - offset
        }),
        forall|i: int| 0 <= i < r@.len() ==> #[trigger] r@[i] == all@[offset + i],
{
}

/// A read is at the end of the file where it got to the file's size or got less
/// than it asked for, and never where it asked for nothing.
pub proof fn law_the_end_is_where_the_file_ends(
    offset: u64,
    got: usize,
    size: u64,
    length: usize,
    r: bool,
    s: bool,
)
    requires
        call_ensures(smb_eof, (offset, got, size, length), r),
        call_ensures(short_read, (got, length), s),
        got <= length,
    ensures
        length == 0 ==> !r && !s,
        0 < length && got == length ==> !s && (r <==> offset + got >= size),
        got < length ==> r && s,
{
}

/// A seek leads as far from its base as it says, and moves its own descriptor
/// alone.
pub proof fn law_a_share_seek_leads_where_it_says(
    files: &mut FdTable<SmbOpen>,
    file: &VfFile,
    offset: i64,
    whence: SeekFrom,
    size: u64,
    r: VfResult<i64>,
    fd: i32,
    other: i32,
)
    requires
        old(files).wf(),
        file@ == FileModel::Descriptor(fd),
        old(files)@.contains_key(fd),
        old(files)@.contains_key(other),
        call_ensures(smb_fseek, (files, file, offset, whence, size), r),
    ensures
        ({
            let base: int = match whence {
                SeekFrom::Start => 0,
                SeekFrom::Cur => old(files)@[fd].cur_offset as int,
                SeekFrom::End => size as int,
            };
            &&& r is Ok <==> 0 <= base + offset <= 0x7fff_ffff_ffff_ffff
            &&& r is Ok ==> r->Ok_0 == base + offset && final(files)@[fd].cur_offset == base + offset
            &&& r is Err ==> r->Err_0 == (VfError::Op { index: 0, err_no: 22 }) && final(files)@
                == old(files)@
            &&& other != fd ==> final(files)@[other] == old(files)@[other]
        }),
{
}

/// A read in chunks goes on where it has got to, asks for no more than is left
/// and than one request holds, and puts what it gets behind what it has; it ends
/// where it is complete or got less than it asked for.
pub proof fn law_a_chunked_read_goes_on_where_it_stands(
    t: &mut SmbRead,
    next: Option<(u64, u32)>,
    frame: SmbFrame,
    chunk: u32,
    r: VfRes,
)
    requires
        old(t).limit >= 1,
        call_ensures(SmbRead::next_chunk, (&*old(t),), next),
        call_ensures(SmbRead::absorb, (t, &frame, chunk), r),
    ensures
        next is None <==> old(t).ended || old(t).data@.len() >= old(t).length,
        next is Some ==> {
            &&& old(t).offset + old(t).data@.len() <= u64::MAX ==> (next->0).0 == old(t).offset + old(
                t).data@.len()
            &&& 1 <= (next->0).1 <= old(t).limit
            &&& old(t).data@.len() + (next->0).1 <= old(t).length
        },
        frame.status == 0 && read_reply(frame.body@) is Some ==> r is Ok && final(t).data@ == old(
            t).data@ + read_reply(frame.body@)->0 && (final(t).ended <==> old(t).ended
            || read_reply(frame.body@)->0.len() < chunk),
        frame.status == 0xC000_0011 ==> r is Ok && final(t).ended && final(t).data@ == old(t).data@,
        r is Err ==> final(t).data@ == old(t).data@ && final(t).ended == old(t).ended,
        final(t).offset == old(t).offset && final(t).length == old(t).length,
{
}

/// A write in chunks sends the bytes that are not written yet, from the first of
/// them, to where they belong, and counts what was written.
pub proof fn law_a_chunked_write_goes_on_where_it_stands(
    t: &mut SmbWrite,
    next: Option<WriteChunk>,
    frame: SmbFrame,
    chunk: usize,
    r: VfRes,
)
    requires
        old(t).wf(),
        chunk <= old(t).length - old(t).written,
        call_ensures(SmbWrite::next_chunk, (&*old(t),), next),
        call_ensures(SmbWrite::absorb, (t, &frame, chunk), r),
    ensures
        next is None <==> old(t).written == old(t).length,
        next is Some ==> {
            let c = next->0;
            &&& c.from == old(t).written
            &&& c.from < c.to <= old(t).length && c.to - c.from <= old(t).limit
            &&& c.to < old(t).length ==> c.to - c.from == old(t).limit
            &&& old(t).offset + c.from <= u64::MAX ==> c.offset == old(t).offset + c.from
        },
        r is Ok ==> frame.status == 0 && write_reply(frame.body@) is Some && final(t).written == old(
            t).written + write_reply(frame.body@)->0 && 1 <= write_reply(frame.body@)->0 <= chunk,
        r is Err ==> final(t).written == old(t).written,
        frame.status == 0 && write_reply(frame.body@) is Some && 1 <= write_reply(frame.body@)->0
            <= chunk ==> r is Ok,
{
}

// ---------------------------------------------------------------------------
// Attributes
// ---------------------------------------------------------------------------

/// A time is counted in steps of 100 nanoseconds from the year 1601; the Unix
/// epoch is 11644473600 seconds later, and what is before it counts as it.
pub proof fn law_times_count_from_the_epoch(steps: u64, r: (i64, u32))
    requires
        call_ensures(filetime_parts, (steps,), r),
    ensures
        steps >= 116444736000000000 ==> r.0 * 10000000 + r.1 / 100 == steps - 116444736000000000
            && r.1 % 100 == 0 && r.1 < 1000000000,
        steps < 116444736000000000 ==> r == (0i64, 0u32),
{
    if steps >= 116444736000000000 {
        let since = steps - 116444736000000000;
        assert(since / 10000000 <= i64::MAX);
        assert((since % 10000000) * 100 < 1000000000);
    }
}

/// A caller sees what the server tells: the size and the times that were asked
/// for, a type that is the object's, and a mode that agrees with it.
pub proof fn law_a_caller_sees_what_the_share_has(a: &mut VfAttrs, info: SmbInfo)
    requires
        call_ensures(fill_attrs, (a, &info), ()),
    ensures
        final(a).file == old(a).file && final(a).masks == old(a).masks,
        final(a).ftype == (if info.is_directory {
            VfType::Directory
        } else {
            VfType::Regular
        }),
        old(a).masks.mode ==> final(a).returned.mode && final(a).mode & 0o170000u32 == posix_type(
            final(a).ftype,
        ) && final(a).mode & 0o7777u32 == (if info.is_directory {
            0o777u32
        } else {
            0o666u32
        }),
        old(a).masks.size ==> final(a).returned.size && final(a).size == info.size,
        old(a).masks.atime ==> final(a).returned.atime && (
            final(a).atime_sec,
            final(a).atime_nsec,
        ) == unix_time(info.accessed),
        old(a).masks.mtime ==> final(a).returned.mtime && (
            final(a).mtime_sec,
            final(a).mtime_nsec,
        ) == unix_time(info.modified),
        !old(a).masks.mode ==> !final(a).returned.mode && final(a).mode == old(a).mode,
        !old(a).masks.size ==> !final(a).returned.size && final(a).size == old(a).size,
        !final(a).returned.uid && !final(a).returned.gid && !final(a).returned.nlink && !final(
            a).returned.fileid && !final(a).returned.ctime,
{
    assert((0x4000u32 | 0o777u32) & 0o170000u32 == 0o040000 && (0x4000u32 | 0o777u32) & 0o7777u32
        == 0o777 && (0x8000u32 | 0o666u32) & 0o170000u32 == 0o100000 && (0x8000u32 | 0o666u32)
        & 0o7777u32 == 0o666) by (bit_vector);
}

/// Only the size can be set, to what was asked for.
pub proof fn law_only_the_size_can_be_set(a: VfAttrs, index: usize, r: VfResult<Option<u64>>)
    requires
        call_ensures(smb_setattr, (&a, index), r),
    ensures
        r is Ok ==> !a.masks.mode && !a.masks.uid && !a.masks.gid && !a.masks.mtime && !a.masks.atime
            && !a.masks.nlink && r->Ok_0 == (if a.masks.size {
            Some(a.size)
        } else {
            None
        }),
        a.masks.mode || a.masks.uid || a.masks.gid || a.masks.mtime || a.masks.atime ==> r == Err::<
            Option<u64>,
            VfError,
        >(VfError::Op { index, err_no: 0xffff_fffe }),
{
}

/// A listing holds every object but `.` and `..`, in order, each under its own
/// name and with what was told of it.
pub proof fn law_a_share_listing_holds_its_objects(a: Seq<(Vec<u8>, SmbInfo)>, e: (Vec<u8>, SmbInfo))
    ensures
        smb_visible(Seq::<(Vec<u8>, SmbInfo)>::empty()).len() == 0,
        is_dot_name(e.0@) ==> smb_visible(a.push(e)) == smb_visible(a),
        !is_dot_name(e.0@) ==> smb_visible(a.push(e)) == smb_visible(a).push((e.0@, e.1)),
{
    assert(a.push(e).drop_last() =~= a);
}

/// An entry of a listing stands for the absolute path below its directory.
pub proof fn law_a_share_entry_is_below_its_directory(
    dir: &[u8],
    masks: AttrMask,
    name: &[u8],
    info: SmbInfo,
    a: VfAttrs,
)
    requires
        call_ensures(smb_entry, (dir, &masks, name, &info), a),
        name@.len() > 0,
        !name@.contains(47u8),
    ensures
        a.file@ is Path && a.file@->base == VfPathBase::Abs,
        names(a.file@->path, 47u8) == names(dir@, 47u8).push(name@),
        a.masks == masks && a.ftype == (if info.is_directory {
            VfType::Directory
        } else {
            VfType::Regular
        }),
        masks.size ==> a.returned.size && a.size == info.size,
        !a.returned.atime,
{
    assert(name@.contains(name@[0]));
    law_join_appends_name(dir@, name@, SLASH);
    let p = joined_path(dir@, name@, SLASH);
    assert(entry_path(dir@, name@) == p);
    lemma_names_across(Seq::<u8>::empty(), p, SLASH);
    lemma_names_empty(SLASH);
    assert(Seq::<u8>::empty().push(SLASH) + p =~= seq![SLASH] + p);
    assert(names(seq![SLASH] + p, SLASH) =~= names(p, SLASH));
}

// ---------------------------------------------------------------------------
// Copies
// ---------------------------------------------------------------------------

/// A copy is never longer than its pair asks for; it is as long where the source
/// reaches that far, and otherwise ends where the source does.
pub proof fn law_a_share_copy_is_as_long_as_asked(p: ExtentPair, size: u64, r: u64)
    requires
        call_ensures(smb_copy_length, (&p, size), r),
    ensures
        p.src_offset + p.length <= size ==> r == p.length,
        p.src_offset <= size && p.src_offset + p.length > size ==> p.src_offset + r == size,
        p.src_offset > size ==> r == 0,
{
}

/// A round of a copy goes on where the last one ended, on both sides, and copies
/// no more than is left.
pub proof fn law_a_share_copy_goes_on_where_it_stands(
    c: SmbCopy,
    r: VfResult<Option<(u64, u64, usize)>>,
)
    requires
        c.wf(),
        c.dst_offset + c.copied <= u64::MAX,
        call_ensures(SmbCopy::next_round, (&c,), r),
    ensures
        r is Ok,
        r->Ok_0 is None <==> c.copied >= c.length,
        r->Ok_0 is Some ==> {
            let (src, dst, len) = r->Ok_0->0;
            &&& src == c.src_offset + c.copied && dst == c.dst_offset + c.copied
            &&& 0 < len <= 1048576 && c.copied + len <= c.length
            &&& len < 1048576 ==> c.copied + len == c.length
        },
{
}

/// Block `b` of a pattern gets its number, the first block's plus `b`, in
/// network order, and the pattern's bytes, each at its place within the block.
pub proof fn law_a_share_block_holds_its_number_and_pattern(
    p: Adb,
    b: usize,
    r: Vec<(u64, Vec<u8>)>,
)
    requires
        b * p.adb_block_size <= u64::MAX,
        p.adb_reloff_blocknum != u64::MAX ==> p.adb_block_num + b <= u64::MAX && p.adb_offset + b
            * p.adb_block_size + p.adb_reloff_blocknum <= u64::MAX,
        p.adb_reloff_pattern != u64::MAX ==> p.adb_offset + b * p.adb_block_size
            + p.adb_reloff_pattern <= u64::MAX,
        p.adb_offset + b * p.adb_block_size <= u64::MAX,
        call_ensures(smb_adb_writes, (&p, b), r),
    ensures
        ({
            let base = p.adb_offset + b * p.adb_block_size;
            let numbered = p.adb_reloff_blocknum != 0xffff_ffff_ffff_ffff;
            let patterned = p.adb_reloff_pattern != 0xffff_ffff_ffff_ffff
                && p.adb_pattern_data@.len() > 0;
            &&& r@.len() == (if numbered {
                1int
            } else {
                0
            }) + (if patterned {
                1int
            } else {
                0
            })
            &&& numbered ==> r@[0].0 == base + p.adb_reloff_blocknum && r@[0].1@.len() == 8
                && number(r@[0].1@) == p.adb_block_num + b
            &&& patterned ==> r@.last().0 == base + p.adb_reloff_pattern && r@.last().1@
                == p.adb_pattern_data@
        }),
{
    let w = write_models(r@);
    assert(w.len() == r@.len());
    if p.adb_reloff_blocknum != u64::MAX {
        law_numbers_are_big_endian(0, (p.adb_block_num + b) as u64, Seq::empty(), 0);
        assert(w[0] == (r@[0].0, r@[0].1@));
    }
    if r@.len() > 0 {
        assert(w.last() == (r@.last().0, r@.last().1@));
    }
}

// ---------------------------------------------------------------------------
// Open files
// ---------------------------------------------------------------------------

/// A file is found where its path says, and an open one where it was opened.
pub proof fn law_a_share_file_is_where_it_says(
    cwd: &[u8],
    files: &FdTable<SmbOpen>,
    file: &VfFile,
    r: VfResult<Vec<u8>>,
    named: VfResult<Vec<u8>>,
)
    requires
        call_ensures(smb_file_path, (cwd, files, file), r),
        call_ensures(vf_path, (cwd, file), named),
    ensures
        match file@ {
            FileModel::Descriptor(fd) => if files@.contains_key(fd) {
                r is Ok && r->Ok_0@ == files@[fd].path@
            } else {
                r == Err::<Vec<u8>, VfError>(VfError::Op { index: 0, err_no: 9 })
            },
            FileModel::Saved => r == Err::<Vec<u8>, VfError>(
                VfError::Op { index: 0, err_no: 0xffff_fffe },
            ),
            FileModel::Null => r == Err::<Vec<u8>, VfError>(VfError::Op { index: 0, err_no: 22 }),
            _ => r is Ok && named is Ok && r->Ok_0@ == named->Ok_0@,
        },
{
}

/// Several files are each found at their own path, in order.
pub proof fn law_share_files_are_found_one_by_one(
    cwd: &[u8],
    files: &FdTable<SmbOpen>,
    list: &[VfFile],
    r: VfResult<(Vec<Vec<u8>>, Vec<String>)>,
    i: int,
    file: &VfFile,
    one: VfResult<Vec<u8>>,
)
    requires
        call_ensures(smb_paths, (cwd, files, list), r),
        r is Ok,
        0 <= i < list@.len(),
        file@ == list@[i]@,
        call_ensures(smb_file_path, (cwd, files, file), one),
    ensures
        (r->Ok_0).0@.len() == list@.len() && (r->Ok_0).1@.len() == list@.len(),
        one is Ok && (r->Ok_0).0@[i]@ == one->Ok_0@,
        vstd::utf8::encode_utf8((r->Ok_0).1@[i]@) == one->Ok_0@,
{
    let p = (r->Ok_0).0@[i];
}

/// A descriptor is read and written only where it was opened for that, by the
/// handle of its file; closing gives that handle back and forgets it.
pub proof fn law_descriptors_are_used_as_opened(
    files: &mut FdTable<SmbOpen>,
    fd: i32,
    read: VfResult<SmbFileId>,
    write: VfResult<(SmbFileId, bool)>,
    file: &VfFile,
    index: usize,
    closed: VfResult<SmbFileId>,
    other: i32,
)
    requires
        file@ == FileModel::Descriptor(fd),
        old(files)@.contains_key(other),
        call_ensures(read_handle, (&*old(files), fd), read),
        call_ensures(write_handle, (&*old(files), fd), write),
        call_ensures(smb_take_open, (files, file, index), closed),
    ensures
        read is Ok <==> old(files)@.contains_key(fd) && old(files)@[fd].readable,
        write is Ok <==> old(files)@.contains_key(fd) && old(files)@[fd].writable,
        read is Ok ==> read->Ok_0 == old(files)@[fd].file_id,
        write is Ok ==> write->Ok_0 == (old(files)@[fd].file_id, old(files)@[fd].append),
        read is Err ==> read->Err_0 == (VfError::Op { index: 0, err_no: 9 }),
        write is Err ==> write->Err_0 == (VfError::Op { index: 0, err_no: 9 }),
        closed is Ok <==> old(files)@.contains_key(fd),
        closed is Ok ==> closed->Ok_0 == old(files)@[fd].file_id,
        closed is Err ==> closed->Err_0 == (VfError::Op { index, err_no: 9 }),
        !final(files)@.contains_key(fd),
        other != fd ==> final(files)@.contains_key(other) && final(files)@[other] == old(
            files)@[other],
{
}

/// A transfer moves its own descriptor to where it ended, and no other.
pub proof fn law_a_share_transfer_moves_its_descriptor(
    files: &mut FdTable<SmbOpen>,
    fd: i32,
    offset: u64,
    count: usize,
    other: i32,
)
    requires
        old(files).wf(),
        old(files)@.contains_key(fd) && old(files)@.contains_key(other),
        call_ensures(smb_advance, (files, fd, offset, count), ()),
    ensures
        offset + count <= u64::MAX ==> final(files)@[fd].cur_offset == offset + count,
        offset + count > u64::MAX ==> final(files)@[fd].cur_offset == u64::MAX,
        final(files)@[fd].file_id == old(files)@[fd].file_id,
        other != fd ==> final(files)@[other] == old(files)@[other],
{
}

// ---------------------------------------------------------------------------
// Batches
// ---------------------------------------------------------------------------

/// Transfers run together only where there are several, none of them through a
/// descriptor, each at a fixed offset and small enough for one request.
pub proof fn law_only_small_transfers_run_together(
    reads: &[ReadOp],
    writes: &[WriteOp],
    limit: usize,
    r: bool,
    w: bool,
    i: int,
)
    requires
        call_ensures(reads_run_together, (reads, Some(limit)), r),
        call_ensures(writes_run_together, (writes, Some(limit)), w),
    ensures
        r ==> reads@.len() > 1,
        w ==> writes@.len() > 1,
        r && 0 <= i < reads@.len() ==> !(reads@[i].file@ is Descriptor) && reads@[i].offset is At && 0
            < reads@[i].length <= limit,
        w && 0 <= i < writes@.len() ==> !(writes@[i].file@ is Descriptor) && writes@[i].offset is At
            && 0 < writes@[i].data@.len() <= limit,
        reads@.len() > 1 && !r ==> exists|j: int|
            #![trigger reads@[j]]
            0 <= j < reads@.len() && (reads@[j].file@ is Descriptor || reads@[j].file@ is Saved
                || !(reads@[j].offset is At) || reads@[j].length == 0 || reads@[j].length > limit
                || reads@[j].length > u32::MAX),
{
    if reads@.len() > 1 && !r {
        let j = choose|j: int|
            0 <= j < reads@.len() && !read_stands_alone(#[trigger] reads@[j], limit);
        assert(!read_stands_alone(reads@[j], limit));
    }
}

/// The results of a batch are those of its elements, in order, or the first
/// failure under its own index.
pub proof fn law_batches_keep_their_order<T>(results: Vec<VfResult<T>>, r: VfResult<Vec<T>>, i: int)
    requires
        call_ensures(all_in_order::<T>, (results,), r),
        0 <= i < results@.len() <= usize::MAX,
    ensures
        r is Ok ==> results@[i] is Ok && r->Ok_0@.len() == results@.len() && r->Ok_0@[i]
            == results@[i]->Ok_0,
        r is Err && results@[i] is Err ==> r->Err_0.index_of() <= i,
        r is Err && results@[i] is Err && r->Err_0.index_of() == i ==> r->Err_0
            == results@[i]->Err_0.reindexed(i as usize),
        results@[i] is Err ==> r is Err,
{
    if r is Ok {
        assert(results@[i] == Ok::<T, VfError>(r->Ok_0@[i]));
    } else {
        let e = r->Err_0;
        let k = choose|k: int|
            #![trigger results@[k]]
            0 <= k < results@.len() && results@[k] is Err && e == results@[k]->Err_0.reindexed(
                k as usize,
            ) && forall|i: int| 0 <= i < k ==> (#[trigger] results@[i]) is Ok;
        assert(results@[k] is Err);
    }
}

/// Each result says what its own element read or wrote, and where; a read that
/// got less than it asked for is at the end of the file.
pub proof fn law_results_belong_to_their_elements(
    reads: &[ReadOp],
    offsets: Vec<u64>,
    data: Vec<Vec<u8>>,
    r: Vec<ReadResult>,
    writes: &[WriteOp],
    at: Vec<u64>,
    written: Vec<usize>,
    w: Vec<WriteResult>,
    i: int,
)
    requires
        offsets@.len() == reads@.len() && data@.len() == reads@.len(),
        at@.len() == writes@.len() && written@.len() == writes@.len(),
        call_ensures(path_read_results, (reads, &offsets, data), r),
        call_ensures(path_write_results, (writes, &at, &written), w),
    ensures
        r@.len() == reads@.len() && w@.len() == writes@.len(),
        0 <= i < reads@.len() ==> r@[i].file@ == reads@[i].file@ && r@[i].offset == offsets@[i]
            && r@[i].data@ == data@[i]@ && (r@[i].eof <==> data@[i]@.len() < reads@[i].length),
        0 <= i < writes@.len() ==> w@[i].file@ == writes@[i].file@ && w@[i].offset == at@[i]
            && w@[i].written == written@[i] && w@[i].stable,
{
    if 0 <= i < reads@.len() {
        assert(read_out(r@[i]).data == r@[i].data@);
    }
}

/// A transfer of nothing sends nothing, one that one request holds is a single
/// compound, and any other goes in chunks; a chunk is never empty.
pub proof fn law_transfers_take_the_form_that_fits(
    length: usize,
    limit: usize,
    form: TransferForm,
    chunk: usize,
)
    requires
        call_ensures(transfer_form, (length, Some(limit)), form),
        call_ensures(transfer_limit, (Some(limit),), chunk),
    ensures
        form is Nothing <==> length == 0,
        form is Compound <==> 0 < length <= limit && length <= u32::MAX,
        chunk >= 1,
        limit >= 1 ==> chunk == limit,
{
}

/// Without a failure the result stands where the file could be closed too; a
/// failure comes before that of the close.
pub proof fn law_failures_come_before_the_close<T>(result: VfResult<T>, close: VfRes, r: VfResult<T>)
    requires
        call_ensures(then_close::<T>, (result, close), r),
    ensures
        result is Err ==> r == result,
        result is Ok && close is Ok ==> r == result,
        result is Ok && close is Err ==> r is Err && r->Err_0 == close->Err_0,
{
}

/// A reply counts only where its status is zero; the size stands eight bytes
/// into what it tells.
pub proof fn law_replies_count_where_they_succeeded(
    frame: SmbFrame,
    open: VfResult<(SmbFileId, u64)>,
    size: VfResult<u64>,
    told: Seq<u8>,
    offset: int,
)
    requires
        call_ensures(open_reply, (&frame,), open),
        call_ensures(query_size_reply, (&frame,), size),
    ensures
        frame.status != 0 ==> open is Err && size is Err,
        frame.status == 0 && create_reply(frame.body@) is Some ==> open is Ok && open->Ok_0
            == create_reply(frame.body@)->0,
        frame.status == 0 && create_reply(frame.body@) is None ==> open is Err,
        frame.status == 0 && told.len() >= 16 && 72 <= offset && told.len() <= 16777216
            && frame.body@.len() >= offset - 64 + told.len() && little(frame.body@.subrange(0, 2)) == 9
            && little(frame.body@.subrange(2, 4)) == offset && little(frame.body@.subrange(4, 8))
            == told.len() && frame.body@.subrange(offset - 64, offset - 64 + told.len()) == told
            ==> size == Ok::<u64, VfError>(little(told.subrange(8, 16)) as u64),
{
    let b = frame.body@;
    if b.len() >= 8 {
        lemma_little_two(b, 0);
        lemma_little_two(b, 2);
        lemma_little_four(b, 4);
    }
    if told.len() >= 16 {
        lemma_little_eight(told, 8);
    }
}

// ---------------------------------------------------------------------------
// What a share cannot do
// ---------------------------------------------------------------------------

/// What a share has no notion of is refused, unless nothing is asked for.
pub proof fn law_a_share_refuses_what_it_cannot_do(
    n: usize,
    r: VfRes,
    targets: usize,
    links: usize,
    l: VfRes,
    is_directory: bool,
    removal: SmbRemoval,
    e: VfError,
    half: VfError,
)
    requires
        call_ensures(unsupported_unless_empty, (n,), r),
        call_ensures(unsupported_links, (targets, links), l),
        call_ensures(smb_removal, (is_directory,), removal),
        call_ensures(pair_error, (e,), half),
    ensures
        r is Ok <==> n == 0,
        r is Err ==> r->Err_0 == (VfError::Op { index: 0, err_no: 0xffff_fffe }),
        l is Ok <==> targets == 0 && links == 0,
        targets != links ==> l == Err::<(), VfError>(VfError::Op { index: 0, err_no: 22 }),
        removal is Directory <==> is_directory,
        half.index_of() * 2 <= e.index_of() <= half.index_of() * 2 + 1,
        half.code() == e.code(),
{
}

/// A file that cannot be read in one piece is read in many where it is too
/// large, and may turn out to be a directory where that is not supported.
pub proof fn law_whole_reads_find_their_way(
    kind: SmbErrorKind,
    step: WholeStep,
    failure: SmbFailure,
    is_directory: bool,
    e: VfError,
)
    requires
        call_ensures(read_whole_step, (kind,), step),
        call_ensures(read_whole_error, (failure, is_directory), e),
    ensures
        step is Pipelined <==> kind is TooLarge,
        step is AskType <==> kind is Unsupported,
        is_directory ==> e == (VfError::Op { index: 0, err_no: 21 }),
        !is_directory && failure.kind is NotFound ==> e == (VfError::Op { index: 0, err_no: 2 }),
{
}

/// A copy on the server is given up for good only where the server cannot do
/// it; a round counts what it copied, and one that copied nothing is the last.
pub proof fn law_share_copies_count_what_they_copied(
    c: &mut SmbCopy,
    n: usize,
    more: bool,
    p: ExtentPair,
    copied: u64,
    size: u64,
    enabled: &mut bool,
    failure: SmbFailure,
    index: usize,
    r: SmbCopyFailure,
)
    requires
        old(c).copied + n <= u64::MAX,
        call_ensures(SmbCopy::copied_more, (c, n), more),
        call_ensures(copied_size, (&p, copied), size),
        call_ensures(smb_copy_failed, (enabled, failure, index), r),
    ensures
        final(c).copied == old(c).copied + n && final(c).length == old(c).length,
        final(c).src_offset == old(c).src_offset && final(c).dst_offset == old(c).dst_offset,
        more <==> n > 0,
        p.dst_offset + copied <= u64::MAX ==> size == p.dst_offset + copied,
        r is Fallback <==> failure.kind is Unsupported,
        r is Fallback ==> !*final(enabled),
        r is Fail ==> *final(enabled) == *old(enabled),
{
}

/// A failure of the share is told under its element: by its code, or, where it
/// has none, as one of the transport, with its message.
pub proof fn law_share_failures_are_told_under_their_element(
    error: SmbFailure,
    index: usize,
    r: VfError,
)
    requires
        call_ensures(smb_error, (error, index), r),
    ensures
        r.index_of() == index,
        error.kind is NotFound ==> r.code() == 2 && r is Op,
        error.kind is AccessDenied ==> r.code() == 13 && r is Op,
        error.kind is AlreadyExists ==> r.code() == 17 && r is Op,
        error.kind is IsADirectory ==> r.code() == 21 && r is Op,
        error.kind is TooLarge || error.kind is Broken ==> r is Transport && r->message@
            == error.message@,
{
}

} // verus!
