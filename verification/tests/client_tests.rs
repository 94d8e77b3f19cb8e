use vnfs::client::{
    checked_offset, chunk_lens, common_prefix_len, effective_request_limit,
    response_payload_budget, CfhCursor, CompoundBudget, FileHandle,
};
use vnfs::compound::{Compound, Op};

#[test]
fn negotiated_op_budgets_include_sequence() {
    assert_eq!(CompoundBudget::new(4).batch_capacity(3).unwrap(), 1);
    assert!(CompoundBudget::new(4).batch_capacity(4).is_err());
    assert_eq!(CompoundBudget::new(8).batch_capacity(4).unwrap(), 1);
    assert_eq!(CompoundBudget::new(32).batch_capacity(4).unwrap(), 7);
}

#[test]
fn merged_budgets_never_exceed_server_limit() {
    for max_ops in [4, 8, 32] {
        let budget = CompoundBudget::new(max_ops);
        let limit = budget.merged_limit(16, 3);
        assert!(limit <= max_ops);
        if max_ops >= 4 {
            assert!(limit >= 4);
        }
    }
    assert_eq!(CompoundBudget::new(4).merged_limit(16, 4), 0);
    assert_eq!(CompoundBudget::new(4).merged_limit(16, usize::MAX), 0);
}

#[test]
fn negotiated_byte_limits_have_no_sixty_four_kib_floor() {
    let below_floor = 32 * 1024;
    assert_eq!(effective_request_limit(below_floor, None), below_floor);
    assert_eq!(
        effective_request_limit(below_floor, Some(4 * 1024 * 1024)),
        below_floor
    );
    assert_eq!(response_payload_budget(below_floor), 24 * 1024);
}

#[test]
fn zero_configuration_cannot_bypass_negotiated_limit() {
    let negotiated = 48 * 1024;
    assert_eq!(effective_request_limit(negotiated, None), negotiated);
    assert_eq!(
        effective_request_limit(negotiated, Some(96 * 1024)),
        negotiated
    );
    assert_eq!(
        effective_request_limit(negotiated, Some(16 * 1024)),
        16 * 1024
    );
}

#[test]
fn an_oversized_compound_is_refused() {
    let mut c = Compound::new();
    for _ in 0..4 {
        c.getfh();
    }
    assert!(CompoundBudget::new(5).ensure(&c).is_ok());
    let e = CompoundBudget::new(4).ensure(&c).unwrap_err();
    assert_eq!(e.status, vnfs::proto::NFS4ERR_TOO_MANY_OPS);
}

#[test]
fn offsets_do_not_wrap() {
    assert_eq!(checked_offset(10, 5, 3).unwrap(), 15);
    let e = checked_offset(u64::MAX, 1, 3).unwrap_err();
    assert_eq!(e.op_index, 3);
}

#[test]
fn chunks_cover_their_range() {
    assert_eq!(chunk_lens(0, 10, 4), vec![4, 4, 2]);
    assert_eq!(chunk_lens(3, 11, 4), vec![4, 4]);
    assert!(chunk_lens(5, 5, 4).is_empty());
}

#[test]
fn cursor_walks_the_cheaper_way() {
    let mut cursor = CfhCursor::new();
    let mut c = Compound::new();
    let (name, _) = cursor.set_parent(&mut c, b"a/b/c/x").unwrap();
    assert_eq!(name, b"x");
    let first = c.ops.len();
    // The next file is in the same directory: no walk from the root.
    cursor.set_parent(&mut c, b"a/b/c/y").unwrap();
    assert!(c.ops.len() - first < first);
    assert!(matches!(c.ops[0], Op::Putrootfh));
    assert!(cursor.set_parent(&mut c, b"").is_none());
}

#[test]
fn common_prefixes_are_counted_by_name() {
    let a = vec![b"a".to_vec(), b"bc".to_vec(), b"d".to_vec()];
    let b = vec![b"a".to_vec(), b"b".to_vec()];
    assert_eq!(common_prefix_len(&a, &b), 1);
    assert_eq!(common_prefix_len(&a, &a), 3);
}

#[test]
fn file_handles_keep_their_bytes() {
    let fh = FileHandle::from_nfs_fh(b"\x00\xffhandle");
    assert_eq!(fh.as_nfs_fh(), b"\x00\xffhandle");
    assert_eq!(fh.copy().as_nfs_fh(), b"\x00\xffhandle");
    assert_eq!(fh.len(), 8);
    assert!(!fh.is_empty());
}
