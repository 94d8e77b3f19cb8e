//! Structured errors for the low-level NFSv4.1 client.

use vstd::prelude::*;
use vstd::string::*;

use crate::text::{append_decimal, decimal};

verus! {

/// NFS4 status used for transport-level failures (there is no NFS status).
pub const STATUS_TRANSPORT: u32 = 0xFFFF_FFFF;

/// An error from the low-level client: either an NFS4ERR_* status reported by
/// the server for a compound operation, or a transport/RPC-level failure.
///
/// Callers can inspect the `status` field directly instead of parsing error
/// strings.
#[derive(Debug, Clone, PartialEq, Eq)]
pub struct RpcError {
    /// Index of the failing operation within the compound.
    pub op_index: usize,
    /// The failing op's NFS4ERR_* status, or [`STATUS_TRANSPORT`].
    pub status: u32,
    /// Human-readable context.
    pub message: String,
}

/// The text of an error.
pub open spec fn rpc_error_text(e: RpcError) -> Seq<char> {
    if e.status == STATUS_TRANSPORT {
        "transport error: "@ + e.message@
    } else {
        "op "@ + decimal(e.op_index as nat) + " failed: status "@ + decimal(e.status as nat)
    }
}

impl RpcError {
    /// Whether this reports an NFS status of the operation at `op_index`, with
    /// nothing more to say.
    pub open spec fn is_op_failure(&self, op_index: int, status: u32) -> bool {
        &&& self.op_index == op_index
        &&& self.status == status
        &&& self.message@ == Seq::<char>::empty()
    }

    /// An NFS status from a specific compound operation.
    pub fn op(op_index: usize, status: u32) -> (e: RpcError)
        ensures
            e.is_op_failure(op_index as int, status),
    {
        let message = String::new();
        RpcError { op_index, status, message }
    }

    /// A transport / RPC-level failure (no NFS status available).
    pub fn transport(message: &str) -> (e: RpcError)
        ensures
            e.op_index == 0,
            e.status == STATUS_TRANSPORT,
            e.message@ == message@,
    {
        RpcError { op_index: 0, status: STATUS_TRANSPORT, message: message.to_owned() }
    }

    /// Whether this is a transport failure rather than an NFS status.
    pub fn is_transport(&self) -> (b: bool)
        ensures
            b == (self.status == STATUS_TRANSPORT),
    {
        self.status == STATUS_TRANSPORT
    }

    /// The human-readable form.
    pub fn describe(&self) -> (s: String)
        ensures
            s@ == rpc_error_text(*self),
    {
        if self.is_transport() {
            let mut s = "transport error: ".to_owned();
            s.append(self.message.as_str());
            return s;
        }
        let mut s = "op ".to_owned();
        append_decimal(&mut s, self.op_index as u64);
        s.append(" failed: status ");
        append_decimal(&mut s, self.status as u64);
        s
    }

    /// Re-attribute this error to a different operation index.
    pub fn with_op_index(self, op_index: usize) -> (e: RpcError)
        ensures
            e == (RpcError { op_index, status: self.status, message: self.message }),
    {
        RpcError { op_index, status: self.status, message: self.message }
    }
}

/// Convenience alias used throughout the low-level client.
pub type RpcResult<T> = Result<T, RpcError>;

} // verus!
