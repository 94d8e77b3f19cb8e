//! The state of an NFS client that exposes the vectorized API.

use vstd::prelude::*;

use crate::client::request_limit;
use crate::copyplan::{NfsServerCopyStats, ServerCopier};
use crate::descio::OpenFile;
use crate::mergedio::{mode_named, MergedIoMode};
use crate::nfsclient::NfsClient;
use crate::table::FdTable;
use crate::vecfs::{abs_path, resolved_path};

verus! {

/// What a backend can do beyond the common operations.
#[derive(Debug, Clone, Copy, PartialEq, Eq, Structural)]
pub struct Capabilities {
    /// Symlinks, hard links, POSIX metadata and paths of arbitrary bytes.
    pub unix_semantics: bool,
    /// Data can be copied on the server.
    pub server_copy: bool,
}

/// An NFSv4 client exposing the vectorized API: the protocol client, the working
/// directory, the open files by client-assigned descriptor, and which forms of
/// requests the server takes.
pub struct NfsVecFs {
    pub nfs: NfsClient,
    /// Root-relative, without a leading slash.
    pub cwd: Vec<u8>,
    pub open_files: FdTable<OpenFile>,
    pub copier: ServerCopier,
    pub merged_mode: MergedIoMode,
}

impl NfsVecFs {
    /// A client at the export root with no open files. `server_copy` is whether
    /// server-side copies are wanted at all.
    pub fn from_client(nfs: NfsClient, server_copy: bool) -> (r: NfsVecFs)
        ensures
            r.nfs == nfs,
            r.cwd@ == Seq::<u8>::empty(),
            r.open_files.wf(),
            r.open_files@ == Map::<i32, OpenFile>::empty(),
            r.open_files.last_fd() == 0,
            r.copier.enabled == (server_copy && nfs.session.minorversion >= 2),
            r.copier.stats == (NfsServerCopyStats { requests: 0, operations: 0, fallbacks: 0 }),
            r.merged_mode == MergedIoMode::Full,
    {
        let minorversion: u32 = nfs.minorversion();
        let cwd: Vec<u8> = Vec::new();
        assert(cwd@ =~= Seq::<u8>::empty());
        NfsVecFs {
            nfs,
            cwd,
            open_files: FdTable::new(),
            copier: ServerCopier::new(server_copy, minorversion),
            merged_mode: MergedIoMode::Full,
        }
    }

    /// Force a particular merged-compound mode (diagnostics/tests): "full"
    /// (default, one compound incl. CLOSE), "openwrite" (open+I/O compound +
    /// separate close), or "off" (everything in phases).
    pub fn set_merged_mode(&mut self, mode: &str)
        ensures
            *final(self) == (NfsVecFs { merged_mode: mode_named(mode@), ..*old(self) }),
    {
        self.merged_mode = MergedIoMode::from_name(mode);
    }

    /// Set the per-compound payload cap for merged path I/O (bytes; 0 =
    /// unlimited).
    pub fn set_max_compound_bytes(&mut self, bytes: usize)
        ensures
            final(self).cwd == old(self).cwd,
            final(self).open_files == old(self).open_files,
            final(self).copier == old(self).copier,
            final(self).merged_mode == old(self).merged_mode,
            ({
                let configured = if bytes != 0 {
                    Some(bytes)
                } else {
                    None
                };
                final(self).nfs == (NfsClient {
                    configured_max_request_bytes: configured,
                    max_compound_bytes: request_limit(
                        old(self).nfs.server_max_request_bytes,
                        configured,
                    ),
                    ..old(self).nfs
                })
            }),
    {
        self.nfs.set_max_compound_bytes(bytes);
    }

    /// Negotiated NFS minor version for this connection.
    pub fn minorversion(&self) -> (r: u32)
        ensures
            r == self.nfs.session.minorversion,
    {
        self.nfs.minorversion()
    }

    /// Whether this connection will currently attempt NFSv4.2 server COPY. The
    /// value becomes false if the server rejects COPY at runtime.
    pub fn server_copy_enabled(&self) -> (r: bool)
        ensures
            r == self.copier.enabled,
    {
        self.copier.server_copy_enabled()
    }

    /// Return server-side COPY activity for this connection.
    pub fn server_copy_stats(&self) -> (r: NfsServerCopyStats)
        ensures
            r == self.copier.stats,
    {
        self.copier.server_copy_stats()
    }

    /// What this backend can do now.
    pub fn capabilities(&self) -> (r: Capabilities)
        ensures
            r == (Capabilities { unix_semantics: true, server_copy: self.copier.enabled }),
    {
        Capabilities { unix_semantics: true, server_copy: self.server_copy_enabled() }
    }

    /// Resolve a path against the working directory: normalized, root-relative.
    pub fn abs_path(&self, path: &[u8]) -> (r: Vec<u8>)
        ensures
            r@ == resolved_path(self.cwd@, path@),
    {
        abs_path(self.cwd.as_slice(), path)
    }
}

} // verus!
