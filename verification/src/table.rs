//! Open files by descriptor.

use std::collections::HashMap;

use vstd::prelude::*;

use crate::proto::EOVERFLOW;
use crate::vecfs::{VfError, VfResult};

verus! {

broadcast use vstd::std_specs::hash::group_hash_axioms;

/// Client-assigned descriptors and what each of them stands for.
pub struct FdTable<T> {
    pub next_fd: i32,
    pub files: HashMap<i32, T>,
}

impl<T> View for FdTable<T> {
    type V = Map<i32, T>;

    closed spec fn view(&self) -> Map<i32, T> {
        self.files@
    }
}

impl<T> FdTable<T> {
    /// No descriptor above the last one handed out is in use.
    pub closed spec fn wf(&self) -> bool {
        &&& self.next_fd >= 0
        &&& forall|fd: i32| #[trigger] self.files@.contains_key(fd) ==> 1 <= fd <= self.next_fd
    }

    /// The last descriptor handed out; zero at first.
    pub closed spec fn last_fd(&self) -> i32 {
        self.next_fd
    }

    /// Whether a descriptor was handed out by this table.
    pub closed spec fn issued(&self, fd: i32) -> bool {
        1 <= fd <= self.next_fd
    }

    pub fn new() -> (t: FdTable<T>)
        ensures
            t.wf(),
            t@ == Map::<i32, T>::empty(),
            t.last_fd() == 0,
    {
        FdTable { next_fd: 0, files: HashMap::new() }
    }

    /// Gives an open file the next descriptor. Descriptors are never reused;
    /// when they run out, the call fails with `EOVERFLOW`.
    pub fn insert_fd(&mut self, open: T) -> (r: VfResult<i32>)
        requires
            old(self).wf(),
        ensures
            final(self).wf(),
            old(self).last_fd() < i32::MAX ==> {
                &&& r == Ok::<i32, VfError>((old(self).last_fd() + 1) as i32)
                &&& !old(self)@.contains_key(r->Ok_0)
                &&& final(self)@ == old(self)@.insert(r->Ok_0, open)
                &&& final(self).last_fd() == old(self).last_fd() + 1
            },
            old(self).last_fd() == i32::MAX ==> {
                &&& r == Err::<i32, VfError>(VfError::Op { index: 0, err_no: EOVERFLOW })
                &&& final(self)@ == old(self)@
                &&& final(self).last_fd() == old(self).last_fd()
            },
    {
        if self.next_fd == i32::MAX {
            return Err(VfError::failure(0, EOVERFLOW));
        }
        self.next_fd = self.next_fd + 1;
        let fd: i32 = self.next_fd;
        self.files.insert(fd, open);
        Ok(fd)
    }

    pub fn get(&self, fd: i32) -> (r: Option<&T>)
        ensures
            match r {
                Some(v) => self@.contains_key(fd) && self@[fd] == *v,
                None => !self@.contains_key(fd),
            },
    {
        self.files.get(&fd)
    }

    /// Forgets a descriptor.
    pub fn remove(&mut self, fd: i32) -> (r: Option<T>)
        ensures
            old(self).wf() ==> final(self).wf(),
            final(self)@ == old(self)@.remove(fd),
            final(self).last_fd() == old(self).last_fd(),
            match r {
                Some(v) => old(self)@.contains_key(fd) && old(self)@[fd] == v && (old(self).wf()
                    ==> final(self).issued(fd)),
                None => !old(self)@.contains_key(fd),
            },
    {
        self.files.remove(&fd)
    }

    /// Puts something back under a descriptor that was handed out before.
    pub fn restore(&mut self, fd: i32, open: T)
        requires
            old(self).wf(),
            old(self).issued(fd),
        ensures
            final(self).wf(),
            final(self)@ == old(self)@.insert(fd, open),
            final(self).last_fd() == old(self).last_fd(),
    {
        self.files.insert(fd, open);
    }
}

} // verus!
