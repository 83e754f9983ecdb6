//! An in-memory storage backend: "read bytes at path", "write bytes at
//! path", "list entries under a prefix".
//!
//! This is the archive-backed flavour of the backend family; a disk-backed
//! flavour lives outside the verified core and hands the same plain values
//! (paths and byte vectors) across the boundary.

use vstd::prelude::*;
use vstd::string::StrSliceExecFns;

use crate::errors::IoError;

verus! {

/// `p` is a leading run of `s`.
pub open spec fn is_prefix(p: Seq<char>, s: Seq<char>) -> bool {
    p.len() <= s.len() && (forall|j: int| 0 <= j < p.len() ==> s[j] == p[j])
}

/// Whether `s` starts with `prefix`, character by character.
pub fn str_starts_with(s: &String, prefix: &String) -> (r: bool)
    ensures
        r == is_prefix(prefix@, s@),
{
    let n = prefix.as_str().unicode_len();
    let m = s.as_str().unicode_len();
    if n > m {
        return false;
    }
    let mut i: usize = 0;
    while i < n
        invariant
            0 <= i <= n,
            n == prefix@.len(),
            m == s@.len(),
            n <= m,
            forall|j: int| 0 <= j < i ==> s@[j] == prefix@[j],
        decreases n - i,
    {
        if s.as_str().get_char(i) != prefix.as_str().get_char(i) {
            return false;
        }
        i += 1;
    }
    true
}

/// A flat store of path-addressed byte payloads, optionally read-only.
#[derive(Debug)]
pub struct MemoryStorage {
    /// The stored entries, in insertion order, with pairwise distinct paths.
    pub files: Vec<(String, Vec<u8>)>,
    /// When set, every write is refused with `PermissionDenied`.
    pub readonly: bool,
}

/// The paths under `prefix` among `files`, in stored order.
pub open spec fn list_model(files: Seq<(String, Vec<u8>)>, prefix: Seq<char>) -> Seq<Seq<char>>
    decreases files.len(),
{
    if files.len() == 0 {
        Seq::empty()
    } else {
        let rest = list_model(files.drop_last(), prefix);
        if is_prefix(prefix, files.last().0@) {
            rest.push(files.last().0@)
        } else {
            rest
        }
    }
}

impl MemoryStorage {
    /// Paths are pairwise distinct.
    pub open spec fn wf(self) -> bool {
        forall|i: int, j: int|
            0 <= i < j < self.files@.len() ==> self.files@[i].0@ != self.files@[j].0@
    }

    /// Some entry is stored under path `p`.
    pub open spec fn contains_path(self, p: Seq<char>) -> bool {
        exists|i: int| 0 <= i < self.files@.len() && self.files@[i].0@ == p
    }

    /// The bytes stored under path `p` (meaningful when `contains_path`).
    pub open spec fn data_of(self, p: Seq<char>) -> Seq<u8> {
        let i = choose|i: int| 0 <= i < self.files@.len() && self.files@[i].0@ == p;
        self.files@[i].1@
    }

    /// An empty, writable store.
    pub fn new() -> (r: MemoryStorage)
        ensures
            r.wf(),
            r.files@.len() == 0,
            !r.readonly,
    {
        MemoryStorage { files: Vec::new(), readonly: false }
    }

    /// Turns refusal of writes on or off; the stored entries are untouched.
    pub fn set_readonly(&mut self, readonly: bool)
        ensures
            final(self).files == old(self).files,
            final(self).readonly == readonly,
    {
        self.readonly = readonly;
    }

    /// The index of the entry stored under `path`, if any.
    fn find(&self, path: &String) -> (r: Option<usize>)
        requires
            self.wf(),
        ensures
            match r {
                Some(i) => i < self.files@.len() && self.files@[i as int].0@ == path@,
                None => !self.contains_path(path@),
            },
    {
        let mut i: usize = 0;
        let n = self.files.len();
        while i < n
            invariant
                0 <= i <= n,
                n == self.files@.len(),
                forall|j: int| 0 <= j < i ==> self.files@[j].0@ != path@,
            decreases n - i,
        {
            if self.files[i].0 == *path {
                return Some(i);
            }
            i += 1;
        }
        None
    }

    /// Fetches a copy of the bytes at `path`; fails with `NotFound` exactly
    /// when no entry is stored there.
    pub fn read_bytes(&self, path: &String) -> (r: Result<Vec<u8>, IoError>)
        requires
            self.wf(),
        ensures
            self.contains_path(path@) ==> (r matches Ok(d) && d@ == self.data_of(path@)),
            !self.contains_path(path@) ==> (r matches Err(e) && e == IoError::NotFound),
    {
        match self.find(path) {
            Some(i) => {
                let d = self.files[i].1.clone();
                proof {
                    let w = choose|w: int|
                        0 <= w < self.files@.len() && self.files@[w].0@ == path@;
                    assert(w == i as int);
                }
                Ok(d)
            },
            None => Err(IoError::NotFound),
        }
    }

    /// Stores `data` under `path`, replacing any previous payload; fails with
    /// `PermissionDenied` exactly when the store is read-only, leaving it
    /// untouched.  Every other path keeps its payload.
    pub fn write_bytes(&mut self, path: &String, data: Vec<u8>) -> (r: Result<(), IoError>)
        requires
            old(self).wf(),
        ensures
            final(self).wf(),
            final(self).readonly == old(self).readonly,
            old(self).readonly ==> (r matches Err(e) && e == IoError::PermissionDenied
                && *final(self) == *old(self)),
            !old(self).readonly ==> (r matches Ok(u) && final(self).contains_path(path@)
                && final(self).data_of(path@) == data@),
            !old(self).readonly ==> forall|q: Seq<char>|
                q != path@ ==> (#[trigger] final(self).contains_path(q)
                    == old(self).contains_path(q) && (old(self).contains_path(q)
                    ==> final(self).data_of(q) == old(self).data_of(q))),
    {
        if self.readonly {
            return Err(IoError::PermissionDenied);
        }
        match self.find(path) {
            Some(i) => {
                let entry = &mut self.files[i];
                entry.1 = data;
                proof {
                    lemma_replace_keeps_others(*old(self), *self, i as int, path@);
                    let w = choose|w: int|
                        0 <= w < self.files@.len() && self.files@[w].0@ == path@;
                    assert(self.files@[i as int].0@ == path@);
                    assert(w == i as int);
                }
                Ok(())
            },
            None => {
                self.files.push((path.clone(), data));
                proof {
                    lemma_push_keeps_others(*old(self), *self, path@);
                    let n = old(self).files@.len() as int;
                    assert(self.files@[n].0@ == path@);
                    let w = choose|w: int|
                        0 <= w < self.files@.len() && self.files@[w].0@ == path@;
                    assert(w == n);
                }
                Ok(())
            },
        }
    }

    /// The stored paths that start with `prefix`, as owned strings, in
    /// stored order.
    pub fn list(&self, prefix: &String) -> (r: Vec<String>)
        ensures
            r.deep_view() == list_model(self.files@, prefix@),
    {
        let mut out: Vec<String> = Vec::new();
        let mut i: usize = 0;
        let n = self.files.len();
        while i < n
            invariant
                0 <= i <= n,
                n == self.files@.len(),
                out.deep_view() == list_model(self.files@.subrange(0, i as int), prefix@),
            decreases n - i,
        {
            proof {
                assert(self.files@.subrange(0, i + 1).drop_last() =~= self.files@.subrange(
                    0,
                    i as int,
                ));
            }
            if str_starts_with(&self.files[i].0, prefix) {
                out.push(self.files[i].0.clone());
                proof {
                    assert(out.deep_view() =~= list_model(
                        self.files@.subrange(0, i + 1),
                        prefix@,
                    ));
                }
            }
            i += 1;
        }
        proof {
            assert(self.files@.subrange(0, n as int) =~= self.files@);
        }
        out
    }
}

/// Overwriting the payload at index `i` disturbs no other path.
proof fn lemma_replace_keeps_others(pre: MemoryStorage, post: MemoryStorage, i: int, p: Seq<char>)
    requires
        pre.wf(),
        0 <= i < pre.files@.len(),
        post.files@.len() == pre.files@.len(),
        pre.files@[i].0@ == p,
        post.files@[i].0@ == p,
        forall|j: int| 0 <= j < pre.files@.len() && j != i ==> post.files@[j] == pre.files@[j],
    ensures
        post.wf(),
        forall|q: Seq<char>|
            q != p ==> #[trigger] post.contains_path(q) == pre.contains_path(q),
        forall|q: Seq<char>|
            q != p && pre.contains_path(q) ==> #[trigger] post.data_of(q) == pre.data_of(q),
{
    assert forall|q: Seq<char>| q != p implies #[trigger] post.contains_path(q)
        == pre.contains_path(q) by {
        if post.contains_path(q) {
            let a = choose|a: int|
                0 <= a < post.files@.len() && post.files@[a].0@ == q;
            assert(pre.files@[a].0@ == q);
        }
        if pre.contains_path(q) {
            let a = choose|a: int| 0 <= a < pre.files@.len() && pre.files@[a].0@ == q;
            assert(post.files@[a].0@ == q);
        }
    }
    assert forall|q: Seq<char>| q != p && pre.contains_path(q) implies #[trigger] post.data_of(q)
        == pre.data_of(q) by {
        let a = choose|a: int| 0 <= a < post.files@.len() && post.files@[a].0@ == q;
        let b = choose|b: int| 0 <= b < pre.files@.len() && pre.files@[b].0@ == q;
        assert(post.files@[b].0@ == q);
        assert(pre.files@[a].0@ == q);
        assert(a == b);
    }
}

/// Appending a fresh path disturbs no other path.
proof fn lemma_push_keeps_others(pre: MemoryStorage, post: MemoryStorage, p: Seq<char>)
    requires
        pre.wf(),
        post.files@.len() == pre.files@.len() + 1,
        post.files@[pre.files@.len() as int].0@ == p,
        forall|j: int| 0 <= j < pre.files@.len() ==> post.files@[j] == pre.files@[j],
        !pre.contains_path(p),
    ensures
        post.wf(),
        forall|q: Seq<char>|
            q != p ==> #[trigger] post.contains_path(q) == pre.contains_path(q),
        forall|q: Seq<char>|
            q != p && pre.contains_path(q) ==> #[trigger] post.data_of(q) == pre.data_of(q),
{
    assert forall|a: int, b: int|
        0 <= a < b < post.files@.len() implies post.files@[a].0@ != post.files@[b].0@ by {
        if b < pre.files@.len() {
        } else {
            assert(post.files@[a].0@ == pre.files@[a].0@);
        }
    }
    assert forall|q: Seq<char>| q != p implies #[trigger] post.contains_path(q)
        == pre.contains_path(q) by {
        if post.contains_path(q) {
            let a = choose|a: int|
                0 <= a < post.files@.len() && post.files@[a].0@ == q;
            assert(a < pre.files@.len());
            assert(pre.files@[a].0@ == q);
        }
        if pre.contains_path(q) {
            let a = choose|a: int| 0 <= a < pre.files@.len() && pre.files@[a].0@ == q;
            assert(post.files@[a].0@ == q);
        }
    }
    assert forall|q: Seq<char>| q != p && pre.contains_path(q) implies #[trigger] post.data_of(q)
        == pre.data_of(q) by {
        let a = choose|a: int| 0 <= a < post.files@.len() && post.files@[a].0@ == q;
        let b = choose|b: int| 0 <= b < pre.files@.len() && pre.files@[b].0@ == q;
        assert(post.files@[b].0@ == q);
        assert(a < pre.files@.len());
        assert(pre.files@[a].0@ == q);
        assert(a == b);
    }
}

} // verus!
